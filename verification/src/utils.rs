//! Frames: a `u32` little-endian byte count followed by that many bytes of
//! payload. A count of zero is the exit sentinel, which ends a session.

use crate::wire::{
    le32, le32_value, lemma_le32_round_trip, lemma_le32_value_prefix, lemma_le32_zero,
    lemma_parse_wire_str, lemma_wire_parse_str, parse_str,
    read_str, read_u32, str_encodable, wire_str, write_str, write_u32,
};
use vstd::prelude::*;
use vstd::slice::{slice_subrange, slice_to_vec};
use vstd::std_specs::convert::FromSpecImpl;

verus! {

/// What a session loop does after one step.
#[derive(Clone, Copy, Debug, PartialEq, Eq, Structural)]
pub enum Status {
    Continue,
    Exit,
}

impl Status {
    /// True exactly for `Exit`.
    pub fn is_exit(self) -> (r: bool)
        ensures
            r == (self == Status::Exit),
    {
        match self {
            Status::Exit => true,
            _ => false,
        }
    }

    /// True exactly for `Continue`.
    pub fn is_continue(self) -> (r: bool)
        ensures
            r == (self == Status::Continue),
    {
        match self {
            Status::Continue => true,
            _ => false,
        }
    }
}

/// Whether a session goes on after a step: it does after a step that
/// succeeded with `Continue`, and ends on `Exit` and on every error.
pub fn session_goes_on<E>(step: &Result<Status, E>) -> (go: bool)
    ensures
        go == (step is Ok && step->Ok_0 == Status::Continue),
{
    match step {
        Ok(Status::Continue) => true,
        _ => false,
    }
}

/// What reading one frame gave: the exit sentinel, or a decoded value.
#[derive(Clone, Debug, PartialEq)]
pub enum ReadResult<T> {
    Exit,
    Continue(T),
}

impl<T> ReadResult<T> {
    /// `Exit` for the sentinel, `Continue` for a value.
    pub open spec fn spec_status(&self) -> Status {
        match self {
            ReadResult::Exit => Status::Exit,
            ReadResult::Continue(_) => Status::Continue,
        }
    }

    /// The status that this result stands for.
    pub fn status(&self) -> (s: Status)
        ensures
            s == self.spec_status(),
    {
        match self {
            ReadResult::Exit => Status::Exit,
            ReadResult::Continue(_) => Status::Continue,
        }
    }
}

impl<T> From<ReadResult<T>> for Status {
    fn from(rr: ReadResult<T>) -> (s: Status) {
        match rr {
            ReadResult::Exit => Status::Exit,
            ReadResult::Continue(_) => Status::Continue,
        }
    }
}

impl<T> FromSpecImpl<ReadResult<T>> for Status {
    open spec fn obeys_from_spec() -> bool {
        true
    }

    open spec fn from_spec(rr: ReadResult<T>) -> Status {
        rr.spec_status()
    }
}

/// Why a frame could not be written or read.
#[derive(Clone, Copy, Debug, PartialEq, Eq, Structural)]
pub enum FrameError {
    /// The payload has more bytes than a `u32` can count.
    TooLong,
    /// Fewer than four bytes were left where a length was expected.
    ShortHeader,
    /// Fewer bytes were left than the length announced.
    Truncated,
    /// The payload is not an encoding of the expected type.
    Malformed,
}

impl FrameError {
    /// The text of the error.
    pub open spec fn spec_message(&self) -> Seq<char> {
        match *self {
            FrameError::TooLong => "payload too long"@,
            FrameError::ShortHeader => "short read on length"@,
            FrameError::Truncated => "truncated payload"@,
            FrameError::Malformed => "malformed payload"@,
        }
    }

    /// A short description for logs.
    pub fn message(&self) -> (s: &'static str)
        ensures
            s@ == self.spec_message(),
    {
        match self {
            FrameError::TooLong => "payload too long",
            FrameError::ShortHeader => "short read on length",
            FrameError::Truncated => "truncated payload",
            FrameError::Malformed => "malformed payload",
        }
    }
}

/// The frame that carries `body`.
pub open spec fn frame(body: Seq<u8>) -> Seq<u8> {
    le32(body.len() as u32) + body
}

/// The four zero bytes that end a session.
pub open spec fn exit_sentinel() -> Seq<u8> {
    seq![0u8, 0u8, 0u8, 0u8]
}

/// What the front of `bytes` holds, read as one frame: `Ok(None)` for the
/// exit sentinel, `Ok(Some((body, n)))` for a frame of `n` bytes in all.
pub open spec fn parse_frame(bytes: Seq<u8>) -> Result<Option<(Seq<u8>, int)>, FrameError> {
    if bytes.len() < 4 {
        Err(FrameError::ShortHeader)
    } else if le32_value(bytes) == 0 {
        Ok(None)
    } else if bytes.len() - 4 < le32_value(bytes) {
        Err(FrameError::Truncated)
    } else {
        Ok(Some((bytes.subrange(4, 4 + le32_value(bytes)), 4 + le32_value(bytes))))
    }
}

/// What the front of `bytes` holds, read as a frame that must carry a
/// value: the payload and the number of bytes of the frame. A length of
/// zero is no sentinel here, it announces an empty payload.
pub open spec fn parse_reply(bytes: Seq<u8>) -> Result<(Seq<u8>, int), FrameError> {
    if bytes.len() < 4 {
        Err(FrameError::ShortHeader)
    } else if bytes.len() - 4 < le32_value(bytes) {
        Err(FrameError::Truncated)
    } else {
        Ok((bytes.subrange(4, 4 + le32_value(bytes)), 4 + le32_value(bytes)))
    }
}

/// A value with a place in the wire format.
pub trait Package: View + Sized {
    /// The bytes that stand for a value.
    spec fn wire(v: Self::V) -> Seq<u8>;

    /// The value at the front of `bytes` and the number of bytes it takes.
    spec fn parse(bytes: Seq<u8>) -> Option<(Self::V, int)>;

    /// The values whose length prefixes do not overflow.
    spec fn encodable(v: Self::V) -> bool;

    /// Decoding an encoding gives the value back, whatever follows it.
    proof fn lemma_parse_wire(v: Self::V, rest: Seq<u8>)
        requires
            Self::encodable(v),
        ensures
            Self::parse(Self::wire(v) + rest) == Some((v, Self::wire(v).len() as int)),
    ;

    /// Whatever decodes is the encoding of what it decodes to.
    proof fn lemma_wire_parse(bytes: Seq<u8>)
        ensures
            Self::parse(bytes) matches Some((v, n)) ==> 0 <= n <= bytes.len() && Self::encodable(v)
                && Self::wire(v) == bytes.subrange(0, n),
    ;

    /// Appends the encoding of `self`.
    fn write(&self, out: &mut Vec<u8>)
        ensures
            Self::encodable(self@),
            final(out)@ == old(out)@ + Self::wire(self@),
    ;

    /// Decodes a value from the front of `bytes`; the second component is
    /// the number of bytes it took.
    fn read(bytes: &[u8]) -> (r: Option<(Self, usize)>)
        ensures
            match r {
                Some((v, n)) => Self::parse(bytes@) == Some((v@, n as int)),
                None => Self::parse(bytes@) is None,
            },
    ;

    /// The frame that carries `self`: the length of its encoding, then the
    /// encoding. Fails exactly when the encoding is longer than `u32::MAX`.
    fn package(&self) -> (r: Result<Vec<u8>, FrameError>)
        ensures
            match r {
                Ok(pkg) => Self::wire(self@).len() <= u32::MAX && pkg@ == frame(Self::wire(self@)),
                Err(e) => Self::wire(self@).len() > u32::MAX && e == FrameError::TooLong,
            },
    {
        let mut body: Vec<u8> = Vec::new();
        self.write(&mut body);
        pack(body.as_slice())
    }
}

/// The frame that carries `body`. Fails exactly when `body` is longer than
/// `u32::MAX` bytes.
pub fn pack(body: &[u8]) -> (r: Result<Vec<u8>, FrameError>)
    ensures
        match r {
            Ok(pkg) => body@.len() <= u32::MAX && pkg@ == frame(body@),
            Err(e) => body@.len() > u32::MAX && e == FrameError::TooLong,
        },
{
    if body.len() > u32::MAX as usize {
        return Err(FrameError::TooLong);
    }
    let mut pkg: Vec<u8> = Vec::new();
    write_u32(body.len() as u32, &mut pkg);
    pkg.extend_from_slice(body);
    assert(pkg@ =~= frame(body@));
    Ok(pkg)
}

/// The exit sentinel, ready to send.
pub fn exit_frame() -> (pkg: Vec<u8>)
    ensures
        pkg@ == exit_sentinel(),
        pkg@ == frame(Seq::empty()),
{
    let mut pkg: Vec<u8> = Vec::new();
    write_u32(0, &mut pkg);
    proof {
        lemma_le32_round_trip(0, Seq::empty());
        lemma_le32_zero(pkg@);
    }
    assert(pkg@ =~= exit_sentinel());
    assert(pkg@ =~= frame(Seq::empty()));
    pkg
}

impl Package for u32 {
    open spec fn wire(v: u32) -> Seq<u8> {
        le32(v)
    }

    open spec fn parse(bytes: Seq<u8>) -> Option<(u32, int)> {
        if bytes.len() < 4 {
            None
        } else {
            Some((le32_value(bytes) as u32, 4))
        }
    }

    open spec fn encodable(v: u32) -> bool {
        true
    }

    proof fn lemma_parse_wire(v: u32, rest: Seq<u8>) {
        lemma_le32_round_trip(v, rest);
    }

    proof fn lemma_wire_parse(bytes: Seq<u8>) {
        if bytes.len() >= 4 {
            crate::wire::lemma_le32_canonical(bytes);
        }
    }

    fn write(&self, out: &mut Vec<u8>) {
        write_u32(*self, out);
        assert(Self::encodable(self@));
    }

    fn read(bytes: &[u8]) -> (r: Option<(u32, usize)>) {
        match read_u32(bytes) {
            Some(n) => Some((n, 4)),
            None => None,
        }
    }
}

impl Package for () {
    open spec fn wire(v: ()) -> Seq<u8> {
        Seq::empty()
    }

    open spec fn parse(bytes: Seq<u8>) -> Option<((), int)> {
        Some(((), 0))
    }

    open spec fn encodable(v: ()) -> bool {
        true
    }

    proof fn lemma_parse_wire(v: (), rest: Seq<u8>) {
    }

    proof fn lemma_wire_parse(bytes: Seq<u8>) {
        assert(bytes.subrange(0, 0) =~= Seq::<u8>::empty());
    }

    fn write(&self, out: &mut Vec<u8>) {
        assert(Self::encodable(self@));
        assert(out@ =~= old(out)@ + Self::wire(self@));
    }

    fn read(bytes: &[u8]) -> (r: Option<((), usize)>) {
        Some(((), 0))
    }
}

impl Package for String {
    open spec fn wire(v: Seq<char>) -> Seq<u8> {
        wire_str(v)
    }

    open spec fn parse(bytes: Seq<u8>) -> Option<(Seq<char>, int)> {
        parse_str(bytes)
    }

    open spec fn encodable(v: Seq<char>) -> bool {
        str_encodable(v)
    }

    proof fn lemma_parse_wire(v: Seq<char>, rest: Seq<u8>) {
        lemma_parse_wire_str(v, rest);
    }

    proof fn lemma_wire_parse(bytes: Seq<u8>) {
        lemma_wire_parse_str(bytes);
    }

    fn write(&self, out: &mut Vec<u8>) {
        write_str(self.as_str(), out);
        assert(Self::encodable(self@));
    }

    fn read(bytes: &[u8]) -> (r: Option<(String, usize)>) {
        read_str(bytes)
    }
}

/// A buffer of received bytes and the place up to which they were read.
pub struct Cursor {
    data: Vec<u8>,
    pos: usize,
}

impl Cursor {
    /// The bytes that have not been read yet.
    pub closed spec fn unread(&self) -> Seq<u8> {
        self.data@.subrange(self.pos as int, self.data@.len() as int)
    }

    /// The read position is inside the buffer.
    #[verifier::type_invariant]
    closed spec fn well_formed(&self) -> bool {
        self.pos <= self.data@.len()
    }

    /// A cursor at the start of `data`.
    pub fn new(data: Vec<u8>) -> (c: Cursor)
        ensures
            c.unread() == data@,
    {
        let c = Cursor { data, pos: 0 };
        assert(c.unread() =~= data@);
        c
    }

    /// Appends bytes that arrived after the cursor was made.
    pub fn feed(&mut self, bytes: &[u8])
        ensures
            final(self).unread() == old(self).unread() + bytes@,
    {
        proof {
            use_type_invariant(&*self);
        }
        let mut data: Vec<u8> = Vec::new();
        data.extend_from_slice(slice_subrange(self.data.as_slice(), self.pos, self.data.len()));
        data.extend_from_slice(bytes);
        assert(data@ =~= old(self).unread() + bytes@);
        let fed = Cursor { data, pos: 0 };
        assert(fed.unread() =~= old(self).unread() + bytes@);
        *self = fed;
    }

    /// The number of bytes that are left to read.
    pub fn remaining(&self) -> (n: usize)
        ensures
            n == self.unread().len(),
    {
        proof {
            use_type_invariant(self);
        }
        self.data.len() - self.pos
    }
}

/// A source of received bytes from which frames are read.
pub trait ReadEx: Sized {
    /// The bytes that have not been read yet.
    spec fn pending(&self) -> Seq<u8>;

    /// Takes the next `n` bytes, or nothing where fewer are left.
    fn take(&mut self, n: usize) -> (r: Option<Vec<u8>>)
        ensures
            ({
                let before = old(self).pending();
                let after = final(self).pending();
                match r {
                    Some(bytes) => n <= before.len() && bytes@ == before.subrange(0, n as int)
                        && after == before.skip(n as int),
                    None => n > before.len() && after == before,
                }
            }),
    ;

    /// Reads the length that starts a frame. A short read is an error and
    /// takes nothing.
    fn get_len(&mut self) -> (r: Result<u32, FrameError>)
        ensures
            ({
                let before = old(self).pending();
                let after = final(self).pending();
                match r {
                    Ok(len) => before.len() >= 4 && len == le32_value(before) && after
                        == before.skip(4),
                    Err(e) => e == FrameError::ShortHeader && before.len() < 4 && after == before,
                }
            }),
    {
        match self.take(4) {
            Some(header) => {
                let len = read_u32(header.as_slice());
                proof {
                    assert(header@.subrange(0, 4) =~= old(self).pending().subrange(0, 4));
                    lemma_le32_value_prefix(header@, old(self).pending());
                }
                Ok(len.unwrap())
            },
            None => Err(FrameError::ShortHeader),
        }
    }

    /// Reads a payload of `len` bytes and decodes it. Bytes of the payload
    /// that follow the value are passed over.
    fn get_obj<T: Package>(&mut self, len: u32) -> (r: Result<T, FrameError>)
        ensures
            ({
                let before = old(self).pending();
                let after = final(self).pending();
                let body = before.subrange(0, len as int);
                match r {
                    Ok(v) => len <= before.len() && (T::parse(body) matches Some((pv, _)) && pv
                        == v@) && after == before.skip(len as int),
                    Err(e) => if len > before.len() {
                        e == FrameError::Truncated && after == before
                    } else {
                        e == FrameError::Malformed && T::parse(body) is None && after
                            == before.skip(len as int)
                    },
                }
            }),
    {
        match self.take(len as usize) {
            Some(body) => match T::read(body.as_slice()) {
                Some((v, _)) => Ok(v),
                None => Err(FrameError::Malformed),
            },
            None => Err(FrameError::Truncated),
        }
    }

    /// Reads one frame that must carry a value: its length, then the value.
    fn expect<T: Package>(&mut self) -> (r: Result<T, FrameError>)
        ensures
            ({
                let before = old(self).pending();
                let after = final(self).pending();
                match parse_reply(before) {
                    Err(e) => r == Err::<T, FrameError>(e)
                        && after == (if e == FrameError::Truncated {
                        before.skip(4)
                    } else {
                        before
                    }),
                    Ok((body, n)) => after == before.skip(n) && match T::parse(body) {
                        Some((pv, _)) => r is Ok && r->Ok_0@ == pv,
                        None => r == Err::<T, FrameError>(FrameError::Malformed),
                    },
                }
            }),
    {
        let len = match self.get_len() {
            Ok(len) => len,
            Err(e) => { return Err(e); },
        };
        proof {
            let all = old(self).pending();
            if 4 + len <= all.len() {
                assert(all.skip(4).subrange(0, len as int) =~= all.subrange(4, 4 + len));
                assert(all.skip(4).skip(len as int) =~= all.skip(4 + len));
            }
        }
        self.get_obj::<T>(len)
    }

    /// Reads one frame. The exit sentinel gives `Exit` and nothing after
    /// its four bytes is touched; any other frame gives its decoded payload.
    fn unpack<T: Package>(&mut self) -> (r: Result<ReadResult<T>, FrameError>)
        ensures
            ({
                let before = old(self).pending();
                let after = final(self).pending();
                match parse_frame(before) {
                    Err(pe) => r == Err::<ReadResult<T>, FrameError>(pe) && after == (if pe
                        == FrameError::Truncated {
                        before.skip(4)
                    } else {
                        before
                    }),
                    Ok(None) => r is Ok && r->Ok_0 is Exit && after == before.skip(4),
                    Ok(Some((body, n))) => after == before.skip(n) && match T::parse(body) {
                        Some((pv, _)) => r is Ok && r->Ok_0 is Continue && r->Ok_0->Continue_0@
                            == pv,
                        None => r == Err::<ReadResult<T>, FrameError>(FrameError::Malformed),
                    },
                }
            }),
    {
        let len = match self.get_len() {
            Ok(len) => len,
            Err(e) => { return Err(e); },
        };
        if len == 0 {
            return Ok(ReadResult::Exit);
        }
        proof {
            let all = old(self).pending();
            if 4 + len <= all.len() {
                assert(all.skip(4).subrange(0, len as int) =~= all.subrange(4, 4 + len));
                assert(all.skip(4).skip(len as int) =~= all.skip(4 + len));
            }
        }
        match self.get_obj::<T>(len) {
            Ok(v) => Ok(ReadResult::Continue(v)),
            Err(e) => Err(e),
        }
    }
}

impl ReadEx for Cursor {
    open spec fn pending(&self) -> Seq<u8> {
        self.unread()
    }

    fn take(&mut self, n: usize) -> (r: Option<Vec<u8>>) {
        proof {
            use_type_invariant(&*self);
        }
        if n > self.data.len() - self.pos {
            return None;
        }
        let end: usize = self.pos + n;
        let bytes = slice_to_vec(slice_subrange(self.data.as_slice(), self.pos, end));
        self.pos = end;
        assert(self.unread() =~= old(self).unread().skip(n as int));
        assert(bytes@ =~= old(self).unread().subrange(0, n as int));
        Some(bytes)
    }
}

/// A frame that is written and read back gives its payload, whatever
/// follows it, and starts with the payload's length as a little-endian
/// `u32`. The empty payload is left out: its frame is the exit sentinel.
pub proof fn lemma_frame_round_trip(payload: Seq<u8>, rest: Seq<u8>)
    requires
        0 < payload.len() <= u32::MAX,
    ensures
        parse_frame(frame(payload) + rest) == Ok::<Option<(Seq<u8>, int)>, FrameError>(
            Some((payload, 4 + payload.len() as int)),
        ),
        frame(payload).subrange(0, 4) == le32(payload.len() as u32),
{
    let all = frame(payload) + rest;
    lemma_le32_round_trip(payload.len() as u32, payload + rest);
    assert(all =~= le32(payload.len() as u32) + (payload + rest));
    assert(all.subrange(4, 4 + payload.len() as int) =~= payload);
    assert(frame(payload).subrange(0, 4) =~= le32(payload.len() as u32));
}

/// Four zero bytes read as the exit sentinel, whatever follows them, and
/// only the frame of the empty payload is the exit sentinel.
pub proof fn lemma_exit_sentinel(payload: Seq<u8>, rest: Seq<u8>)
    requires
        payload.len() <= u32::MAX,
    ensures
        parse_frame(exit_sentinel() + rest) == Ok::<Option<(Seq<u8>, int)>, FrameError>(None),
        frame(payload) == exit_sentinel() <==> payload.len() == 0,
{
    let all = exit_sentinel() + rest;
    lemma_le32_zero(all);
    assert(all.subrange(0, 4) =~= exit_sentinel());
    if payload.len() == 0 {
        assert(frame(payload) =~= exit_sentinel());
    } else {
        lemma_le32_round_trip(payload.len() as u32, payload);
    }
}

/// A value that is framed and read back from its frame is the value, and
/// the frame starts with the length of its encoding. Values with an empty
/// encoding are left out: their frame is the exit sentinel.
pub proof fn lemma_package_round_trip<T: Package>(v: T::V, rest: Seq<u8>)
    requires
        T::encodable(v),
        0 < T::wire(v).len() <= u32::MAX,
    ensures
        parse_frame(frame(T::wire(v)) + rest) == Ok::<Option<(Seq<u8>, int)>, FrameError>(
            Some((T::wire(v), 4 + T::wire(v).len() as int)),
        ),
        T::parse(T::wire(v)) == Some((v, T::wire(v).len() as int)),
        frame(T::wire(v)).subrange(0, 4) == le32(T::wire(v).len() as u32),
{
    lemma_frame_round_trip(T::wire(v), rest);
    T::lemma_parse_wire(v, Seq::empty());
    assert(T::wire(v) + Seq::<u8>::empty() =~= T::wire(v));
}

/// How long, in milliseconds, the registry waits for the payload of a
/// frame once it has read its length.
pub const DECODE_DEADLINE_MS: u64 = 500;

/// Where a session stands between two reads.
#[derive(Clone, Copy, Debug, PartialEq, Eq, Structural)]
pub enum Session {
    /// The length of the next frame is awaited.
    ReadLen,
    /// The payload of a frame of the given length is awaited.
    ReadBody(u32),
    /// The session has ended.
    Exit,
}

/// What a session reads next: a number of bytes, and the milliseconds
/// within which they must arrive where there is a deadline.
#[derive(Clone, Copy, Debug, PartialEq, Eq, Structural)]
pub struct Read {
    pub count: u32,
    pub deadline_ms: Option<u64>,
}

impl Session {
    /// A session at its start.
    pub fn new() -> (session: Session)
        ensures
            session == Session::ReadLen,
    {
        Session::ReadLen
    }

    /// What the session reads next; nothing once it has ended. A length
    /// may take any time; a payload has the deadline of the reader, where
    /// the reader has one.
    pub fn wants(self, deadline_ms: Option<u64>) -> (read: Option<Read>)
        ensures
            read == match self {
                Session::ReadLen => Some(Read { count: 4, deadline_ms: None }),
                Session::ReadBody(len) => Some(Read { count: len, deadline_ms }),
                Session::Exit => None,
            },
    {
        match self {
            Session::ReadLen => Some(Read { count: 4, deadline_ms: None }),
            Session::ReadBody(len) => Some(Read { count: len, deadline_ms }),
            Session::Exit => None,
        }
    }

    /// The state after the bytes that the session wanted have arrived. A
    /// length of zero ends the session and any other length awaits its
    /// payload; a payload, once here, is to be dispatched and answered,
    /// and the next length is awaited. Bytes of another count than the
    /// session wanted are an error.
    pub fn received(self, bytes: &[u8]) -> (r: Result<Session, FrameError>)
        ensures
            r == match self {
                Session::ReadLen => if bytes@.len() != 4 {
                    Err(FrameError::ShortHeader)
                } else if le32_value(bytes@) == 0 {
                    Ok(Session::Exit)
                } else {
                    Ok(Session::ReadBody(le32_value(bytes@) as u32))
                },
                Session::ReadBody(len) => if bytes@.len() != len {
                    Err(FrameError::Truncated)
                } else {
                    Ok(Session::ReadLen)
                },
                Session::Exit => Ok(Session::Exit),
            },
    {
        match self {
            Session::ReadLen => {
                if bytes.len() != 4 {
                    return Err(FrameError::ShortHeader);
                }
                match read_u32(bytes) {
                    Some(len) => if len == 0 {
                        Ok(Session::Exit)
                    } else {
                        Ok(Session::ReadBody(len))
                    },
                    None => Err(FrameError::ShortHeader),
                }
            },
            Session::ReadBody(len) => {
                if bytes.len() != len as usize {
                    Err(FrameError::Truncated)
                } else {
                    Ok(Session::ReadLen)
                }
            },
            Session::Exit => Ok(Session::Exit),
        }
    }

    /// The state after a read failed or an error ended the dispatch: the
    /// session has ended.
    pub fn failed(self) -> (session: Session)
        ensures
            session == Session::Exit,
    {
        Session::Exit
    }

    /// Whether the session has ended.
    pub fn is_exit(self) -> (r: bool)
        ensures
            r == (self == Session::Exit),
    {
        match self {
            Session::Exit => true,
            _ => false,
        }
    }
}

} // verus!
