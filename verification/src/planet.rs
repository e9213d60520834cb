//! Registry entries and the messages of the registry protocol.

use crate::utils::Package;
use crate::words::contains_char;
use crate::wire::{
    le32, le32_value, lemma_le32_canonical, lemma_le32_round_trip, lemma_parse_wire_str,
    lemma_wire_parse_str, parse_str, read_str, read_u32, str_encodable, wire_str, write_str,
    write_u32,
};
use vstd::prelude::*;
use vstd::slice::slice_subrange;
use vstd::string::StringExecFns;

verus! {

/// How a planet is reached. Only `UnixSocket` is in use.
#[derive(Clone, Copy, Debug, PartialEq, Eq, Structural)]
pub enum AirportKind {
    UnixSocket,
    DomainName,
}

/// A registry entry: a transport kind and a name.
#[derive(Clone, Debug, PartialEq)]
pub struct Planet {
    airport_kind: AirportKind,
    name: String,
}

/// What a `Planet` holds, with its name as a sequence of characters.
pub ghost struct PlanetView {
    pub airport_kind: AirportKind,
    pub name: Seq<char>,
}

impl View for Planet {
    type V = PlanetView;

    closed spec fn view(&self) -> PlanetView {
        PlanetView { airport_kind: self.airport_kind, name: self.name@ }
    }
}

/// Why a name could not be made canonical.
#[derive(Clone, Copy, Debug, PartialEq, Eq, Structural)]
pub enum PlanetError {
    /// The system clock reads a time before the Unix epoch.
    ClockBeforeEpoch,
}

/// The decimal digits of `n` in ASCII, most significant first.
pub open spec fn decimal(n: nat) -> Seq<u8>
    decreases n,
{
    if n < 10 {
        seq![(48 + n) as u8]
    } else {
        decimal(n / 10).push((48 + n % 10) as u8)
    }
}

/// The text that `base64::encode` gives for `bytes`.
pub uninterp spec fn base64_text(bytes: Seq<u8>) -> Seq<char>;

/// The bytes from which a suffix is made: the seconds, a hyphen, the nonce.
pub open spec fn suffix_seed(secs: u64, nonce: u32) -> Seq<u8> {
    decimal(secs as nat) + seq![45u8] + decimal(nonce as nat)
}

/// The suffix that makes a name unique.
pub open spec fn suffix_text(secs: u64, nonce: u32) -> Seq<char> {
    base64_text(suffix_seed(secs, nonce))
}

/// A name in canonical form: one that holds a `/` stays as it is, any other
/// gets a `/` and the suffix appended.
pub open spec fn canonical(name: Seq<char>, suffix: Seq<char>) -> Seq<char> {
    if name.contains('/') {
        name
    } else {
        name + seq!['/'] + suffix
    }
}

/// A canonical name holds a `/`, and making it canonical again, with
/// whatever suffix, leaves it as it is.
pub proof fn lemma_canonical_idempotent(name: Seq<char>, first: Seq<char>, second: Seq<char>)
    ensures
        canonical(name, first).contains('/'),
        canonical(canonical(name, first), second) == canonical(name, first),
{
    if !name.contains('/') {
        let made = name + seq!['/'] + first;
        assert(made[name.len() as int] == '/');
    }
}

/// The length of the base64 text of `n` bytes: four characters for every
/// three bytes, the last group padded.
pub open spec fn base64_len(n: nat) -> nat {
    4 * ((n + 2) / 3)
}

/// The number below which a number has at most `digits` decimal digits.
pub open spec fn ten_to(digits: nat) -> nat
    decreases digits,
{
    if digits == 0 {
        1
    } else {
        10 * ten_to((digits - 1) as nat)
    }
}

/// A number below `ten_to(digits)` has at least one decimal digit and at
/// most `digits`.
pub proof fn lemma_decimal_len(n: nat, digits: nat)
    requires
        digits >= 1,
        n < ten_to(digits),
    ensures
        1 <= decimal(n).len() <= digits,
    decreases digits,
{
    if n >= 10 {
        assert(ten_to(1) == 10) by {
            reveal_with_fuel(ten_to, 2);
        }
        assert(digits >= 2);
        lemma_decimal_len(n / 10, (digits - 1) as nat);
    }
}

/// The seed of a suffix has between three and thirty-one bytes.
pub proof fn lemma_suffix_seed_len(secs: u64, nonce: u32)
    ensures
        3 <= suffix_seed(secs, nonce).len() <= 31,
{
    assert(ten_to(20) == 100000000000000000000) by {
        reveal_with_fuel(ten_to, 21);
    }
    assert(ten_to(10) == 10000000000) by {
        reveal_with_fuel(ten_to, 11);
    }
    lemma_decimal_len(secs as nat, 20);
    lemma_decimal_len(nonce as nat, 10);
}

/// `base64::encode`: the standard base64 text of the bytes, which has
/// `base64_len` characters. Inputs whose text would be longer than the
/// machine can count, on which `encode` panics, are left out.
#[verifier::external_body]
fn base64_encode(bytes: &[u8]) -> (text: String)
    requires
        bytes@.len() <= 0x1000_0000,
    ensures
        text@ == base64_text(bytes@),
        text@.len() == base64_len(bytes@.len()),
{
    base64::encode(bytes)
}

/// `std::time::SystemTime`, carried from the clock to the subtraction.
#[verifier::external_type_specification]
#[verifier::external_body]
pub struct ExSystemTime(std::time::SystemTime);

/// `SystemTime::now`: the time that the system clock reads.
#[verifier::external_body]
fn system_now() -> std::time::SystemTime {
    std::time::SystemTime::now()
}

/// `SystemTime::duration_since` the Unix epoch: the time elapsed since
/// then, or `None` where `time` lies before it.
#[verifier::external_body]
fn since_epoch(time: &std::time::SystemTime) -> Option<std::time::Duration> {
    time.duration_since(std::time::SystemTime::UNIX_EPOCH).ok()
}

/// `Duration::as_secs`: the whole seconds of a duration.
#[verifier::external_body]
fn whole_seconds(elapsed: &std::time::Duration) -> u64 {
    elapsed.as_secs()
}

/// `rand::random`: a `u32` from the thread's generator.
#[verifier::external_body]
fn random_u32() -> u32 {
    rand::random()
}

/// Appends the decimal digits of `n`.
pub fn push_decimal(n: u64, out: &mut Vec<u8>)
    ensures
        final(out)@ == old(out)@ + decimal(n as nat),
    decreases n,
{
    if n >= 10 {
        push_decimal(n / 10, out);
    }
    out.push(48 + (n % 10) as u8);
    assert(out@ =~= old(out)@ + decimal(n as nat));
}

/// The suffix for a registration made at `secs` with the random `nonce`.
/// It is never empty.
pub fn make_suffix(secs: u64, nonce: u32) -> (suffix: String)
    ensures
        suffix@ == suffix_text(secs, nonce),
        suffix@.len() == base64_len(suffix_seed(secs, nonce).len()),
        suffix@.len() >= 4,
{
    let mut seed: Vec<u8> = Vec::new();
    push_decimal(secs, &mut seed);
    seed.push(45);
    push_decimal(nonce as u64, &mut seed);
    assert(seed@ =~= suffix_seed(secs, nonce));
    proof {
        lemma_suffix_seed_len(secs, nonce);
    }
    base64_encode(seed.as_slice())
}

impl Planet {
    /// A planet with the given name and kind.
    pub fn new(name: String, airport_kind: AirportKind) -> (p: Planet)
        ensures
            p@ == (PlanetView { airport_kind, name: name@ }),
    {
        Planet { name, airport_kind }
    }

    /// Makes the name canonical with the given suffix.
    pub fn update_name_with(&mut self, suffix: &str)
        ensures
            final(self)@.airport_kind == old(self)@.airport_kind,
            final(self)@.name == canonical(old(self)@.name, suffix@),
    {
        if !contains_char(self.name.as_str(), '/') {
            proof {
                reveal_strlit("/");
                assert("/"@ =~= seq!['/']);
            }
            self.name.append("/");
            self.name.append(suffix);
        }
    }

    /// Makes the name canonical. A name that holds a `/` is left as it is
    /// and the call succeeds. Any other name gets a `/` and then a suffix
    /// made from the clock and a random number, which is never empty;
    /// where the clock fails, the name is left as it is and the error is
    /// returned.
    pub fn update_name(&mut self) -> (r: Result<(), PlanetError>)
        ensures
            final(self)@.airport_kind == old(self)@.airport_kind,
            old(self)@.name.contains('/') ==> r is Ok && final(self)@.name == old(self)@.name,
            !old(self)@.name.contains('/') ==> match r {
                Ok(()) => exists|secs: u64, nonce: u32|
                    final(self)@.name == canonical(
                        old(self)@.name,
                        #[trigger] suffix_text(secs, nonce),
                    ) && suffix_text(secs, nonce).len() >= 4,
                Err(e) => e == PlanetError::ClockBeforeEpoch && final(self)@.name == old(self)@.name,
            },
            r is Ok ==> final(self)@.name.contains('/'),
    {
        if !contains_char(self.name.as_str(), '/') {
            let now = system_now();
            let secs = match since_epoch(&now) {
                Some(elapsed) => whole_seconds(&elapsed),
                None => { return Err(PlanetError::ClockBeforeEpoch); },
            };
            let suffix = make_suffix(secs, random_u32());
            proof {
                reveal_strlit("/");
                assert("/"@ =~= seq!['/']);
            }
            self.name.append("/");
            self.name.append(suffix.as_str());
            assert(self.name@[old(self)@.name.len() as int] == '/');
        }
        Ok(())
    }

    /// The name.
    pub fn name(&self) -> (name: String)
        ensures
            name@ == self@.name,
    {
        self.name.clone()
    }

    /// Whether the planet is reached over a Unix socket.
    pub fn is_unix_socket(&self) -> (r: bool)
        ensures
            r == (self@.airport_kind == AirportKind::UnixSocket),
    {
        match self.airport_kind {
            AirportKind::UnixSocket => true,
            _ => false,
        }
    }
}

/// The variant index that stands for a kind on the wire.
pub open spec fn kind_tag(kind: AirportKind) -> u32 {
    match kind {
        AirportKind::UnixSocket => 0,
        AirportKind::DomainName => 1,
    }
}

/// The kind that a variant index stands for.
pub open spec fn kind_of_tag(tag: int) -> Option<AirportKind> {
    if tag == 0 {
        Some(AirportKind::UnixSocket)
    } else if tag == 1 {
        Some(AirportKind::DomainName)
    } else {
        None
    }
}

/// A variant index followed by more bytes reads back as that index, and
/// what follows it is what was appended.
pub proof fn lemma_tagged(tag: u32, rest: Seq<u8>)
    ensures
        (le32(tag) + rest).len() == 4 + rest.len(),
        le32_value(le32(tag) + rest) == tag,
        (le32(tag) + rest).skip(4) == rest,
{
    lemma_le32_round_trip(tag, rest);
    assert((le32(tag) + rest).skip(4) =~= rest);
}

/// Bytes that start with a variant index are that index followed by the rest.
pub proof fn lemma_untagged(bytes: Seq<u8>)
    requires
        bytes.len() >= 4,
    ensures
        0 <= le32_value(bytes) <= u32::MAX,
        bytes == le32(le32_value(bytes) as u32) + bytes.skip(4),
{
    lemma_le32_canonical(bytes);
    assert(bytes =~= bytes.subrange(0, 4) + bytes.skip(4));
}

impl Package for Planet {
    open spec fn wire(v: PlanetView) -> Seq<u8> {
        le32(kind_tag(v.airport_kind)) + wire_str(v.name)
    }

    open spec fn parse(bytes: Seq<u8>) -> Option<(PlanetView, int)> {
        if bytes.len() < 4 {
            None
        } else {
            match (kind_of_tag(le32_value(bytes)), parse_str(bytes.skip(4))) {
                (Some(airport_kind), Some((name, n))) => Some(
                    (PlanetView { airport_kind, name }, 4 + n),
                ),
                _ => None,
            }
        }
    }

    open spec fn encodable(v: PlanetView) -> bool {
        str_encodable(v.name)
    }

    proof fn lemma_parse_wire(v: PlanetView, rest: Seq<u8>) {
        let tail = wire_str(v.name) + rest;
        lemma_tagged(kind_tag(v.airport_kind), tail);
        lemma_parse_wire_str(v.name, rest);
        assert(Self::wire(v) + rest =~= le32(kind_tag(v.airport_kind)) + tail);
    }

    proof fn lemma_wire_parse(bytes: Seq<u8>) {
        if let Some((v, n)) = Self::parse(bytes) {
            lemma_untagged(bytes);
            lemma_wire_parse_str(bytes.skip(4));
            assert(Self::wire(v) =~= bytes.subrange(0, n));
        }
    }

    fn write(&self, out: &mut Vec<u8>) {
        let tag: u32 = match self.airport_kind {
            AirportKind::UnixSocket => 0,
            AirportKind::DomainName => 1,
        };
        write_u32(tag, out);
        write_str(self.name.as_str(), out);
        assert(Self::encodable(self@));
        assert(out@ =~= old(out)@ + Self::wire(self@));
    }

    fn read(bytes: &[u8]) -> (r: Option<(Planet, usize)>) {
        let tag = match read_u32(bytes) {
            Some(tag) => tag,
            None => { return None; },
        };
        let airport_kind = if tag == 0 {
            AirportKind::UnixSocket
        } else if tag == 1 {
            AirportKind::DomainName
        } else {
            return None;
        };
        match read_str(slice_subrange(bytes, 4, bytes.len())) {
            Some((name, n)) => Some((Planet { airport_kind, name }, 4 + n)),
            None => None,
        }
    }
}

/// A request to the registry.
#[derive(Clone, Debug, PartialEq)]
pub enum Request {
    /// Resolve a name to a planet.
    Get(String),
    /// Register a planet.
    Regist(Planet),
    /// Check that the named planet still answers.
    Ping(String),
}

/// What a `Request` holds.
pub ghost enum RequestView {
    Get(Seq<char>),
    Regist(PlanetView),
    Ping(Seq<char>),
}

impl View for Request {
    type V = RequestView;

    open spec fn view(&self) -> RequestView {
        match self {
            Request::Get(name) => RequestView::Get(name@),
            Request::Regist(planet) => RequestView::Regist(planet@),
            Request::Ping(name) => RequestView::Ping(name@),
        }
    }
}

impl Package for Request {
    open spec fn wire(v: RequestView) -> Seq<u8> {
        match v {
            RequestView::Get(name) => le32(0) + wire_str(name),
            RequestView::Regist(planet) => le32(1) + Planet::wire(planet),
            RequestView::Ping(name) => le32(2) + wire_str(name),
        }
    }

    open spec fn parse(bytes: Seq<u8>) -> Option<(RequestView, int)> {
        if bytes.len() < 4 {
            None
        } else if le32_value(bytes) == 0 {
            match parse_str(bytes.skip(4)) {
                Some((name, n)) => Some((RequestView::Get(name), 4 + n)),
                None => None,
            }
        } else if le32_value(bytes) == 1 {
            match Planet::parse(bytes.skip(4)) {
                Some((planet, n)) => Some((RequestView::Regist(planet), 4 + n)),
                None => None,
            }
        } else if le32_value(bytes) == 2 {
            match parse_str(bytes.skip(4)) {
                Some((name, n)) => Some((RequestView::Ping(name), 4 + n)),
                None => None,
            }
        } else {
            None
        }
    }

    open spec fn encodable(v: RequestView) -> bool {
        match v {
            RequestView::Get(name) => str_encodable(name),
            RequestView::Regist(planet) => Planet::encodable(planet),
            RequestView::Ping(name) => str_encodable(name),
        }
    }

    proof fn lemma_parse_wire(v: RequestView, rest: Seq<u8>) {
        match v {
            RequestView::Get(name) => {
                lemma_tagged(0, wire_str(name) + rest);
                lemma_parse_wire_str(name, rest);
                assert(Self::wire(v) + rest =~= le32(0) + (wire_str(name) + rest));
            },
            RequestView::Regist(planet) => {
                lemma_tagged(1, Planet::wire(planet) + rest);
                Planet::lemma_parse_wire(planet, rest);
                assert(Self::wire(v) + rest =~= le32(1) + (Planet::wire(planet) + rest));
            },
            RequestView::Ping(name) => {
                lemma_tagged(2, wire_str(name) + rest);
                lemma_parse_wire_str(name, rest);
                assert(Self::wire(v) + rest =~= le32(2) + (wire_str(name) + rest));
            },
        }
    }

    proof fn lemma_wire_parse(bytes: Seq<u8>) {
        if let Some((v, n)) = Self::parse(bytes) {
            lemma_untagged(bytes);
            lemma_wire_parse_str(bytes.skip(4));
            Planet::lemma_wire_parse(bytes.skip(4));
            assert(bytes.skip(4).subrange(0, n - 4) =~= bytes.subrange(4, n));
            assert(bytes.subrange(0, n) =~= le32(le32_value(bytes) as u32) + bytes.subrange(4, n));
        }
    }

    fn write(&self, out: &mut Vec<u8>) {
        match self {
            Request::Get(name) => {
                write_u32(0, out);
                write_str(name.as_str(), out);
            },
            Request::Regist(planet) => {
                write_u32(1, out);
                planet.write(out);
            },
            Request::Ping(name) => {
                write_u32(2, out);
                write_str(name.as_str(), out);
            },
        }
        assert(Self::encodable(self@));
        assert(out@ =~= old(out)@ + Self::wire(self@));
    }

    fn read(bytes: &[u8]) -> (r: Option<(Request, usize)>) {
        let tag = match read_u32(bytes) {
            Some(tag) => tag,
            None => { return None; },
        };
        let rest = slice_subrange(bytes, 4, bytes.len());
        if tag == 0 {
            match read_str(rest) {
                Some((name, n)) => Some((Request::Get(name), 4 + n)),
                None => None,
            }
        } else if tag == 1 {
            match Planet::read(rest) {
                Some((planet, n)) => Some((Request::Regist(planet), 4 + n)),
                None => None,
            }
        } else if tag == 2 {
            match read_str(rest) {
                Some((name, n)) => Some((Request::Ping(name), 4 + n)),
                None => None,
            }
        } else {
            None
        }
    }
}

/// The answer to `Request::Get`.
#[derive(Clone, Debug, PartialEq)]
pub enum GetResponse {
    NotFound,
    NotAvaliable,
    Get(Planet),
}

/// What a `GetResponse` holds.
pub ghost enum GetResponseView {
    NotFound,
    NotAvaliable,
    Get(PlanetView),
}

impl View for GetResponse {
    type V = GetResponseView;

    open spec fn view(&self) -> GetResponseView {
        match self {
            GetResponse::NotFound => GetResponseView::NotFound,
            GetResponse::NotAvaliable => GetResponseView::NotAvaliable,
            GetResponse::Get(planet) => GetResponseView::Get(planet@),
        }
    }
}

impl Package for GetResponse {
    open spec fn wire(v: GetResponseView) -> Seq<u8> {
        match v {
            GetResponseView::NotFound => le32(0),
            GetResponseView::NotAvaliable => le32(1),
            GetResponseView::Get(planet) => le32(2) + Planet::wire(planet),
        }
    }

    open spec fn parse(bytes: Seq<u8>) -> Option<(GetResponseView, int)> {
        if bytes.len() < 4 {
            None
        } else if le32_value(bytes) == 0 {
            Some((GetResponseView::NotFound, 4))
        } else if le32_value(bytes) == 1 {
            Some((GetResponseView::NotAvaliable, 4))
        } else if le32_value(bytes) == 2 {
            match Planet::parse(bytes.skip(4)) {
                Some((planet, n)) => Some((GetResponseView::Get(planet), 4 + n)),
                None => None,
            }
        } else {
            None
        }
    }

    open spec fn encodable(v: GetResponseView) -> bool {
        match v {
            GetResponseView::Get(planet) => Planet::encodable(planet),
            _ => true,
        }
    }

    proof fn lemma_parse_wire(v: GetResponseView, rest: Seq<u8>) {
        match v {
            GetResponseView::NotFound => {
                lemma_tagged(0, rest);
            },
            GetResponseView::NotAvaliable => {
                lemma_tagged(1, rest);
            },
            GetResponseView::Get(planet) => {
                lemma_tagged(2, Planet::wire(planet) + rest);
                Planet::lemma_parse_wire(planet, rest);
                assert(Self::wire(v) + rest =~= le32(2) + (Planet::wire(planet) + rest));
            },
        }
    }

    proof fn lemma_wire_parse(bytes: Seq<u8>) {
        if let Some((v, n)) = Self::parse(bytes) {
            lemma_untagged(bytes);
            Planet::lemma_wire_parse(bytes.skip(4));
            assert(bytes.skip(4).subrange(0, n - 4) =~= bytes.subrange(4, n));
            assert(bytes.subrange(0, n) =~= le32(le32_value(bytes) as u32) + bytes.subrange(4, n));
        }
    }

    fn write(&self, out: &mut Vec<u8>) {
        match self {
            GetResponse::NotFound => {
                write_u32(0, out);
            },
            GetResponse::NotAvaliable => {
                write_u32(1, out);
            },
            GetResponse::Get(planet) => {
                write_u32(2, out);
                planet.write(out);
            },
        }
        assert(Self::encodable(self@));
        assert(out@ =~= old(out)@ + Self::wire(self@));
    }

    fn read(bytes: &[u8]) -> (r: Option<(GetResponse, usize)>) {
        let tag = match read_u32(bytes) {
            Some(tag) => tag,
            None => { return None; },
        };
        if tag == 0 {
            Some((GetResponse::NotFound, 4))
        } else if tag == 1 {
            Some((GetResponse::NotAvaliable, 4))
        } else if tag == 2 {
            match Planet::read(slice_subrange(bytes, 4, bytes.len())) {
                Some((planet, n)) => Some((GetResponse::Get(planet), 4 + n)),
                None => None,
            }
        } else {
            None
        }
    }
}

/// The answer to `Request::Regist`.
#[derive(Clone, Debug, PartialEq)]
pub enum RegistResponse {
    /// The canonical name under which the planet now stands.
    Success(String),
    /// Why the planet could not be stored.
    Fail(String),
}

/// What a `RegistResponse` holds.
pub ghost enum RegistResponseView {
    Success(Seq<char>),
    Fail(Seq<char>),
}

impl View for RegistResponse {
    type V = RegistResponseView;

    open spec fn view(&self) -> RegistResponseView {
        match self {
            RegistResponse::Success(name) => RegistResponseView::Success(name@),
            RegistResponse::Fail(reason) => RegistResponseView::Fail(reason@),
        }
    }
}

impl Package for RegistResponse {
    open spec fn wire(v: RegistResponseView) -> Seq<u8> {
        match v {
            RegistResponseView::Success(name) => le32(0) + wire_str(name),
            RegistResponseView::Fail(reason) => le32(1) + wire_str(reason),
        }
    }

    open spec fn parse(bytes: Seq<u8>) -> Option<(RegistResponseView, int)> {
        if bytes.len() < 4 {
            None
        } else if le32_value(bytes) == 0 {
            match parse_str(bytes.skip(4)) {
                Some((name, n)) => Some((RegistResponseView::Success(name), 4 + n)),
                None => None,
            }
        } else if le32_value(bytes) == 1 {
            match parse_str(bytes.skip(4)) {
                Some((reason, n)) => Some((RegistResponseView::Fail(reason), 4 + n)),
                None => None,
            }
        } else {
            None
        }
    }

    open spec fn encodable(v: RegistResponseView) -> bool {
        match v {
            RegistResponseView::Success(name) => str_encodable(name),
            RegistResponseView::Fail(reason) => str_encodable(reason),
        }
    }

    proof fn lemma_parse_wire(v: RegistResponseView, rest: Seq<u8>) {
        match v {
            RegistResponseView::Success(name) => {
                lemma_tagged(0, wire_str(name) + rest);
                lemma_parse_wire_str(name, rest);
                assert(Self::wire(v) + rest =~= le32(0) + (wire_str(name) + rest));
            },
            RegistResponseView::Fail(reason) => {
                lemma_tagged(1, wire_str(reason) + rest);
                lemma_parse_wire_str(reason, rest);
                assert(Self::wire(v) + rest =~= le32(1) + (wire_str(reason) + rest));
            },
        }
    }

    proof fn lemma_wire_parse(bytes: Seq<u8>) {
        if let Some((v, n)) = Self::parse(bytes) {
            lemma_untagged(bytes);
            lemma_wire_parse_str(bytes.skip(4));
            assert(bytes.skip(4).subrange(0, n - 4) =~= bytes.subrange(4, n));
            assert(bytes.subrange(0, n) =~= le32(le32_value(bytes) as u32) + bytes.subrange(4, n));
        }
    }

    fn write(&self, out: &mut Vec<u8>) {
        match self {
            RegistResponse::Success(name) => {
                write_u32(0, out);
                write_str(name.as_str(), out);
            },
            RegistResponse::Fail(reason) => {
                write_u32(1, out);
                write_str(reason.as_str(), out);
            },
        }
        assert(Self::encodable(self@));
        assert(out@ =~= old(out)@ + Self::wire(self@));
    }

    fn read(bytes: &[u8]) -> (r: Option<(RegistResponse, usize)>) {
        let tag = match read_u32(bytes) {
            Some(tag) => tag,
            None => { return None; },
        };
        let rest = slice_subrange(bytes, 4, bytes.len());
        if tag == 0 {
            match read_str(rest) {
                Some((name, n)) => Some((RegistResponse::Success(name), 4 + n)),
                None => None,
            }
        } else if tag == 1 {
            match read_str(rest) {
                Some((reason, n)) => Some((RegistResponse::Fail(reason), 4 + n)),
                None => None,
            }
        } else {
            None
        }
    }
}

/// The acknowledgement of a `Request::Ping` that found its planet.
pub type Pong = u32;

} // verus!
