//! A node that registers, listens, and hands every request of every
//! session to a handler.

use crate::client::{regist_body, ClientError, UnixClient};
use crate::planet::{RegistResponse, RegistResponseView};
use crate::server::link_dir;
use crate::utils::{
    frame, parse_frame, parse_reply, FrameError, Package, ReadEx, ReadResult, Status,
};
use vstd::prelude::*;

verus! {

/// What a node does with a request. The handler decides freely: nothing
/// is promised of its answer.
pub trait XenoHandler {
    /// What the node is asked.
    type In: Package;

    /// What the node answers.
    type Out: Package;

    /// Handles one request: an answer to send back, nothing, or the text
    /// of an error.
    fn handle(&self, input: Self::In) -> Result<Option<Self::Out>, String>;
}

/// Why a session of a node ended in an error.
#[derive(Clone, Debug, PartialEq)]
pub enum XenoError {
    /// A frame could not be read, or the answer could not be framed.
    Frame(FrameError),
    /// The handler failed; this is its text.
    Handler(String),
}

/// What a session does with the verdict of the handler, as a relation
/// between the verdict, the bytes appended to the output, and the result.
/// An answer is given here by its encoding.
pub open spec fn replied(
    verdict: Result<Option<Seq<u8>>, String>,
    reply: Seq<u8>,
    r: Result<Status, XenoError>,
) -> bool {
    match verdict {
        Ok(Some(answer)) => if answer.len() <= u32::MAX {
            reply == frame(answer) && r == Ok::<Status, XenoError>(Status::Continue)
        } else {
            reply.len() == 0 && r == Err::<Status, XenoError>(
                XenoError::Frame(FrameError::TooLong),
            )
        },
        Ok(None) => reply.len() == 0 && r == Ok::<Status, XenoError>(Status::Continue),
        Err(text) => reply.len() == 0 && r == Err::<Status, XenoError>(XenoError::Handler(text)),
    }
}

/// The verdict of a handler with the answer given by its encoding.
pub open spec fn verdict_bytes<O: Package>(verdict: Result<Option<O>, String>) -> Result<
    Option<Seq<u8>>,
    String,
> {
    match verdict {
        Ok(Some(answer)) => Ok(Some(O::wire(answer@))),
        Ok(None) => Ok(None),
        Err(text) => Err(text),
    }
}

/// Carries out the verdict of the handler: an answer is framed and
/// appended to `out`, no answer writes nothing, and an error ends the
/// session.
pub fn reply<O: Package>(verdict: Result<Option<O>, String>, out: &mut Vec<u8>) -> (r: Result<
    Status,
    XenoError,
>)
    ensures
        old(out)@.is_prefix_of(final(out)@),
        replied(verdict_bytes(verdict), final(out)@.skip(old(out)@.len() as int), r),
{
    assert(out@.skip(out@.len() as int) =~= Seq::<u8>::empty());
    match verdict {
        Ok(Some(output)) => match output.package() {
            Ok(pkg) => {
                out.extend_from_slice(pkg.as_slice());
                assert(out@ =~= old(out)@ + pkg@);
                assert(out@.skip(old(out)@.len() as int) =~= pkg@);
                Ok(Status::Continue)
            },
            Err(e) => Err(XenoError::Frame(e)),
        },
        Ok(None) => Ok(Status::Continue),
        Err(text) => Err(XenoError::Handler(text)),
    }
}

/// What one step of a session does with the next frame of `input`.
pub open spec fn received<I: Package>(
    input: Seq<u8>,
    input_after: Seq<u8>,
    reply: Seq<u8>,
    r: Result<Status, XenoError>,
) -> bool {
    match parse_frame(input) {
        Err(e) => r == Err::<Status, XenoError>(XenoError::Frame(e)) && reply.len() == 0
            && input_after == (if e == FrameError::Truncated {
            input.skip(4)
        } else {
            input
        }),
        Ok(None) => r == Ok::<Status, XenoError>(Status::Exit) && reply.len() == 0 && input_after
            == input.skip(4),
        Ok(Some((body, n))) => input_after == input.skip(n) && match I::parse(body) {
            Some(_) => exists|verdict: Result<Option<Seq<u8>>, String>|
                #![trigger replied(verdict, reply, r)]
                replied(verdict, reply, r),
            None => r == Err::<Status, XenoError>(XenoError::Frame(FrameError::Malformed))
                && reply.len() == 0,
        },
    }
}

/// One step of a session: reads the next frame, and unless it is the exit
/// sentinel hands the request to the handler and carries out its verdict.
pub fn recv_in<T: XenoHandler, R: ReadEx>(handler: &T, stream: &mut R, out: &mut Vec<u8>) -> (r:
    Result<Status, XenoError>)
    ensures
        old(out)@.is_prefix_of(final(out)@),
        received::<T::In>(
            old(stream).pending(),
            final(stream).pending(),
            final(out)@.skip(old(out)@.len() as int),
            r,
        ),
{
    assert(out@.skip(out@.len() as int) =~= Seq::<u8>::empty());
    let input: ReadResult<T::In> = match stream.unpack() {
        Ok(input) => input,
        Err(e) => { return Err(XenoError::Frame(e)); },
    };
    match input {
        ReadResult::Continue(input) => {
            let verdict = handler.handle(input);
            let r = reply(verdict, out);
            assert(replied(verdict_bytes(verdict), out@.skip(old(out)@.len() as int), r));
            r
        },
        ReadResult::Exit => Ok(Status::Exit),
    }
}

/// A node: its handle on the mesh and its handler.
pub struct XenoClient<T: XenoHandler> {
    client: UnixClient,
    handler: T,
}

impl<T: XenoHandler> XenoClient<T> {
    /// The mesh client of the node.
    pub closed spec fn client(&self) -> UnixClient {
        self.client
    }

    /// A node called `name` that answers with `handler`.
    pub fn new<N: Into<String>>(name: N, handler: T) -> (node: XenoClient<T>)
        ensures
            !node.client().is_registered(),
    {
        let client = UnixClient::new(name);
        XenoClient { client, handler }
    }

    /// The frame that asks the registry to register the node.
    pub fn regist_request(&self) -> (r: Result<Vec<u8>, FrameError>)
        ensures
            match r {
                Ok(pkg) => regist_body(self.client().spec_name()).len() <= u32::MAX && pkg@
                    == frame(regist_body(self.client().spec_name())),
                Err(e) => regist_body(self.client().spec_name()).len() > u32::MAX && e
                    == FrameError::TooLong,
            },
    {
        self.client.regist_request()
    }

    /// Reads the registry's answer to the registration, as
    /// `UnixClient::regist` does, and keeps nothing of it but the success:
    /// the node counts as registered exactly when the answer was `Success`.
    pub fn regist<R: ReadEx>(&mut self, stream: &mut R) -> (r: Result<(), ClientError>)
        ensures
            ({
                let before = old(self).client();
                let after = final(self).client();
                match parse_reply(old(stream).pending()) {
                    Err(e) => r == Err::<(), ClientError>(ClientError::Frame(e)) && after == before,
                    Ok((body, n)) => final(stream).pending() == old(stream).pending().skip(n)
                        && match RegistResponse::parse(body) {
                        Some((RegistResponseView::Success(name), _)) => r is Ok
                            && after.spec_name() == name && after.is_registered(),
                        Some((RegistResponseView::Fail(reason), _)) => (r matches Err(
                            ClientError::Rejected(text),
                        ) && text@ == reason) && after == before,
                        None => r == Err::<(), ClientError>(ClientError::Frame(FrameError::Malformed))
                            && after == before,
                    },
                }
            }),
    {
        match self.client.regist(stream) {
            Ok(_) => Ok(()),
            Err(e) => Err(e),
        }
    }

    /// The path of the socket on which to accept sessions; an error where
    /// the node has not registered.
    pub fn run(&self) -> (r: Result<String, ClientError>)
        ensures
            match r {
                Ok(path) => self.client().is_registered() && path@ == link_dir()
                    + self.client().spec_name(),
                Err(e) => !self.client().is_registered() && e == ClientError::NotRegistered,
            },
    {
        self.client.listen()
    }

    /// One step of a session of this node.
    pub fn recv<R: ReadEx>(&self, stream: &mut R, out: &mut Vec<u8>) -> (r: Result<
        Status,
        XenoError,
    >)
        ensures
            old(out)@.is_prefix_of(final(out)@),
            received::<T::In>(
                old(stream).pending(),
                final(stream).pending(),
                final(out)@.skip(old(out)@.len() as int),
                r,
            ),
    {
        recv_in(&self.handler, stream, out)
    }
}

} // verus!
