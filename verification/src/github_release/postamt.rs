//! What the release watcher says to the mesh.

use crate::github_release::target::{answer_lists, answered, cmd, commanded};
use crate::plugin::store::{Store, StoreError};
use crate::utils::{frame, parse_frame, FrameError, Package, ReadEx, ReadResult};
use crate::words::words_of;
use crate::yukikaze::request::RequestView;
use crate::yukikaze::{Ask, Request};
use vstd::prelude::*;
use vstd::string::StringExecFns;

verus! {

/// The name under which the watcher signs its posts.
pub open spec fn node_name() -> Seq<char> {
    "Github_watcher"@
}

/// The text that announces a release.
pub open spec fn release_text(target: Seq<char>, version: Seq<char>) -> Seq<char> {
    target + " release "@ + version + "."@
}

/// The post that announces the release `version` of `target`.
pub fn post(target: &str, version: &str) -> (req: Request)
    ensures
        req@ == (RequestView::Post { msg: release_text(target@, version@), node: node_name() }),
{
    let mut msg = target.to_owned();
    msg.append(" release ");
    msg.append(version);
    msg.append(".");
    Request::post(msg, "Github_watcher".to_owned())
}

/// Why a session of the watcher ended in an error.
#[derive(Clone, Debug, PartialEq)]
pub enum HandleError {
    /// A frame could not be read, or the answer could not be framed.
    Frame(FrameError),
    /// The watch list failed.
    Store(StoreError),
}

/// What the watcher does with one command, as a relation between the
/// watch list before and after, the bytes appended to the output, and
/// the result.
pub open spec fn served(
    ask: Seq<char>,
    entries: Map<Seq<u8>, Seq<u8>>,
    entries_after: Map<Seq<u8>, Seq<u8>>,
    reply: Seq<u8>,
    r: Result<ReadResult<()>, HandleError>,
) -> bool {
    match r {
        Ok(ReadResult::Continue(())) => entries_after == commanded(entries, words_of(ask))
            && exists|resp: Seq<char>|
            #![trigger answered(entries_after, words_of(ask), resp)]
            answered(entries_after, words_of(ask), resp) && post_body(resp).len() <= u32::MAX
                && reply == frame(post_body(resp)),
        Ok(ReadResult::Exit) => false,
        Err(HandleError::Store(_)) => reply.len() == 0 && answer_lists(words_of(ask)),
        Err(HandleError::Frame(e)) => reply.len() == 0 && e == FrameError::TooLong
            && entries_after == commanded(entries, words_of(ask)) && exists|resp: Seq<char>|
            #![trigger answered(entries_after, words_of(ask), resp)]
            answered(entries_after, words_of(ask), resp) && post_body(resp).len() > u32::MAX,
    }
}

/// The encoding of the post that carries `msg`, signed by the watcher.
pub open spec fn post_body(msg: Seq<char>) -> Seq<u8> {
    Request::wire(RequestView::Post { msg, node: node_name() })
}

/// One step of a session of the watcher: reads the next frame, and unless
/// it is the exit sentinel carries out the command in it and appends the
/// framed answer, a post signed by the watcher, to `out`.
pub fn handle<R: ReadEx>(stream: &mut R, store: &mut Store, out: &mut Vec<u8>) -> (r: Result<
    ReadResult<()>,
    HandleError,
>)
    ensures
        old(out)@.is_prefix_of(final(out)@),
        match parse_frame(old(stream).pending()) {
            Err(e) => r == Err::<ReadResult<()>, HandleError>(HandleError::Frame(e))
                && final(store).entries() == old(store).entries()
                && final(out)@ == old(out)@,
            Ok(None) => r == Ok::<ReadResult<()>, HandleError>(ReadResult::Exit)
                && final(store).entries() == old(store).entries()
                && final(out)@ == old(out)@,
            Ok(Some((body, n))) => final(stream).pending() == old(stream).pending().skip(n)
                && match Ask::parse(body) {
                Some((ask, _)) => served(
                    ask,
                    old(store).entries(),
                    final(store).entries(),
                    final(out)@.skip(old(out)@.len() as int),
                    r,
                ),
                None => r == Err::<ReadResult<()>, HandleError>(
                    HandleError::Frame(FrameError::Malformed),
                ) && final(store).entries() == old(store).entries() && final(out)@ == old(out)@,
            },
        },
{
    assert(out@.skip(out@.len() as int) =~= Seq::<u8>::empty());
    let ask = match stream.unpack::<Ask>() {
        Ok(ReadResult::Continue(ask)) => ask,
        Ok(ReadResult::Exit) => { return Ok(ReadResult::Exit); },
        Err(e) => { return Err(HandleError::Frame(e)); },
    };
    let resp = match cmd(store, ask.0.as_str()) {
        Ok(resp) => resp,
        Err(e) => { return Err(HandleError::Store(e)); },
    };
    let ghost text = resp@;
    let req = Request::post(resp, "Github_watcher".to_owned());
    match req.package() {
        Ok(pkg) => {
            out.extend_from_slice(pkg.as_slice());
            assert(out@ =~= old(out)@ + pkg@);
            assert(out@.skip(old(out)@.len() as int) =~= pkg@);
            assert(answered(store.entries(), words_of(ask@), text));
            Ok(ReadResult::Continue(()))
        },
        Err(e) => {
            assert(answered(store.entries(), words_of(ask@), text) && post_body(text).len()
                > u32::MAX);
            Err(HandleError::Frame(e))
        },
    }
}

} // verus!
