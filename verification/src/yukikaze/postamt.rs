//! Where the bridge sends what it hears: a command from the chat goes to
//! a node, and a post from a node goes to the chat.

use crate::utils::{parse_frame, FrameError, Package, ReadEx, ReadResult};
use crate::words::{parts, split_once};
use crate::yukikaze::request::{post_text, RequestView};
use crate::yukikaze::{Ask, Request};
use vstd::prelude::*;

verus! {

/// What the bridge does with a text from the chat.
#[derive(Clone, Debug)]
pub enum Route {
    /// The text names no node: it is passed over.
    Ignore,
    /// The command is for the bridge itself.
    Local(String),
    /// The command goes to the node called `target`.
    Remote { ask: Ask, target: String },
}

/// What a `Route` holds.
pub ghost enum RouteView {
    Ignore,
    Local(Seq<char>),
    Remote { ask: Seq<char>, target: Seq<char> },
}

impl View for Route {
    type V = RouteView;

    open spec fn view(&self) -> RouteView {
        match self {
            Route::Ignore => RouteView::Ignore,
            Route::Local(cmd) => RouteView::Local(cmd@),
            Route::Remote { ask, target } => RouteView::Remote { ask: ask@, target: target@ },
        }
    }
}

/// Where a text from the chat goes. What stands before its first blank
/// is the command and what follows it names the node; a text without a
/// blank goes nowhere.
pub open spec fn routed(text: Seq<char>) -> RouteView {
    match parts(text, ' ') {
        Some((cmd, target)) => if target == "yukikaze"@ {
            RouteView::Local(cmd)
        } else {
            RouteView::Remote { ask: cmd, target }
        },
        None => RouteView::Ignore,
    }
}

/// Where a text from the chat goes.
pub fn incoming(text: &str) -> (route: Route)
    ensures
        route@ == routed(text@),
{
    match split_once(text, ' ') {
        Some((cmd, target)) => {
            if target == "yukikaze".to_owned() {
                Route::Local(cmd)
            } else {
                Route::Remote { ask: Ask::new(cmd), target }
            }
        },
        None => Route::Ignore,
    }
}

/// One step of a session with a node that answers a command: reads the
/// next frame, and unless it is the exit sentinel gives the text to post
/// for the post in it.
pub fn handle<R: ReadEx>(stream: &mut R) -> (r: Result<ReadResult<String>, FrameError>)
    ensures
        match parse_frame(old(stream).pending()) {
            Err(e) => r == Err::<ReadResult<String>, FrameError>(e),
            Ok(None) => r is Ok
                && r->Ok_0 is Exit
                && final(stream).pending() == old(stream).pending().skip(4),
            Ok(Some((body, n))) => final(stream).pending() == old(stream).pending().skip(n)
                && match Request::parse(body) {
                Some((RequestView::Post { msg, node }, _)) => r is Ok && r->Ok_0 is Continue
                    && r->Ok_0->Continue_0@ == post_text(msg, node),
                None => r == Err::<ReadResult<String>, FrameError>(FrameError::Malformed),
            },
        },
{
    match stream.unpack::<Request>() {
        Ok(ReadResult::Continue(input)) => Ok(ReadResult::Continue(input.into_string())),
        Ok(ReadResult::Exit) => Ok(ReadResult::Exit),
        Err(e) => Err(e),
    }
}

} // verus!
