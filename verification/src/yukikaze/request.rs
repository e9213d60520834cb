//! A notification destined for the chat bridge.

use crate::planet::{lemma_tagged, lemma_untagged};
use crate::utils::Package;
use crate::wire::{
    le32, le32_value, lemma_parse_wire_str, lemma_wire_parse_str, parse_str, read_str, read_u32,
    str_encodable, wire_str, write_str, write_u32,
};
use vstd::prelude::*;
use vstd::slice::slice_subrange;
use vstd::std_specs::convert::IntoSpec;
use vstd::string::StringExecFns;

verus! {

/// What a node asks of the bridge.
#[derive(Clone, Debug)]
pub enum Request {
    /// Post `msg` to the channel in the name of `node`.
    Post { msg: String, node: String },
}

/// What a `Request` holds.
pub ghost enum RequestView {
    Post { msg: Seq<char>, node: Seq<char> },
}

impl View for Request {
    type V = RequestView;

    open spec fn view(&self) -> RequestView {
        match self {
            Request::Post { msg, node } => RequestView::Post { msg: msg@, node: node@ },
        }
    }
}

/// The text that the bridge posts: the message, a rule, and a signature
/// line that names the node.
pub open spec fn post_text(msg: Seq<char>, node: Seq<char>) -> Seq<char> {
    msg + "\n\n------\n"@ + node + " - 雪風Dタイプ"@
}

impl Request {
    /// The request to post `msg` in the name of `node`.
    pub fn post(msg: String, node: String) -> (r: Request)
        ensures
            r@ == (RequestView::Post { msg: msg@, node: node@ }),
    {
        Request::Post { msg, node }
    }

    /// The text that the bridge posts for this request.
    pub fn into_string(self) -> (text: String)
        ensures
            self@ matches RequestView::Post { msg, node } && text@ == post_text(msg, node),
    {
        match self {
            Request::Post { msg, node } => {
                let mut text = msg;
                text.append("\n\n------\n");
                text.append(node.as_str());
                text.append(" - 雪風Dタイプ");
                text
            },
        }
    }
}

/// The request to post `msg` in the name of `node`, each converted to a
/// `String` first.
pub fn post<M: Into<String>, N: Into<String>>(msg: M, node: N) -> (r: Request)
    ensures
        r@ is Post,
        <M as IntoSpec<String>>::obeys_into_spec() ==> r@->msg == <M as IntoSpec<String>>::into_spec(
            msg,
        )@,
        <N as IntoSpec<String>>::obeys_into_spec() ==> r@->node == <N as IntoSpec<
            String,
        >>::into_spec(node)@,
{
    Request::post(msg.into(), node.into())
}

impl Package for Request {
    open spec fn wire(v: RequestView) -> Seq<u8> {
        match v {
            RequestView::Post { msg, node } => le32(0) + wire_str(msg) + wire_str(node),
        }
    }

    open spec fn parse(bytes: Seq<u8>) -> Option<(RequestView, int)> {
        if bytes.len() < 4 || le32_value(bytes) != 0 {
            None
        } else {
            match parse_str(bytes.skip(4)) {
                Some((msg, n1)) => match parse_str(bytes.skip(4 + n1)) {
                    Some((node, n2)) => Some((RequestView::Post { msg, node }, 4 + n1 + n2)),
                    None => None,
                },
                None => None,
            }
        }
    }

    open spec fn encodable(v: RequestView) -> bool {
        match v {
            RequestView::Post { msg, node } => str_encodable(msg) && str_encodable(node),
        }
    }

    proof fn lemma_parse_wire(v: RequestView, rest: Seq<u8>) {
        match v {
            RequestView::Post { msg, node } => {
                let all = Self::wire(v) + rest;
                let after_msg = wire_str(node) + rest;
                lemma_tagged(0, wire_str(msg) + after_msg);
                assert(all =~= le32(0) + (wire_str(msg) + after_msg));
                lemma_parse_wire_str(msg, after_msg);
                lemma_parse_wire_str(node, rest);
                assert(all.skip(4 + wire_str(msg).len() as int) =~= after_msg);
            },
        }
    }

    proof fn lemma_wire_parse(bytes: Seq<u8>) {
        if let Some((v, n)) = Self::parse(bytes) {
            lemma_untagged(bytes);
            lemma_wire_parse_str(bytes.skip(4));
            let (_, n1) = parse_str(bytes.skip(4)).unwrap();
            lemma_wire_parse_str(bytes.skip(4 + n1));
            assert(bytes.skip(4).subrange(0, n1) =~= bytes.subrange(4, 4 + n1));
            assert(bytes.skip(4 + n1).subrange(0, n - 4 - n1) =~= bytes.subrange(4 + n1, n));
            assert(bytes.subrange(0, n) =~= le32(0) + bytes.subrange(4, 4 + n1) + bytes.subrange(
                4 + n1,
                n,
            ));
        }
    }

    fn write(&self, out: &mut Vec<u8>) {
        match self {
            Request::Post { msg, node } => {
                write_u32(0, out);
                write_str(msg.as_str(), out);
                write_str(node.as_str(), out);
            },
        }
        assert(Self::encodable(self@));
        assert(out@ =~= old(out)@ + Self::wire(self@));
    }

    fn read(bytes: &[u8]) -> (r: Option<(Request, usize)>) {
        let tag = match read_u32(bytes) {
            Some(tag) => tag,
            None => { return None; },
        };
        if tag != 0 {
            return None;
        }
        let (msg, n1) = match read_str(slice_subrange(bytes, 4, bytes.len())) {
            Some(found) => found,
            None => { return None; },
        };
        assert(bytes@.skip(4).skip(n1 as int) =~= bytes@.skip(4 + n1));
        let (node, n2) = match read_str(slice_subrange(bytes, 4 + n1, bytes.len())) {
            Some(found) => found,
            None => { return None; },
        };
        Some((Request::Post { msg, node }, 4 + n1 + n2))
    }
}

} // verus!
