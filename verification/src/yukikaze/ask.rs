//! A command issued to a node.

use crate::utils::Package;
use crate::wire::{
    lemma_parse_wire_str, lemma_wire_parse_str, parse_str, read_str, str_encodable, wire_str,
    write_str,
};
use vstd::prelude::*;
use vstd::std_specs::convert::FromSpecImpl;

verus! {

/// A command for a node, as the text that the user typed.
#[derive(Clone, Debug)]
pub struct Ask(pub String);

impl View for Ask {
    type V = Seq<char>;

    open spec fn view(&self) -> Seq<char> {
        self.0@
    }
}

impl Ask {
    /// The command with text `s`.
    pub fn new(s: String) -> (ask: Ask)
        ensures
            ask.0 == s,
    {
        Ask(s)
    }
}

impl From<Ask> for String {
    fn from(ask: Ask) -> (s: String) {
        ask.0
    }
}

impl FromSpecImpl<Ask> for String {
    open spec fn obeys_from_spec() -> bool {
        true
    }

    open spec fn from_spec(ask: Ask) -> String {
        ask.0
    }
}

impl Package for Ask {
    open spec fn wire(v: Seq<char>) -> Seq<u8> {
        wire_str(v)
    }

    open spec fn parse(bytes: Seq<u8>) -> Option<(Seq<char>, int)> {
        parse_str(bytes)
    }

    open spec fn encodable(v: Seq<char>) -> bool {
        str_encodable(v)
    }

    proof fn lemma_parse_wire(v: Seq<char>, rest: Seq<u8>) {
        lemma_parse_wire_str(v, rest);
    }

    proof fn lemma_wire_parse(bytes: Seq<u8>) {
        lemma_wire_parse_str(bytes);
    }

    fn write(&self, out: &mut Vec<u8>) {
        write_str(self.0.as_str(), out);
        assert(Self::encodable(self@));
    }

    fn read(bytes: &[u8]) -> (r: Option<(Ask, usize)>) {
        match read_str(bytes) {
            Some((s, n)) => Some((Ask(s), n)),
            None => None,
        }
    }
}

} // verus!
