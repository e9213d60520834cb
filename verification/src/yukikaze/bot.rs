//! The bridge's view of the chat service: which updates are new, and the
//! addresses of its methods.

use vstd::prelude::*;
use vstd::string::StringExecFns;

verus! {

/// The address of a method of the chat service for the bot with `token`.
pub open spec fn action_text(token: Seq<char>, action: Seq<char>) -> Seq<char> {
    "https://api.telegram.org/bot"@ + token + "/"@ + action
}

/// The address of the method `method` for the bot with `token`.
pub fn action(token: &str, method: &str) -> (uri: String)
    ensures
        uri@ == action_text(token@, method@),
{
    let mut uri = "https://api.telegram.org/bot".to_owned();
    uri.append(token);
    uri.append("/");
    uri.append(method);
    uri
}

/// What the bridge remembers between polls: the highest update number it
/// has seen, and whether it has seen any.
#[derive(Clone, Copy, Debug, PartialEq, Eq, Structural)]
pub struct Updates {
    pub update_id: i64,
    pub first: bool,
}

/// The memory after an update with the number `update_id`.
pub open spec fn noted(seen: Updates, update_id: i64) -> Updates {
    if update_id > seen.update_id {
        Updates { update_id, first: false }
    } else {
        seen
    }
}

/// Whether the message of an update with the number `update_id` is
/// handed on: the update is newer than all before it, and it is not the
/// first that the bridge sees, which stands for the backlog.
pub open spec fn passes(seen: Updates, update_id: i64) -> bool {
    update_id > seen.update_id && !seen.first
}

/// The memory after a poll that gave `updates`.
pub open spec fn noted_all<M>(seen: Updates, updates: Seq<(i64, Option<M>)>) -> Updates
    decreases updates.len(),
{
    if updates.len() == 0 {
        seen
    } else {
        noted(noted_all(seen, updates.drop_last()), updates.last().0)
    }
}

/// The messages of a poll that are handed on, in the order of the poll.
pub open spec fn passed_all<M>(seen: Updates, updates: Seq<(i64, Option<M>)>) -> Seq<M>
    decreases updates.len(),
{
    if updates.len() == 0 {
        Seq::empty()
    } else {
        let before = passed_all(seen, updates.drop_last());
        match updates.last().1 {
            Some(message) => if passes(noted_all(seen, updates.drop_last()), updates.last().0) {
                before.push(message)
            } else {
                before
            },
            None => before,
        }
    }
}

impl Updates {
    /// The memory of a bridge that has seen nothing.
    pub fn new() -> (seen: Updates)
        ensures
            seen == (Updates { update_id: 0, first: true }),
    {
        Updates { update_id: 0, first: true }
    }

    /// Whether this is the first call: true once, false ever after.
    pub fn is_first(&mut self) -> (r: bool)
        ensures
            r == old(self).first,
            !final(self).first,
            final(self).update_id == old(self).update_id,
    {
        if self.first {
            self.first = false;
            true
        } else {
            false
        }
    }

    /// Sorts the updates of one poll: each with its number and, where it
    /// is one, its message. The messages that are handed on are returned.
    pub fn get_updates<M>(&mut self, updates: Vec<(i64, Option<M>)>) -> (messages: Vec<M>)
        ensures
            *final(self) == noted_all(*old(self), updates@),
            messages@ == passed_all(*old(self), updates@),
    {
        let ghost all = updates@;
        let mut messages: Vec<M> = Vec::new();
        for update in it: updates
            invariant
                it.seq() == all,
                *self == noted_all(*old(self), all.subrange(0, it.index() as int)),
                messages@ == passed_all(*old(self), all.subrange(0, it.index() as int)),
        {
            let ghost shorter = all.subrange(0, it.index() as int);
            let ghost longer = all.subrange(0, it.index() + 1);
            assert(longer.drop_last() =~= shorter);
            assert(longer.last() == update);
            let (update_id, content) = update;
            if update_id > self.update_id {
                self.update_id = update_id;
                if !self.is_first() {
                    if let Some(message) = content {
                        messages.push(message);
                    }
                }
            }
        }
        assert(all.subrange(0, all.len() as int) =~= all);
        messages
    }
}

} // verus!
