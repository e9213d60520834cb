//! What holds of every run of a chain of three stages: a cron head, a map
//! stage and a tail, joined by two queues of one capacity.

use crate::cell::{cell_step, tail_step};
use crate::cron::cron_step;
use vstd::prelude::*;

verus! {

/// A chain and its history.
pub ghost struct Chain<A, B> {
    /// Every output of the function of the cron stage, the oldest first.
    pub emitted: Seq<A>,
    /// The output that the cron stage holds until there is room.
    pub cron_held: Option<A>,
    /// The queue from the cron stage to the map stage.
    pub first: Seq<A>,
    /// Every input that the map stage took, the oldest first.
    pub taken: Seq<A>,
    /// The output that the map stage holds until there is room.
    pub map_held: Option<B>,
    /// The queue from the map stage to the tail.
    pub second: Seq<B>,
    /// Every input that the tail took, the oldest first.
    pub observed: Seq<B>,
}

/// One run of one stage, with what its function gives if the run calls it.
pub ghost enum Event<A, B> {
    Tick(Result<A, String>),
    Hop(Result<B, String>),
    Tail(Result<(), String>),
}

/// The chain before anything ran.
pub open spec fn start<A, B>() -> Chain<A, B> {
    Chain {
        emitted: Seq::empty(),
        cron_held: None,
        first: Seq::empty(),
        taken: Seq::empty(),
        map_held: None,
        second: Seq::empty(),
        observed: Seq::empty(),
    }
}

/// The chain after one run of one stage.
pub open spec fn step<A, B>(chain: Chain<A, B>, capacity: nat, event: Event<A, B>) -> Chain<A, B> {
    match event {
        Event::Tick(result) => {
            let after = cron_step(chain.cron_held, chain.first, capacity, result);
            Chain {
                emitted: if chain.cron_held is None && result is Ok {
                    chain.emitted.push(result->Ok_0)
                } else {
                    chain.emitted
                },
                cron_held: after.held,
                first: after.next,
                ..chain
            }
        },
        Event::Hop(result) => {
            let after = cell_step(
                chain.first,
                false,
                chain.map_held,
                chain.second,
                capacity,
                result,
            );
            Chain {
                taken: if chain.map_held is None && chain.first.len() > 0 {
                    chain.taken.push(chain.first[0])
                } else {
                    chain.taken
                },
                first: after.source,
                map_held: after.held,
                second: after.next,
                ..chain
            }
        },
        Event::Tail(result) => {
            let after = tail_step(chain.second, false, result);
            Chain {
                observed: if chain.second.len() > 0 {
                    chain.observed.push(chain.second[0])
                } else {
                    chain.observed
                },
                second: after.source,
                ..chain
            }
        },
    }
}

/// The chain after the events, the first of them first.
pub open spec fn run<A, B>(chain: Chain<A, B>, capacity: nat, events: Seq<Event<A, B>>) -> Chain<
    A,
    B,
>
    decreases events.len(),
{
    if events.len() == 0 {
        chain
    } else {
        step(run(chain, capacity, events.drop_last()), capacity, events.last())
    }
}

/// The event is one that the map function `f` allows: where the map
/// stage calls its function, the event carries what `f` gives.
pub open spec fn obeys<A, B>(
    chain: Chain<A, B>,
    event: Event<A, B>,
    f: spec_fn(A) -> Result<B, String>,
) -> bool {
    event matches Event::Hop(result) ==> (chain.map_held is None && chain.first.len() > 0 ==> result
        == f(chain.first[0]))
}

/// Every event of the run is one that `f` allows.
pub open spec fn lawful<A, B>(
    chain: Chain<A, B>,
    capacity: nat,
    events: Seq<Event<A, B>>,
    f: spec_fn(A) -> Result<B, String>,
) -> bool
    decreases events.len(),
{
    events.len() > 0 ==> lawful(chain, capacity, events.drop_last(), f) && obeys(
        run(chain, capacity, events.drop_last()),
        events.last(),
        f,
    )
}

/// The outputs that `f` gives for the inputs on which it succeeds, in the
/// order of the inputs.
pub open spec fn successes<A, B>(f: spec_fn(A) -> Result<B, String>, inputs: Seq<A>) -> Seq<B>
    decreases inputs.len(),
{
    if inputs.len() == 0 {
        Seq::empty()
    } else {
        match f(inputs.last()) {
            Ok(output) => successes(f, inputs.drop_last()).push(output),
            Err(_) => successes(f, inputs.drop_last()),
        }
    }
}

/// The items that a stage holds: none or one.
pub open spec fn in_hand<T>(held: Option<T>) -> Seq<T> {
    match held {
        Some(item) => seq![item],
        None => Seq::empty(),
    }
}

/// Nothing is lost, doubled or reordered, and no queue is over its
/// capacity: what the cron stage emitted is what the map stage took, then
/// the first queue, then what the cron stage holds; and what `f` made of
/// the taken inputs is what the tail took, then the second queue, then
/// what the map stage holds.
pub open spec fn conserved<A, B>(
    chain: Chain<A, B>,
    capacity: nat,
    f: spec_fn(A) -> Result<B, String>,
) -> bool {
    &&& chain.emitted == chain.taken + chain.first + in_hand(chain.cron_held)
    &&& successes(f, chain.taken) == chain.observed + chain.second + in_hand(chain.map_held)
    &&& chain.first.len() <= capacity
    &&& chain.second.len() <= capacity
}

/// The successes of a sequence start with the successes of any of its
/// beginnings.
pub proof fn lemma_successes_prefix<A, B>(
    f: spec_fn(A) -> Result<B, String>,
    head: Seq<A>,
    rest: Seq<A>,
)
    ensures
        successes(f, head).is_prefix_of(successes(f, head + rest)),
    decreases rest.len(),
{
    if rest.len() == 0 {
        assert(head + rest =~= head);
    } else {
        lemma_successes_prefix(f, head, rest.drop_last());
        assert((head + rest).drop_last() =~= head + rest.drop_last());
        assert((head + rest).last() == rest.last());
    }
}

/// One event that `f` allows keeps the chain conserved.
pub proof fn lemma_step_conserves<A, B>(
    chain: Chain<A, B>,
    capacity: nat,
    event: Event<A, B>,
    f: spec_fn(A) -> Result<B, String>,
)
    requires
        conserved(chain, capacity, f),
        obeys(chain, event, f),
    ensures
        conserved(step(chain, capacity, event), capacity, f),
{
    let after = step(chain, capacity, event);
    match event {
        Event::Tick(result) => {
            assert(after.emitted =~= after.taken + after.first + in_hand(after.cron_held));
        },
        Event::Hop(result) => {
            assert(after.emitted =~= after.taken + after.first + in_hand(after.cron_held));
            if chain.map_held is None && chain.first.len() > 0 {
                assert(after.taken.drop_last() =~= chain.taken);
            }
            assert(successes(f, after.taken) =~= after.observed + after.second + in_hand(
                after.map_held,
            ));
        },
        Event::Tail(result) => {
            assert(successes(f, after.taken) =~= after.observed + after.second + in_hand(
                after.map_held,
            ));
        },
    }
}

/// Every run that `f` allows, from the start, ends conserved.
pub proof fn lemma_run_conserves<A, B>(
    capacity: nat,
    events: Seq<Event<A, B>>,
    f: spec_fn(A) -> Result<B, String>,
)
    requires
        lawful(start(), capacity, events, f),
    ensures
        conserved(run(start(), capacity, events), capacity, f),
    decreases events.len(),
{
    if events.len() == 0 {
        let chain = start::<A, B>();
        assert(chain.emitted =~= chain.taken + chain.first + in_hand(chain.cron_held));
        assert(successes(f, chain.taken) =~= chain.observed + chain.second + in_hand(
            chain.map_held,
        ));
    } else {
        lemma_run_conserves(capacity, events.drop_last(), f);
        lemma_step_conserves(
            run(start(), capacity, events.drop_last()),
            capacity,
            events.last(),
            f,
        );
    }
}

/// First in, first out: whatever the order in which the stages run, what
/// the tail has taken is a beginning of what `f` makes of the outputs of
/// the cron stage, in their order. An input on which `f` fails is left
/// out and the later ones still come, in order.
pub proof fn lemma_fifo<A, B>(
    capacity: nat,
    events: Seq<Event<A, B>>,
    f: spec_fn(A) -> Result<B, String>,
)
    requires
        lawful(start(), capacity, events, f),
    ensures
        run(start(), capacity, events).observed.is_prefix_of(
            successes(f, run(start(), capacity, events).emitted),
        ),
{
    let end = run(start(), capacity, events);
    lemma_run_conserves(capacity, events, f);
    lemma_successes_prefix(f, end.taken, end.first + in_hand(end.cron_held));
    assert(end.emitted =~= end.taken + (end.first + in_hand(end.cron_held)));
    assert(end.observed.is_prefix_of(end.observed + end.second + in_hand(end.map_held)));
}

/// Order is kept: where what `f` makes of the outputs of the cron stage
/// is in strictly increasing order, by whatever order `before`, then so
/// is what the tail has taken.
pub proof fn lemma_order_kept<A, B>(
    capacity: nat,
    events: Seq<Event<A, B>>,
    f: spec_fn(A) -> Result<B, String>,
    before: spec_fn(B, B) -> bool,
)
    requires
        lawful(start(), capacity, events, f),
        forall|i: int, j: int|
            0 <= i < j < successes(f, run(start(), capacity, events).emitted).len() ==> before(
                #[trigger] successes(f, run(start(), capacity, events).emitted)[i],
                #[trigger] successes(f, run(start(), capacity, events).emitted)[j],
            ),
    ensures
        forall|i: int, j: int|
            0 <= i < j < run(start(), capacity, events).observed.len() ==> before(
                #[trigger] run(start(), capacity, events).observed[i],
                #[trigger] run(start(), capacity, events).observed[j],
            ),
{
    lemma_fifo(capacity, events, f);
    let observed = run(start(), capacity, events).observed;
    let made = successes(f, run(start(), capacity, events).emitted);
    assert forall|i: int, j: int| 0 <= i < j < observed.len() implies before(
        #[trigger] observed[i],
        #[trigger] observed[j],
    ) by {
        assert(observed[i] == made[i]);
        assert(observed[j] == made[j]);
    }
}

/// Backpressure: whatever the order in which the stages run, the cron
/// stage is never more than the capacity and one ahead of the stage below
/// it. Where that stage has stalled and taken nothing, the cron function
/// has given at most `capacity + 1` outputs.
pub proof fn lemma_backpressure<A, B>(
    capacity: nat,
    events: Seq<Event<A, B>>,
    f: spec_fn(A) -> Result<B, String>,
)
    requires
        lawful(start(), capacity, events, f),
    ensures
        run(start(), capacity, events).emitted.len() <= run(start(), capacity, events).taken.len()
            + capacity + 1,
        run(start(), capacity, events).first.len() <= capacity,
        run(start(), capacity, events).second.len() <= capacity,
{
    lemma_run_conserves(capacity, events, f);
}

/// A cron stage and the queue below it, with every output that its
/// function gave.
pub ghost struct Head<A> {
    pub held: Option<A>,
    pub next: Seq<A>,
    pub emitted: Seq<A>,
}

/// A cron stage after the ticks, in front of a stage that has stalled and
/// takes nothing; `results` holds for each tick what the function gives
/// if the tick calls it.
pub open spec fn stalled<A>(capacity: nat, results: Seq<Result<A, String>>) -> Head<A>
    decreases results.len(),
{
    if results.len() == 0 {
        Head { held: None, next: Seq::empty(), emitted: Seq::empty() }
    } else {
        let before = stalled(capacity, results.drop_last());
        let after = cron_step(before.held, before.next, capacity, results.last());
        Head {
            held: after.held,
            next: after.next,
            emitted: if before.held is None && results.last() is Ok {
                before.emitted.push(results.last()->Ok_0)
            } else {
                before.emitted
            },
        }
    }
}

/// A stalled stage blocks the cron stage above it: after any number of
/// ticks the function has given at most `capacity + 1` outputs, all of
/// them in the queue or in hand; and once the queue is full and an output
/// is in hand, a tick calls the function no more and reports that it is
/// blocked.
pub proof fn lemma_stalled_blocks<A>(capacity: nat, results: Seq<Result<A, String>>)
    ensures
        stalled(capacity, results).emitted == stalled(capacity, results).next + in_hand(
            stalled(capacity, results).held,
        ),
        stalled(capacity, results).next.len() <= capacity,
        stalled(capacity, results).emitted.len() <= capacity + 1,
        stalled(capacity, results).held is Some ==> stalled(capacity, results).next.len()
            == capacity && forall|result: Result<A, String>|
            #[trigger] cron_step(
                stalled(capacity, results).held,
                stalled(capacity, results).next,
                capacity,
                result,
            ) == (crate::cron::CronStep {
                held: stalled(capacity, results).held,
                next: stalled(capacity, results).next,
                outcome: Ok(crate::cell::Hop::Blocked),
            }),
    decreases results.len(),
{
    let end = stalled(capacity, results);
    if results.len() == 0 {
        assert(end.emitted =~= end.next + in_hand(end.held));
    } else {
        lemma_stalled_blocks(capacity, results.drop_last());
        assert(end.emitted =~= end.next + in_hand(end.held));
    }
}

} // verus!
