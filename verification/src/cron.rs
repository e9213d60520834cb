//! The head of a pipeline: a stage without a source, which a scheduler
//! wakes.

use crate::cell::{emit, sent, CellError, Edge, Hop, KosmosCell, Lambda, SourceCell};
use std::time::Duration;
use vstd::prelude::*;

verus! {

/// A cron stage and its queue after a run, with the outcome of the run.
pub ghost struct CronStep<N> {
    pub held: Option<N>,
    pub next: Seq<N>,
    pub outcome: Result<Hop, CellError>,
}

/// One run of a linked cron stage. A held output is sent first and the
/// function is not called while it waits. Else `result` is what the
/// function gave: an output is sent or held, an error leaves all as it was.
pub open spec fn cron_step<N>(
    held: Option<N>,
    next: Seq<N>,
    capacity: nat,
    result: Result<N, String>,
) -> CronStep<N> {
    if held is Some {
        let (held_after, next_after) = emit(held, next, capacity);
        CronStep { held: held_after, next: next_after, outcome: Ok(sent(held_after)) }
    } else {
        match result {
            Ok(output) => {
                let (held_after, next_after) = emit(Some(output), next, capacity);
                CronStep { held: held_after, next: next_after, outcome: Ok(sent(held_after)) }
            },
            Err(text) => CronStep { held: None, next, outcome: Err(CellError::LambdaFailed(text)) },
        }
    }
}

/// A cron stage: on each tick it calls its function and sends the output
/// downstream. The scheduler says how long to sleep before a tick.
pub struct CronCell<Output, L, T> {
    next: bool,
    held: Option<Output>,
    lambda: L,
    scheduler: T,
}

impl<Output, L, T> CronCell<Output, L, T> {
    /// The function of the stage.
    pub closed spec fn lambda(&self) -> L {
        self.lambda
    }

    /// The scheduler of the stage.
    pub closed spec fn scheduler(&self) -> T {
        self.scheduler
    }

    /// The output that waits for room downstream.
    pub closed spec fn held(&self) -> Option<Output> {
        self.held
    }

    /// Whether the downstream side is linked.
    pub closed spec fn linked(&self) -> bool {
        self.next
    }
}

impl<Output, L: Lambda<(), Output>, T: Fn() -> Duration> CronCell<Output, L, T> {
    /// A stage with the function `lambda` and the scheduler `scheduler`,
    /// not yet linked.
    pub fn new(lambda: L, scheduler: T) -> (cell: CronCell<Output, L, T>)
        ensures
            cell.lambda() == lambda,
            cell.scheduler() == scheduler,
            cell.held() is None,
            !cell.linked(),
    {
        CronCell { next: false, held: None, lambda, scheduler }
    }

    /// How long to sleep before the next tick: what the scheduler says.
    pub fn delay(&self) -> (pause: Duration)
        requires
            call_requires(self.scheduler(), ()),
        ensures
            call_ensures(self.scheduler(), (), pause),
    {
        (self.scheduler)()
    }

    /// Runs the stage once: one tick.
    pub fn run(&mut self, next: &mut Edge<Output>) -> (r: Result<Hop, CellError>)
        requires
            call_requires(old(self).lambda(), ((),)),
        ensures
            final(self).lambda() == old(self).lambda(),
            final(self).scheduler() == old(self).scheduler(),
            final(self).linked() == old(self).linked(),
            final(next).capacity() == old(next).capacity(),
            final(next).is_closed() == old(next).is_closed(),
            match old(self).missing() {
                Some(e) => r == Err::<Hop, CellError>(e) && final(self).held() == old(self).held()
                    && final(next)@ == old(next)@,
                None => exists|result: Result<Output, String>|
                    (old(self).held() is None ==> call_ensures(old(self).lambda(), ((),), result))
                        && (
                    CronStep { held: final(self).held(), next: final(next)@, outcome: r })
                        == #[trigger] cron_step(
                        old(self).held(),
                        old(next)@,
                        old(next).capacity(),
                        result,
                    ),
            },
    {
        match self.check_set() {
            Ok(()) => {},
            Err(e) => { return Err(e); },
        }
        match self.held.take() {
            Some(item) => {
                let ghost before = cron_step::<Output>(
                    old(self).held(),
                    old(next)@,
                    old(next).capacity(),
                    arbitrary(),
                );
                match next.try_send(item) {
                    Ok(()) => {
                        assert(CronStep {
                            held: self.held(),
                            next: next@,
                            outcome: Ok(Hop::Forwarded),
                        } == before);
                        Ok(Hop::Forwarded)
                    },
                    Err(item) => {
                        self.held = Some(item);
                        assert(CronStep {
                            held: self.held(),
                            next: next@,
                            outcome: Ok(Hop::Blocked),
                        } == before);
                        Ok(Hop::Blocked)
                    },
                }
            },
            None => {
                let result = (self.lambda)(());
                let ghost after = cron_step::<Output>(
                    old(self).held(),
                    old(next)@,
                    old(next).capacity(),
                    result,
                );
                match result {
                    Ok(output) => match next.try_send(output) {
                        Ok(()) => {
                            assert(CronStep {
                                held: self.held(),
                                next: next@,
                                outcome: Ok(Hop::Forwarded),
                            } == after);
                            Ok(Hop::Forwarded)
                        },
                        Err(item) => {
                            self.held = Some(item);
                            assert(CronStep {
                                held: self.held(),
                                next: next@,
                                outcome: Ok(Hop::Blocked),
                            } == after);
                            Ok(Hop::Blocked)
                        },
                    },
                    Err(text) => {
                        assert(CronStep {
                            held: self.held(),
                            next: next@,
                            outcome: Err(CellError::LambdaFailed(text)),
                        } == after);
                        Err(CellError::LambdaFailed(text))
                    },
                }
            },
        }
    }
}

impl<Output, L, T> KosmosCell<(), Output> for CronCell<Output, L, T> {
    open spec fn missing(&self) -> Option<CellError> {
        if !self.linked() {
            Some(CellError::NextNotExist)
        } else {
            None
        }
    }

    fn check_set(&self) -> (r: Result<(), CellError>) {
        if !self.next {
            Err(CellError::NextNotExist)
        } else {
            Ok(())
        }
    }
}

impl<Output, L, T> SourceCell<Output> for CronCell<Output, L, T> {
    open spec fn has_next(&self) -> bool {
        self.linked()
    }

    open spec fn same_but_next(&self, other: &Self) -> bool {
        self.lambda() == other.lambda() && self.scheduler() == other.scheduler() && self.held()
            == other.held()
    }

    fn next_set(&self) -> (r: bool) {
        self.next
    }

    fn set_next(&mut self) -> (r: Result<(), CellError>) {
        if self.next {
            return Err(CellError::NextExist);
        }
        self.next = true;
        Ok(())
    }
}

} // verus!
