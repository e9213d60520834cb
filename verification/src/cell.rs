//! The pipeline fabric: stages joined by bounded queues.

use std::collections::VecDeque;
use std::marker::PhantomData;
use vstd::prelude::*;

verus! {

/// The number of items that the queue made by `link_to` holds at most.
pub const QUEUE_CAPACITY: usize = 42;

/// Why a stage could not be linked or run.
#[derive(Debug, PartialEq)]
pub enum CellError {
    SourceExist,
    NextExist,
    SourceNotExist,
    NextNotExist,
    /// The function of the stage failed; this is its text.
    LambdaFailed(String),
}

impl CellError {
    /// The text of the error.
    pub open spec fn spec_message(&self) -> Seq<char> {
        match *self {
            CellError::SourceExist => "Alreay has a source"@,
            CellError::NextExist => "Alreay has a next"@,
            CellError::SourceNotExist => "No source set"@,
            CellError::NextNotExist => "No next set"@,
            CellError::LambdaFailed(_) => "Lambda error"@,
        }
    }

    /// The text of the error.
    pub fn message(&self) -> (text: &'static str)
        ensures
            text@ == self.spec_message(),
    {
        match self {
            CellError::SourceExist => "Alreay has a source",
            CellError::NextExist => "Alreay has a next",
            CellError::SourceNotExist => "No source set",
            CellError::NextNotExist => "No next set",
            CellError::LambdaFailed(_) => "Lambda error",
        }
    }
}

/// What one run of a stage did.
#[derive(Clone, Copy, Debug, PartialEq, Eq, Structural)]
pub enum Hop {
    /// Nothing waited upstream.
    Idle,
    /// An output waits for room downstream.
    Blocked,
    /// An item went on: into the queue downstream, or into the sink.
    Forwarded,
    /// Nothing waited upstream and nothing more will come.
    Closed,
}

/// The function of a stage: it takes an `S` and gives an `N`, or the text
/// of an error. Every such closure and function is one.
pub trait Lambda<S, N>: Fn(S) -> Result<N, String> {
}

impl<S, N, F: Fn(S) -> Result<N, String>> Lambda<S, N> for F {
}

/// A bounded queue between two stages: what was sent first is received first.
pub struct Edge<T> {
    queue: VecDeque<T>,
    capacity: usize,
    closed: bool,
}

impl<T> Edge<T> {
    /// The items that wait in the queue, the oldest first.
    pub closed spec fn view(&self) -> Seq<T> {
        self.queue@
    }

    /// The number of items that the queue holds at most.
    pub closed spec fn capacity(&self) -> nat {
        self.capacity as nat
    }

    /// Whether the sending side has declared that nothing more will come.
    pub closed spec fn is_closed(&self) -> bool {
        self.closed
    }

    /// An empty queue that holds up to `capacity` items.
    pub fn new(capacity: usize) -> (edge: Edge<T>)
        ensures
            edge@ == Seq::<T>::empty(),
            edge.capacity() == capacity,
            !edge.is_closed(),
    {
        Edge { queue: VecDeque::new(), capacity, closed: false }
    }

    /// Appends `item` where there is room; hands it back where the queue
    /// is full.
    pub fn try_send(&mut self, item: T) -> (r: Result<(), T>)
        ensures
            final(self).capacity() == old(self).capacity(),
            final(self).is_closed() == old(self).is_closed(),
            if old(self)@.len() < old(self).capacity() {
                r is Ok && final(self)@ == old(self)@.push(item)
            } else {
                r == Err::<(), T>(item) && final(self)@ == old(self)@
            },
    {
        if self.queue.len() < self.capacity {
            self.queue.push_back(item);
            Ok(())
        } else {
            Err(item)
        }
    }

    /// Takes the oldest item, where there is one.
    pub fn try_recv(&mut self) -> (r: Option<T>)
        ensures
            final(self).capacity() == old(self).capacity(),
            final(self).is_closed() == old(self).is_closed(),
            match r {
                Some(item) => old(self)@.len() > 0
                    && item == old(self)@[0]
                    && final(self)@ == old(self)@.drop_first(),
                None => old(self)@.len() == 0 && final(self)@ == old(self)@,
            },
    {
        self.queue.pop_front()
    }

    /// Declares that nothing more will be sent.
    pub fn close(&mut self)
        ensures
            final(self)@ == old(self)@,
            final(self).capacity() == old(self).capacity(),
            final(self).is_closed(),
    {
        self.closed = true;
    }

    /// Whether the sending side has declared that nothing more will come.
    pub fn closed(&self) -> (r: bool)
        ensures
            r == self.is_closed(),
    {
        self.closed
    }

    /// The number of items that wait.
    pub fn len(&self) -> (n: usize)
        ensures
            n == self@.len(),
    {
        self.queue.len()
    }
}

/// What the sending side of a stage does with an output that it holds:
/// the output goes into the queue where there is room, and stays held
/// where there is none.
pub open spec fn emit<N>(held: Option<N>, next: Seq<N>, capacity: nat) -> (Option<N>, Seq<N>) {
    match held {
        Some(item) => if next.len() < capacity {
            (None, next.push(item))
        } else {
            (held, next)
        },
        None => (None, next),
    }
}

/// Whether a run that ends with `held` moved an item on or waits for room.
pub open spec fn sent<N>(held: Option<N>) -> Hop {
    if held is None {
        Hop::Forwarded
    } else {
        Hop::Blocked
    }
}

/// `result` is something that the function may give for the oldest item
/// of `source`, where there is one.
pub open spec fn gave<S, N, L: Fn(S) -> Result<N, String>>(
    lambda: L,
    source: Seq<S>,
    result: Result<N, String>,
) -> bool {
    source.len() > 0 ==> call_ensures(lambda, (source[0],), result)
}

/// A map stage and its two queues after a run, with the outcome of the run.
pub ghost struct CellStep<S, N> {
    pub source: Seq<S>,
    pub held: Option<N>,
    pub next: Seq<N>,
    pub outcome: Result<Hop, CellError>,
}

/// One run of a linked map stage. A held output is sent first and nothing
/// is received while it waits. Else the oldest input is taken and `result`
/// is what the function gave for it: an output is sent or held, an error
/// drops the input.
pub open spec fn cell_step<S, N>(
    source: Seq<S>,
    closed: bool,
    held: Option<N>,
    next: Seq<N>,
    capacity: nat,
    result: Result<N, String>,
) -> CellStep<S, N> {
    if held is Some {
        let (held_after, next_after) = emit(held, next, capacity);
        CellStep { source, held: held_after, next: next_after, outcome: Ok(sent(held_after)) }
    } else if source.len() == 0 {
        CellStep {
            source,
            held,
            next,
            outcome: Ok(
                if closed {
                    Hop::Closed
                } else {
                    Hop::Idle
                },
            ),
        }
    } else {
        match result {
            Ok(output) => {
                let (held_after, next_after) = emit(Some(output), next, capacity);
                CellStep {
                    source: source.drop_first(),
                    held: held_after,
                    next: next_after,
                    outcome: Ok(sent(held_after)),
                }
            },
            Err(text) => CellStep {
                source: source.drop_first(),
                held: None,
                next,
                outcome: Err(CellError::LambdaFailed(text)),
            },
        }
    }
}

/// A tail stage's queue after a run, with the outcome of the run.
pub ghost struct TailStep<S> {
    pub source: Seq<S>,
    pub outcome: Result<Hop, CellError>,
}

/// One run of a linked tail stage: the oldest input is taken and `result`
/// is what the function gave for it.
pub open spec fn tail_step<S>(source: Seq<S>, closed: bool, result: Result<(), String>) -> TailStep<
    S,
> {
    if source.len() == 0 {
        TailStep {
            source,
            outcome: Ok(
                if closed {
                    Hop::Closed
                } else {
                    Hop::Idle
                },
            ),
        }
    } else {
        TailStep {
            source: source.drop_first(),
            outcome: match result {
                Ok(()) => Ok(Hop::Forwarded),
                Err(text) => Err(CellError::LambdaFailed(text)),
            },
        }
    }
}

/// What the loop of a stage does after a run.
#[derive(Clone, Copy, Debug, PartialEq, Eq, Structural)]
pub enum Turn {
    /// Run again at once.
    Again,
    /// Wait for an item or for room, then run again.
    Wait,
    /// Leave the loop.
    Stop,
}

/// What the loop of a stage does after a run with the given outcome. An
/// error of the function is no reason to stop: the loop runs again. A
/// stage with a side that is not linked stops, and so does one whose
/// source is closed and empty.
pub open spec fn turn_after(outcome: Result<Hop, CellError>) -> Turn {
    match outcome {
        Ok(Hop::Forwarded) => Turn::Again,
        Ok(Hop::Idle) => Turn::Wait,
        Ok(Hop::Blocked) => Turn::Wait,
        Ok(Hop::Closed) => Turn::Stop,
        Err(CellError::LambdaFailed(_)) => Turn::Again,
        Err(_) => Turn::Stop,
    }
}

/// What the loop of a stage does after a run with the given outcome.
pub fn spawn_loop(outcome: &Result<Hop, CellError>) -> (turn: Turn)
    ensures
        turn == turn_after(*outcome),
{
    match outcome {
        Ok(Hop::Forwarded) => Turn::Again,
        Ok(Hop::Idle) => Turn::Wait,
        Ok(Hop::Blocked) => Turn::Wait,
        Ok(Hop::Closed) => Turn::Stop,
        Err(CellError::LambdaFailed(_)) => Turn::Again,
        Err(_) => Turn::Stop,
    }
}

/// A stage of a pipeline.
pub trait KosmosCell<S, N> {
    /// The error that keeps the stage from running, where a side that it
    /// needs is not linked.
    spec fn missing(&self) -> Option<CellError>;

    /// Checks that every side that the stage needs is linked.
    fn check_set(&self) -> (r: Result<(), CellError>)
        ensures
            match self.missing() {
                Some(e) => r == Err::<(), CellError>(e),
                None => r is Ok,
            },
    ;
}

/// A stage that can stand downstream of a queue of `S`.
pub trait NextCell<S>: Sized {
    /// Whether the upstream side is linked.
    spec fn has_source(&self) -> bool;

    /// The two are one stage but for whether the upstream side is linked.
    spec fn same_but_source(&self, other: &Self) -> bool;

    /// Whether the upstream side is linked.
    fn source_set(&self) -> (r: bool)
        ensures
            r == self.has_source(),
    ;

    /// Marks the upstream side as linked; an error where it is already.
    fn set_source(&mut self) -> (r: Result<(), CellError>)
        ensures
            match r {
                Ok(()) => !old(self).has_source()
                    && final(self).has_source()
                    && final(self).same_but_source(old(self)),
                Err(e) => old(self).has_source() && e == CellError::SourceExist && *final(self)
                    == *old(self),
            },
    ;
}

/// A stage that can stand upstream of a queue of `N`.
pub trait SourceCell<N>: Sized {
    /// Whether the downstream side is linked.
    spec fn has_next(&self) -> bool;

    /// The two are one stage but for whether the downstream side is linked.
    spec fn same_but_next(&self, other: &Self) -> bool;

    /// Whether the downstream side is linked.
    fn next_set(&self) -> (r: bool)
        ensures
            r == self.has_next(),
    ;

    /// Marks the downstream side as linked; an error where it is already.
    fn set_next(&mut self) -> (r: Result<(), CellError>)
        ensures
            match r {
                Ok(()) => !old(self).has_next()
                    && final(self).has_next()
                    && final(self).same_but_next(old(self)),
                Err(e) => old(self).has_next() && e == CellError::NextExist && *final(self)
                    == *old(self),
            },
    ;

    /// Links this stage to `other` and gives the queue between them. Both
    /// sides are looked at before either is marked: where this stage
    /// already has a next, or `other` already has a source, that is an
    /// error and both stages are as they were.
    fn link_to<D: NextCell<N>>(&mut self, other: &mut D) -> (r: Result<Edge<N>, CellError>)
        ensures
            match r {
                Ok(edge) => !old(self).has_next()
                    && !old(other).has_source()
                    && final(self).has_next()
                    && final(self).same_but_next(old(self))
                    && final(other).has_source()
                    && final(other).same_but_source(old(other))
                    && edge@ == Seq::<N>::empty()
                    && edge.capacity() == QUEUE_CAPACITY
                    && !edge.is_closed(),
                Err(e) => *final(self) == *old(self) && *final(other) == *old(other) && if old(self).has_next() {
                    e == CellError::NextExist
                } else {
                    e == CellError::SourceExist && old(other).has_source()
                },
            },
    {
        if self.next_set() {
            return Err(CellError::NextExist);
        }
        if other.source_set() {
            return Err(CellError::SourceExist);
        }
        match self.set_next() {
            Ok(()) => {},
            Err(e) => { return Err(e); },
        }
        match other.set_source() {
            Ok(()) => {},
            Err(e) => { return Err(e); },
        }
        Ok(Edge::new(QUEUE_CAPACITY))
    }
}

/// A map stage: it takes an `S` from upstream, applies its function and
/// sends the `N` downstream.
pub struct Cell<S, N, L> {
    source: bool,
    next: bool,
    held: Option<N>,
    lambda: L,
    input: PhantomData<S>,
}

impl<S, N, L> Cell<S, N, L> {
    /// The function of the stage.
    pub closed spec fn lambda(&self) -> L {
        self.lambda
    }

    /// The output that waits for room downstream.
    pub closed spec fn held(&self) -> Option<N> {
        self.held
    }

    /// Whether the two sides are linked, upstream first.
    pub closed spec fn links(&self) -> (bool, bool) {
        (self.source, self.next)
    }
}

impl<S, N, L: Lambda<S, N>> Cell<S, N, L> {
    /// A stage with the function `lambda`, linked on neither side.
    pub fn new(lambda: L) -> (cell: Cell<S, N, L>)
        ensures
            cell.lambda() == lambda,
            cell.held() is None,
            cell.links() == (false, false),
    {
        Cell { source: false, next: false, held: None, lambda, input: PhantomData }
    }

    /// Runs the stage once on its two queues.
    pub fn run(&mut self, source: &mut Edge<S>, next: &mut Edge<N>) -> (r: Result<Hop, CellError>)
        requires
            forall|input: S| call_requires(old(self).lambda(), (input,)),
        ensures
            final(self).lambda() == old(self).lambda(),
            final(self).links() == old(self).links(),
            final(source).capacity() == old(source).capacity(),
            final(source).is_closed() == old(source).is_closed(),
            final(next).capacity() == old(next).capacity(),
            final(next).is_closed() == old(next).is_closed(),
            match old(self).missing() {
                Some(e) => r == Err::<Hop, CellError>(e) && final(self).held() == old(self).held()
                    && final(source)@ == old(source)@ && final(next)@ == old(next)@,
                None => exists|result: Result<N, String>|
                    (old(self).held() is None ==> gave(old(self).lambda(), old(source)@, result))
                        && (CellStep {
                        source: final(source)@,
                        held: final(self).held(),
                        next: final(next)@,
                        outcome: r,
                    }) == #[trigger] cell_step(
                        old(source)@,
                        old(source).is_closed(),
                        old(self).held(),
                        old(next)@,
                        old(next).capacity(),
                        result,
                    ),
            },
    {
        match self.check_set() {
            Ok(()) => {},
            Err(e) => { return Err(e); },
        }
        let ghost before = cell_step::<S, N>(
            old(source)@,
            old(source).is_closed(),
            old(self).held(),
            old(next)@,
            old(next).capacity(),
            arbitrary(),
        );
        match self.held.take() {
            Some(item) => match next.try_send(item) {
                Ok(()) => {
                    assert(CellStep {
                        source: source@,
                        held: self.held(),
                        next: next@,
                        outcome: Ok(Hop::Forwarded),
                    } == before);
                    Ok(Hop::Forwarded)
                },
                Err(item) => {
                    self.held = Some(item);
                    assert(CellStep {
                        source: source@,
                        held: self.held(),
                        next: next@,
                        outcome: Ok(Hop::Blocked),
                    } == before);
                    Ok(Hop::Blocked)
                },
            },
            None => match source.try_recv() {
                None => {
                    let hop = if source.closed() {
                        Hop::Closed
                    } else {
                        Hop::Idle
                    };
                    assert(CellStep {
                        source: source@,
                        held: self.held(),
                        next: next@,
                        outcome: Ok(hop),
                    } == before);
                    Ok(hop)
                },
                Some(input) => {
                    assert(call_requires(old(self).lambda(), (input,)));
                    let result = (self.lambda)(input);
                    let ghost after = cell_step::<S, N>(
                        old(source)@,
                        old(source).is_closed(),
                        old(self).held(),
                        old(next)@,
                        old(next).capacity(),
                        result,
                    );
                    match result {
                        Ok(output) => match next.try_send(output) {
                            Ok(()) => {
                                assert(CellStep {
                                    source: source@,
                                    held: self.held(),
                                    next: next@,
                                    outcome: Ok(Hop::Forwarded),
                                } == after);
                                Ok(Hop::Forwarded)
                            },
                            Err(item) => {
                                self.held = Some(item);
                                assert(CellStep {
                                    source: source@,
                                    held: self.held(),
                                    next: next@,
                                    outcome: Ok(Hop::Blocked),
                                } == after);
                                Ok(Hop::Blocked)
                            },
                        },
                        Err(text) => {
                            assert(CellStep {
                                source: source@,
                                held: self.held(),
                                next: next@,
                                outcome: Err(CellError::LambdaFailed(text)),
                            } == after);
                            Err(CellError::LambdaFailed(text))
                        },
                    }
                },
            },
        }
    }
}

impl<S, N, L> KosmosCell<S, N> for Cell<S, N, L> {
    open spec fn missing(&self) -> Option<CellError> {
        if !self.links().0 {
            Some(CellError::SourceNotExist)
        } else if !self.links().1 {
            Some(CellError::NextNotExist)
        } else {
            None
        }
    }

    fn check_set(&self) -> (r: Result<(), CellError>) {
        if !self.source {
            Err(CellError::SourceNotExist)
        } else if !self.next {
            Err(CellError::NextNotExist)
        } else {
            Ok(())
        }
    }
}

impl<S, N, L> SourceCell<N> for Cell<S, N, L> {
    open spec fn has_next(&self) -> bool {
        self.links().1
    }

    open spec fn same_but_next(&self, other: &Self) -> bool {
        self.lambda() == other.lambda() && self.held() == other.held() && self.links().0
            == other.links().0
    }

    fn next_set(&self) -> (r: bool) {
        self.next
    }

    fn set_next(&mut self) -> (r: Result<(), CellError>) {
        if self.next {
            return Err(CellError::NextExist);
        }
        self.next = true;
        Ok(())
    }
}

impl<S, N, L> NextCell<S> for Cell<S, N, L> {
    open spec fn has_source(&self) -> bool {
        self.links().0
    }

    open spec fn same_but_source(&self, other: &Self) -> bool {
        self.lambda() == other.lambda() && self.held() == other.held() && self.links().1
            == other.links().1
    }

    fn source_set(&self) -> (r: bool) {
        self.source
    }

    fn set_source(&mut self) -> (r: Result<(), CellError>) {
        if self.source {
            return Err(CellError::SourceExist);
        }
        self.source = true;
        Ok(())
    }
}

/// A tail stage: it takes an `S` from upstream and hands it to its
/// function, which keeps nothing for a stage downstream.
pub struct TailCell<S, L> {
    source: bool,
    lambda: L,
    input: PhantomData<S>,
}

impl<S, L> TailCell<S, L> {
    /// The function of the stage.
    pub closed spec fn lambda(&self) -> L {
        self.lambda
    }

    /// Whether the upstream side is linked.
    pub closed spec fn linked(&self) -> bool {
        self.source
    }
}

impl<S, L: Lambda<S, ()>> TailCell<S, L> {
    /// A stage with the function `lambda`, not yet linked.
    pub fn new(lambda: L) -> (cell: TailCell<S, L>)
        ensures
            cell.lambda() == lambda,
            !cell.linked(),
    {
        TailCell { source: false, lambda, input: PhantomData }
    }

    /// Runs the stage once on its queue.
    pub fn run(&mut self, source: &mut Edge<S>) -> (r: Result<Hop, CellError>)
        requires
            forall|input: S| call_requires(old(self).lambda(), (input,)),
        ensures
            *final(self) == *old(self),
            final(source).capacity() == old(source).capacity(),
            final(source).is_closed() == old(source).is_closed(),
            match old(self).missing() {
                Some(e) => r == Err::<Hop, CellError>(e) && final(source)@ == old(source)@,
                None => exists|result: Result<(), String>|
                    gave(old(self).lambda(), old(source)@, result) && (TailStep {
                        source: final(source)@,
                        outcome: r,
                    }) == #[trigger] tail_step(
                        old(source)@,
                        old(source).is_closed(),
                        result,
                    ),
            },
    {
        match self.check_set() {
            Ok(()) => {},
            Err(e) => { return Err(e); },
        }
        match source.try_recv() {
            None => {
                let hop = if source.closed() {
                    Hop::Closed
                } else {
                    Hop::Idle
                };
                assert(TailStep { source: source@, outcome: Ok(hop) } == tail_step(
                    old(source)@,
                    old(source).is_closed(),
                    arbitrary(),
                ));
                Ok(hop)
            },
            Some(input) => {
                assert(call_requires(old(self).lambda(), (input,)));
                let result = (self.lambda)(input);
                let r = match result {
                    Ok(()) => Ok(Hop::Forwarded),
                    Err(text) => Err(CellError::LambdaFailed(text)),
                };
                assert(TailStep { source: source@, outcome: r } == tail_step(
                    old(source)@,
                    old(source).is_closed(),
                    result,
                ));
                r
            },
        }
    }
}

impl<S, L> KosmosCell<S, ()> for TailCell<S, L> {
    open spec fn missing(&self) -> Option<CellError> {
        if !self.linked() {
            Some(CellError::SourceNotExist)
        } else {
            None
        }
    }

    fn check_set(&self) -> (r: Result<(), CellError>) {
        if !self.source {
            Err(CellError::SourceNotExist)
        } else {
            Ok(())
        }
    }
}

impl<S, L> NextCell<S> for TailCell<S, L> {
    open spec fn has_source(&self) -> bool {
        self.linked()
    }

    open spec fn same_but_source(&self, other: &Self) -> bool {
        self.lambda() == other.lambda()
    }

    fn source_set(&self) -> (r: bool) {
        self.source
    }

    fn set_source(&mut self) -> (r: Result<(), CellError>) {
        if self.source {
            return Err(CellError::SourceExist);
        }
        self.source = true;
        Ok(())
    }
}

} // verus!
