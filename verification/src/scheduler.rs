//! The scheduler: one state machine per source, each on its own timer.
//!
//! A source is idle or running. A tick starts a cycle on an idle source;
//! the end of the cycle, however it ended, makes the source idle again. The
//! machines share nothing: an event for one source never touches another.

use vstd::prelude::*;
use crate::cycle::{CycleOutcome, CycleOutcomeView};

verus! {

/// Where the schedule of one source stands.
#[derive(Clone, Copy, Debug, PartialEq, Eq, Structural)]
pub enum SourceState {
    /// Waiting for the next tick.
    Idle,
    /// A cycle is under way.
    Running,
}

/// What happened to one source.
#[derive(Clone, Copy, Debug, PartialEq, Eq, Structural)]
pub enum SchedulerEvent {
    /// The timer of the source fired.
    Tick,
    /// The cycle of the source ended with a write that went through.
    CycleSucceeded,
    /// The cycle of the source ended with a failed fetch or a refusing store.
    CycleFailed,
}

/// What the runner of a source is to do next.
#[derive(Clone, Copy, Debug, PartialEq, Eq, Structural)]
pub enum SchedulerAction {
    /// Run one fetch cycle for the source.
    StartCycle,
    /// Report the success, then wait for the next tick.
    ReportSuccess,
    /// Report the failure, then wait for the next tick.
    ReportFailure,
    /// Nothing: the event did not belong here.
    Nothing,
}

/// The state of a source after `event`, and what its runner is to do.
///
/// A tick on a running source starts nothing, so the cycles of one source
/// never overlap. The end of a cycle leads back to idle whether it succeeded
/// or failed.
pub open spec fn source_step(state: SourceState, event: SchedulerEvent) -> (
    SourceState,
    SchedulerAction,
) {
    match (state, event) {
        (SourceState::Idle, SchedulerEvent::Tick) => (
            SourceState::Running,
            SchedulerAction::StartCycle,
        ),
        (SourceState::Running, SchedulerEvent::CycleSucceeded) => (
            SourceState::Idle,
            SchedulerAction::ReportSuccess,
        ),
        (SourceState::Running, SchedulerEvent::CycleFailed) => (
            SourceState::Idle,
            SchedulerAction::ReportFailure,
        ),
        _ => (state, SchedulerAction::Nothing),
    }
}

/// The event that the end of a cycle is to the scheduler: a failure is never
/// taken for a cycle that found nothing new.
pub open spec fn event_of(outcome: CycleOutcomeView) -> SchedulerEvent {
    match outcome {
        CycleOutcomeView::Persisted(_) => SchedulerEvent::CycleSucceeded,
        CycleOutcomeView::FetchFailed(_) => SchedulerEvent::CycleFailed,
        CycleOutcomeView::StoreFailed(_) => SchedulerEvent::CycleFailed,
    }
}

/// The states of all sources after `event` came for the source `source`.
/// An event for a source that does not exist changes nothing.
pub open spec fn dispatch_states(
    states: Seq<SourceState>,
    source: int,
    event: SchedulerEvent,
) -> Seq<SourceState> {
    if 0 <= source < states.len() {
        states.update(source, source_step(states[source], event).0)
    } else {
        states
    }
}

/// What the runner of `source` is to do after `event` came for it.
pub open spec fn dispatch_action(
    states: Seq<SourceState>,
    source: int,
    event: SchedulerEvent,
) -> SchedulerAction {
    if 0 <= source < states.len() {
        source_step(states[source], event).1
    } else {
        SchedulerAction::Nothing
    }
}

/// The states of all sources after the events `events` came, each for the
/// source it names, in order.
pub open spec fn dispatch_all(
    states: Seq<SourceState>,
    events: Seq<(int, SchedulerEvent)>,
) -> Seq<SourceState>
    decreases events.len(),
{
    if events.len() == 0 {
        states
    } else {
        dispatch_states(
            dispatch_all(states, events.drop_last()),
            events.last().0,
            events.last().1,
        )
    }
}

/// The events of `events` that came for `source`, in order.
pub open spec fn events_for(events: Seq<(int, SchedulerEvent)>, source: int) -> Seq<
    SchedulerEvent,
>
    decreases events.len(),
{
    if events.len() == 0 {
        Seq::empty()
    } else if events.last().0 == source {
        events_for(events.drop_last(), source).push(events.last().1)
    } else {
        events_for(events.drop_last(), source)
    }
}

/// The state of one source after `events` came for it, in order.
pub open spec fn source_run(state: SourceState, events: Seq<SchedulerEvent>) -> SourceState
    decreases events.len(),
{
    if events.len() == 0 {
        state
    } else {
        source_step(source_run(state, events.drop_last()), events.last()).0
    }
}

/// Maps the end of a cycle to the event it is to the scheduler.
pub fn event_for(outcome: &CycleOutcome) -> (event: SchedulerEvent)
    ensures
        event == event_of(outcome@),
{
    match outcome {
        CycleOutcome::Persisted(_) => SchedulerEvent::CycleSucceeded,
        CycleOutcome::FetchFailed(_) => SchedulerEvent::CycleFailed,
        CycleOutcome::StoreFailed(_) => SchedulerEvent::CycleFailed,
    }
}

/// Takes one event for one source: its next state and what to do.
pub fn step(state: SourceState, event: SchedulerEvent) -> (r: (SourceState, SchedulerAction))
    ensures
        r == source_step(state, event),
{
    match (state, event) {
        (SourceState::Idle, SchedulerEvent::Tick) => (
            SourceState::Running,
            SchedulerAction::StartCycle,
        ),
        (SourceState::Running, SchedulerEvent::CycleSucceeded) => (
            SourceState::Idle,
            SchedulerAction::ReportSuccess,
        ),
        (SourceState::Running, SchedulerEvent::CycleFailed) => (
            SourceState::Idle,
            SchedulerAction::ReportFailure,
        ),
        _ => (state, SchedulerAction::Nothing),
    }
}

/// The schedules of several sources, side by side.
#[derive(Debug)]
pub struct Scheduler {
    states: Vec<SourceState>,
}

impl View for Scheduler {
    type V = Seq<SourceState>;

    closed spec fn view(&self) -> Seq<SourceState> {
        self.states@
    }
}

impl Scheduler {
    /// A scheduler without sources.
    pub fn new() -> (s: Scheduler)
        ensures
            s@ == Seq::<SourceState>::empty(),
    {
        Scheduler { states: Vec::new() }
    }

    /// Adds a source, idle, and returns the number it goes by.
    pub fn add_source(&mut self) -> (source: usize)
        ensures
            source == old(self)@.len(),
            final(self)@ == old(self)@.push(SourceState::Idle),
    {
        let source = self.states.len();
        self.states.push(SourceState::Idle);
        source
    }

    /// The number of sources.
    pub fn len(&self) -> (n: usize)
        ensures
            n == self@.len(),
    {
        self.states.len()
    }

    /// The state of `source`, or `None` if there is no such source.
    pub fn state(&self, source: usize) -> (r: Option<SourceState>)
        ensures
            r == if source < self@.len() {
                Some(self@[source as int])
            } else {
                None
            },
    {
        if source < self.states.len() {
            Some(self.states[source])
        } else {
            None
        }
    }

    /// Takes `event` for `source` and says what the runner of that source is
    /// to do. No other source is touched.
    pub fn dispatch(&mut self, source: usize, event: SchedulerEvent) -> (action: SchedulerAction)
        ensures
            final(self)@ == dispatch_states(old(self)@, source as int, event),
            action == dispatch_action(old(self)@, source as int, event),
    {
        if source < self.states.len() {
            let (next, action) = step(self.states[source], event);
            self.states.set(source, next);
            action
        } else {
            SchedulerAction::Nothing
        }
    }
}

/// A source always comes back to idle at the end of its cycle, and an idle
/// source always starts a cycle at its tick.
pub proof fn lemma_cycle_then_tick(state: SourceState, ended: SchedulerEvent)
    requires
        state == SourceState::Running,
        ended != SchedulerEvent::Tick,
    ensures
        source_step(state, ended).0 == SourceState::Idle,
        source_step(source_step(state, ended).0, SchedulerEvent::Tick) == (
            SourceState::Running,
            SchedulerAction::StartCycle,
        ),
{
}

/// Failure isolation: where a source stands depends on the events that came
/// for it alone. Whatever came for the others, in whatever order, failures
/// among them, its state is what its own events make it.
pub proof fn lemma_sources_are_isolated(
    states: Seq<SourceState>,
    events: Seq<(int, SchedulerEvent)>,
    source: int,
)
    requires
        0 <= source < states.len(),
    ensures
        dispatch_all(states, events).len() == states.len(),
        dispatch_all(states, events)[source] == source_run(
            states[source],
            events_for(events, source),
        ),
    decreases events.len(),
{
    if events.len() > 0 {
        lemma_sources_are_isolated(states, events.drop_last(), source);
        if events.last().0 == source {
            let own = events_for(events.drop_last(), source);
            assert(own.push(events.last().1).drop_last() =~= own);
        }
    }
}

/// A source whose fetch failed does not hold up another: if no event came
/// for an idle source in the meantime, its next tick starts its cycle.
pub proof fn lemma_failure_does_not_block(
    states: Seq<SourceState>,
    events: Seq<(int, SchedulerEvent)>,
    source: int,
)
    requires
        0 <= source < states.len(),
        states[source] == SourceState::Idle,
        forall|k: int| 0 <= k < events.len() ==> (#[trigger] events[k]).0 != source,
    ensures
        dispatch_action(dispatch_all(states, events), source, SchedulerEvent::Tick)
            == SchedulerAction::StartCycle,
{
    lemma_sources_are_isolated(states, events, source);
    lemma_no_events_for(events, source);
}

/// Events that all name other sources hold none for `source`.
proof fn lemma_no_events_for(events: Seq<(int, SchedulerEvent)>, source: int)
    requires
        forall|k: int| 0 <= k < events.len() ==> (#[trigger] events[k]).0 != source,
    ensures
        events_for(events, source).len() == 0,
    decreases events.len(),
{
    if events.len() > 0 {
        assert(events[events.len() - 1].0 != source);
        assert forall|k: int| 0 <= k < events.drop_last().len() implies (
        #[trigger] events.drop_last()[k]).0 != source by {
            assert(events.drop_last()[k] == events[k]);
        }
        lemma_no_events_for(events.drop_last(), source);
    }
}

} // verus!
