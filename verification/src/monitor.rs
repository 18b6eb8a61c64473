//! The monitor: one tracing backend, the bounds of the target's code, the
//! branches seen so far and the running maximum, driven one event at a time.
//!
//! The monitor itself touches nothing outside the process.  Its caller binds
//! the socket, runs the helper and the target, and reads the clock; it tells
//! the monitor what happened, and the monitor answers with what to do next.
//! A target is only ever started from the listening phase, and no second
//! buffer is accepted before the first trace has come back, so at most one
//! execution is in flight.

use crate::backend::{MonitoringTool, Trace, TraceView};
use crate::metrics::{elapsed, RunMetrics};
use crate::myperf::{
    hits_in, lemma_hits_never_fall, lemma_merged_grows, lemma_occurrences, merged, novelty,
    BTSBranch, BranchStore,
};
use crate::outcome::TraceError;
use crate::section::{parse_section_bounds, section_bounds, BoundsError, SectionBounds};
use vstd::prelude::*;

verus! {

/// Why the monitor could not start.
#[derive(Clone, Copy, Debug, PartialEq, Eq, Structural)]
pub enum StartupError {
    /// The inbound socket could not be bound.
    Socket,
    /// The helper that reports the section's bounds could not be run, or
    /// reported failure.
    Helper,
    /// The helper's output does not describe a section.
    Bounds(BoundsError),
}

/// Where the monitor stands.
#[derive(Clone, Copy, Debug, PartialEq, Eq, Structural)]
pub enum Phase {
    /// Made, and waiting for the inbound socket to be bound.
    Starting,
    /// Waiting for the helper to report the bounds of the target's code.
    ResolvingBounds,
    /// Idle, and waiting for the next buffer.
    Listening,
    /// Waiting for the trace of the one buffer that is being run.
    Tracing,
    /// Startup failed; nothing more will be done.
    Failed(StartupError),
}

/// What happened outside the monitor.
#[derive(Debug)]
pub enum Event {
    /// The inbound socket is bound.
    SocketBound,
    /// The inbound socket could not be bound.
    SocketFailed,
    /// The helper ran and printed this.
    HelperOutput(Vec<u8>),
    /// The helper could not be run, or reported failure.
    HelperFailed,
    /// A buffer arrived on the socket.
    BufferReceived,
    /// The target has run to its end under the backend.
    TraceFinished {
        /// The raw trace that the backend left.
        output: Vec<u8>,
        /// How long the run took, in milliseconds.
        elapsed: u64,
        /// The time at which it ended, in milliseconds on the clock that
        /// the monitor was started on.
        now: u64,
    },
    /// The target could not be run, or its trace could not be read.
    TraceFailed(TraceError),
}

/// What one request came to.
#[derive(Clone, Copy, Debug, PartialEq, Eq, Structural)]
pub struct RunResult {
    /// The coverage after the run: the number of distinct branches seen so
    /// far, or the run's own count for a backend that yields no edges.
    pub coverage_count: u64,
    /// How many branches the run added, for a backend that yields edges.
    pub new_edges: Option<u64>,
    /// How long the run took, in milliseconds.
    pub elapsed: u64,
    /// Whether the coverage is above everything before it.
    pub is_new_max: bool,
    /// The largest coverage so far, this run included.
    pub running_max: u64,
    /// The time since the largest coverage last rose, in milliseconds.
    pub time_since_max: u64,
}

/// What the caller is to do next.
#[derive(Clone, Copy, Debug, PartialEq, Eq, Structural)]
pub enum Action {
    /// Run the helper on the target and hand in what it printed.
    ResolveBounds,
    /// Wait for the next buffer.
    Receive,
    /// Run the target on the buffer that arrived and hand in its trace.
    RunTarget,
    /// Log the result of the request, then wait for the next buffer.
    Report(RunResult),
    /// Log that the request yielded no coverage, then wait for the next
    /// buffer.
    Discard(TraceError),
    /// Give up: startup failed.
    Abort(StartupError),
    /// The event does not belong to the phase; nothing has changed.
    Rejected,
}

/// What a trace adds to what is known.
pub struct Traced {
    /// The branches known after the run, with their hits.
    pub known: Map<BTSBranch, nat>,
    /// The coverage after the run.
    pub coverage: nat,
    /// How many branches the run added, for a backend that yields edges.
    pub new: Option<nat>,
}

/// What the edges of one run add: those that touch the section are merged,
/// and the coverage is the number of distinct branches known after that.
pub open spec fn covered(known: Map<BTSBranch, nat>, edges: Seq<BTSBranch>, bounds: SectionBounds) -> Traced {
    let kept = edges.filter(|branch: BTSBranch| bounds.spec_touches(branch));
    Traced {
        known: merged(known, kept),
        coverage: merged(known, kept).dom().len(),
        new: Some(novelty(known, kept)),
    }
}

/// What the raw trace `output` of a run under `tool` adds to `known`, or why
/// it adds nothing.  A bare count is the coverage as it stands and leaves
/// what is known alone.
pub open spec fn traced(
    tool: MonitoringTool,
    known: Map<BTSBranch, nat>,
    output: Seq<u8>,
    bounds: SectionBounds,
) -> Result<Traced, TraceError> {
    match tool.decoded(output) {
        Ok(TraceView::Edges(edges)) => Ok(covered(known, edges, bounds)),
        Ok(TraceView::Count(count)) => Ok(Traced { known, coverage: count as nat, new: None }),
        Err(e) => Err(e),
    }
}

/// All that a monitor's next step depends on.
pub struct MonitorState {
    /// Where the monitor stands.
    pub phase: Phase,
    /// The backend it was made for.
    pub tool: MonitoringTool,
    /// The bounds of the target's code, once the helper has reported them.
    pub bounds: Option<SectionBounds>,
    /// The branches seen so far, with their hits.
    pub known: Map<BTSBranch, nat>,
    /// The running maximum and the time it last rose.
    pub metrics: RunMetrics,
}

impl MonitorState {
    /// The same state in another phase.
    pub open spec fn at(self, phase: Phase) -> MonitorState {
        MonitorState { phase, ..self }
    }

    /// What holds of every state that a monitor reaches: finitely many
    /// branches are known, each with at least one hit and no more than a
    /// counter holds, and the bounds are known exactly when the monitor
    /// listens or traces, and are those of a section.
    pub open spec fn valid(self) -> bool {
        &&& self.known.dom().finite()
        &&& forall|branch: BTSBranch| #[trigger]
            self.known.contains_key(branch) ==> 1 <= self.known[branch] <= u64::MAX
        &&& self.phase is Listening || self.phase is Tracing <==> self.bounds is Some
        &&& self.bounds matches Some(bounds) ==> bounds.wf()
    }
}

/// The state after a trace has come back, and what to do about it.  A trace
/// that adds coverage moves the running maximum and is reported; a trace that
/// cannot be read changes nothing and is dropped.  Either way the monitor
/// listens again.
pub open spec fn finish(state: MonitorState, output: Seq<u8>, took: u64, now: u64) -> (
    MonitorState,
    Action,
) {
    match traced(state.tool, state.known, output, state.bounds->0) {
        Ok(run) => {
            let coverage = run.coverage as u64;
            let is_new_max = coverage > state.metrics.running_max;
            let metrics = if is_new_max {
                RunMetrics { running_max: coverage, last_improved_at: now }
            } else {
                state.metrics
            };
            (
                MonitorState { phase: Phase::Listening, known: run.known, metrics, ..state },
                Action::Report(
                    RunResult {
                        coverage_count: coverage,
                        new_edges: match run.new {
                            Some(new) => Some(new as u64),
                            None => None,
                        },
                        elapsed: took,
                        is_new_max,
                        running_max: metrics.running_max,
                        time_since_max: elapsed(metrics.last_improved_at, now),
                    },
                ),
            )
        },
        Err(e) => (state.at(Phase::Listening), Action::Discard(e)),
    }
}

/// The monitor's transition function: the state after `event` and what the
/// caller is to do next.
pub open spec fn next(state: MonitorState, event: Event) -> (MonitorState, Action) {
    match (state.phase, event) {
        (Phase::Failed(e), _) => (state, Action::Abort(e)),
        (Phase::Starting, Event::SocketBound) => (
            state.at(Phase::ResolvingBounds),
            Action::ResolveBounds,
        ),
        (Phase::Starting, Event::SocketFailed) => (
            state.at(Phase::Failed(StartupError::Socket)),
            Action::Abort(StartupError::Socket),
        ),
        (Phase::ResolvingBounds, Event::HelperOutput(output)) => match section_bounds(output@) {
            Ok(bounds) => (
                MonitorState { phase: Phase::Listening, bounds: Some(bounds), ..state },
                Action::Receive,
            ),
            Err(e) => (
                state.at(Phase::Failed(StartupError::Bounds(e))),
                Action::Abort(StartupError::Bounds(e)),
            ),
        },
        (Phase::ResolvingBounds, Event::HelperFailed) => (
            state.at(Phase::Failed(StartupError::Helper)),
            Action::Abort(StartupError::Helper),
        ),
        (Phase::Listening, Event::BufferReceived) => (state.at(Phase::Tracing), Action::RunTarget),
        (Phase::Tracing, Event::TraceFinished { output, elapsed, now }) => finish(
            state,
            output@,
            elapsed,
            now,
        ),
        (Phase::Tracing, Event::TraceFailed(e)) => (state.at(Phase::Listening), Action::Discard(e)),
        _ => (state, Action::Rejected),
    }
}

/// A target is started only from the listening phase, and the monitor then
/// traces; while it traces, nothing starts the target again.  So at most one
/// execution is in flight.
pub proof fn lemma_one_in_flight(state: MonitorState, event: Event)
    ensures
        next(state, event).1 == Action::RunTarget ==> state.phase is Listening && next(
            state,
            event,
        ).0.phase is Tracing,
        state.phase is Tracing ==> next(state, event).1 != Action::RunTarget,
        state.phase is Tracing ==> next(state, event).0.phase is Tracing || next(
            state,
            event,
        ).0.phase is Listening,
{
}

/// A failed start is final: whatever happens, the monitor stays failed and
/// says so.
pub proof fn lemma_failed_is_final(state: MonitorState, event: Event)
    requires
        state.phase is Failed,
    ensures
        next(state, event).0 == state,
        next(state, event).1 == Action::Abort(state.phase->Failed_0),
{
}

/// A step keeps a valid state valid.  It never forgets a branch, never takes
/// a hit away, never lowers the running maximum, and never changes the
/// backend or bounds that are already known.
pub proof fn lemma_next_keeps(state: MonitorState, event: Event)
    requires
        state.valid(),
    ensures
        next(state, event).0.valid(),
        state.known.dom().subset_of(next(state, event).0.known.dom()),
        state.known.dom().len() <= next(state, event).0.known.dom().len(),
        forall|branch: BTSBranch|
            hits_in(state.known, branch) <= #[trigger] hits_in(next(state, event).0.known, branch),
        next(state, event).0.metrics.running_max >= state.metrics.running_max,
        next(state, event).0.tool == state.tool,
        state.bounds is Some ==> next(state, event).0.bounds == state.bounds,
{
    if let (Phase::Tracing, Event::TraceFinished { output, elapsed, now }) = (state.phase, event) {
        let bounds = state.bounds->0;
        if let Ok(TraceView::Edges(edges)) = state.tool.decoded(output@) {
            let kept = edges.filter(|branch: BTSBranch| bounds.spec_touches(branch));
            lemma_merged_grows(state.known, kept);
            let after = merged(state.known, kept);
            assert forall|branch: BTSBranch|
                hits_in(state.known, branch) <= #[trigger] hits_in(after, branch) by {
                lemma_hits_never_fall(state.known, kept, branch);
            }
            assert forall|branch: BTSBranch| #[trigger] after.contains_key(branch) implies 1
                <= after[branch] <= u64::MAX by {
                lemma_occurrences(kept, branch);
            }
        }
    }
}

/// A trace that cannot be read, and a target that cannot be run, leave the
/// branches known and the running maximum as they were.
pub proof fn lemma_failure_changes_nothing(state: MonitorState, event: Event)
    requires
        next(state, event).1 is Discard,
    ensures
        next(state, event).0 == state.at(Phase::Listening),
{
}

/// A monitor for one target.
pub struct FuzzMonitor {
    tool: MonitoringTool,
    phase: Phase,
    bounds: Option<SectionBounds>,
    branch_store: BranchStore,
    metrics: RunMetrics,
}

impl View for FuzzMonitor {
    type V = MonitorState;

    closed spec fn view(&self) -> MonitorState {
        MonitorState {
            phase: self.phase,
            tool: self.tool,
            bounds: self.bounds,
            known: self.branch_store@,
            metrics: self.metrics,
        }
    }
}

impl FuzzMonitor {
    /// The monitor's invariant: its store is well formed, and it has the
    /// bounds of a section exactly when it listens or traces.
    pub closed spec fn wf(&self) -> bool {
        &&& self.branch_store.wf()
        &&& self.phase is Listening || self.phase is Tracing <==> self.bounds is Some
        &&& self.bounds matches Some(bounds) ==> bounds.wf()
    }

    /// A well-formed monitor is in a valid state.
    pub proof fn lemma_valid(&self)
        requires
            self.wf(),
        ensures
            self@.valid(),
    {
        self.branch_store.lemma_view();
    }

    /// A monitor for `tool` that starts at time `now`, has seen nothing and
    /// waits for its socket.
    pub fn new(tool: MonitoringTool, now: u64) -> (monitor: FuzzMonitor)
        ensures
            monitor.wf(),
            monitor@ == (MonitorState {
                phase: Phase::Starting,
                tool,
                bounds: None,
                known: Map::empty(),
                metrics: RunMetrics { running_max: 0, last_improved_at: now },
            }),
    {
        FuzzMonitor {
            tool,
            phase: Phase::Starting,
            bounds: None,
            branch_store: BranchStore::empty(),
            metrics: RunMetrics::new(now),
        }
    }

    /// The backend the monitor was made for.
    pub fn tool(&self) -> (tool: MonitoringTool)
        ensures
            tool == self@.tool,
    {
        self.tool
    }

    /// Where the monitor stands.
    pub fn phase(&self) -> (phase: Phase)
        ensures
            phase == self@.phase,
    {
        self.phase
    }

    /// The bounds of the target's code, once they are known.
    pub fn bounds(&self) -> (bounds: Option<SectionBounds>)
        ensures
            bounds == self@.bounds,
    {
        self.bounds
    }

    /// The number of distinct branches seen so far.
    pub fn total_distinct(&self) -> (total: u64)
        requires
            self.wf(),
        ensures
            total == self@.known.dom().len(),
    {
        self.branch_store.total_distinct()
    }

    /// The running maximum and the time it last rose.
    pub fn metrics(&self) -> (metrics: RunMetrics)
        ensures
            metrics == self@.metrics,
    {
        self.metrics
    }

    /// Takes in the raw trace of one run: reads it as the backend's kind of
    /// trace, keeps the branches that touch `bounds`, and merges them into
    /// the store.  Returns the coverage after the run and, for a backend
    /// that yields edges, how many of them are new.
    ///
    /// A trace that cannot be read leaves the monitor as it was.
    pub fn trace(&mut self, output: &[u8], bounds: &SectionBounds) -> (r: Result<
        (u64, Option<usize>),
        TraceError,
    >)
        requires
            old(self).wf(),
        ensures
            final(self).wf(),
            match r {
                Ok((coverage, new)) => {
                    &&& traced(old(self)@.tool, old(self)@.known, output@, *bounds) matches Ok(run)
                    &&& final(self)@ == (MonitorState { known: run.known, ..old(self)@ })
                    &&& coverage == run.coverage
                    &&& match new {
                        Some(new) => run.new == Some(new as nat),
                        None => run.new is None,
                    }
                },
                Err(e) => {
                    &&& traced(old(self)@.tool, old(self)@.known, output@, *bounds) == Err::<
                        Traced,
                        TraceError,
                    >(e)
                    &&& final(self)@ == old(self)@
                },
            },
    {
        match self.tool.decode(output) {
            Ok(Trace::Edges(edges)) => {
                let kept = bounds.filter(edges.as_slice());
                let new = self.branch_store.add(kept.as_slice());
                Ok((self.branch_store.total_distinct(), Some(new)))
            },
            Ok(Trace::Count(count)) => Ok((count, None)),
            Err(e) => Err(e),
        }
    }

    /// Takes in what happened and says what to do next.
    pub fn step(&mut self, event: Event) -> (action: Action)
        requires
            old(self).wf(),
        ensures
            final(self).wf(),
            (final(self)@, action) == next(old(self)@, event),
    {
        match (self.phase, event) {
            (Phase::Failed(e), _) => Action::Abort(e),
            (Phase::Starting, Event::SocketBound) => {
                self.phase = Phase::ResolvingBounds;
                Action::ResolveBounds
            },
            (Phase::Starting, Event::SocketFailed) => self.fail(StartupError::Socket),
            (Phase::ResolvingBounds, Event::HelperOutput(output)) => {
                match parse_section_bounds(output.as_slice()) {
                    Ok(bounds) => {
                        self.bounds = Some(bounds);
                        self.phase = Phase::Listening;
                        Action::Receive
                    },
                    Err(e) => self.fail(StartupError::Bounds(e)),
                }
            },
            (Phase::ResolvingBounds, Event::HelperFailed) => self.fail(StartupError::Helper),
            (Phase::Listening, Event::BufferReceived) => {
                self.phase = Phase::Tracing;
                Action::RunTarget
            },
            (Phase::Tracing, Event::TraceFinished { output, elapsed, now }) => {
                let bounds = self.bounds.unwrap();
                let outcome = self.trace(output.as_slice(), &bounds);
                self.phase = Phase::Listening;
                match outcome {
                    Ok((coverage, new)) => {
                        let (is_new_max, running_max, time_since_max) = self.metrics.update(
                            coverage,
                            now,
                        );
                        Action::Report(
                            RunResult {
                                coverage_count: coverage,
                                new_edges: match new {
                                    Some(new) => Some(new as u64),
                                    None => None,
                                },
                                elapsed,
                                is_new_max,
                                running_max,
                                time_since_max,
                            },
                        )
                    },
                    Err(e) => Action::Discard(e),
                }
            },
            (Phase::Tracing, Event::TraceFailed(e)) => {
                self.phase = Phase::Listening;
                Action::Discard(e)
            },
            _ => Action::Rejected,
        }
    }

    /// Gives up on starting.
    fn fail(&mut self, error: StartupError) -> (action: Action)
        requires
            old(self).wf(),
            old(self)@.phase is Starting || old(self)@.phase is ResolvingBounds,
        ensures
            final(self).wf(),
            final(self)@ == old(self)@.at(Phase::Failed(error)),
            action == Action::Abort(error),
    {
        self.phase = Phase::Failed(error);
        Action::Abort(error)
    }
}

impl Default for FuzzMonitor {
    /// A monitor for the performance-counter sampler that starts at time
    /// zero.
    fn default() -> (monitor: FuzzMonitor)
        ensures
            monitor.wf(),
            monitor@ == (MonitorState {
                phase: Phase::Starting,
                tool: MonitoringTool::Perf,
                bounds: None,
                known: Map::empty(),
                metrics: RunMetrics { running_max: 0, last_improved_at: 0 },
            }),
    {
        FuzzMonitor::new(MonitoringTool::Perf, 0)
    }
}

} // verus!
