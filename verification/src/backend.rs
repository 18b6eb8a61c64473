//! The tracing backends, and what each makes of the raw trace of one run.
//!
//! The three backends leave traces that have nothing in common: program
//! counters, a bare count, branch records.  Here they are brought to one
//! form, a sequence of branches.  The counter cannot be brought that far; its
//! count is passed on as a count and marked as such, not dressed up as
//! branches.

use crate::myperf::{branch_records, trace2, BTSBranch};
use crate::outcome::TraceError;
use crate::perf::branch_count;
use crate::qemu::{program_counters, transfers};
use vstd::prelude::*;

verus! {

/// The tracing backend that the target runs under.
#[derive(Clone, Copy, Debug, PartialEq, Eq, Structural)]
pub enum MonitoringTool {
    /// The hardware performance-counter sampler: it counts branches and
    /// cannot tell them apart.
    Perf,
    /// The instruction-level emulator: it logs the program counter of every
    /// block that runs.
    Qemu,
    /// The hardware branch-trace facility: it records every branch taken.
    CPerf,
}

/// What a backend yields for one run.
#[derive(Debug, PartialEq, Eq)]
pub enum Trace {
    /// The branches that the run took, in order.
    Edges(Vec<BTSBranch>),
    /// Only the number of branches that the run took.
    Count(u64),
}

/// What a backend yields for one run, with the branches as a sequence.
pub enum TraceView {
    /// The branches that the run took, in order.
    Edges(Seq<BTSBranch>),
    /// Only the number of branches that the run took.
    Count(u64),
}

impl View for Trace {
    type V = TraceView;

    open spec fn view(&self) -> TraceView {
        match self {
            Trace::Edges(edges) => TraceView::Edges(edges@),
            Trace::Count(count) => TraceView::Count(*count),
        }
    }
}

impl MonitoringTool {
    /// Whether the backend yields branches, so that a run can be told how
    /// many of its branches are new.  A backend that does not yields a bare
    /// count.
    pub open spec fn spec_reports_edges(&self) -> bool {
        !(self is Perf)
    }

    /// What the backend's raw trace `output` holds.
    pub open spec fn decoded(self, output: Seq<u8>) -> Result<TraceView, TraceError> {
        match self {
            MonitoringTool::Qemu => match program_counters(output) {
                Ok(pcs) => Ok(TraceView::Edges(transfers(pcs))),
                Err(e) => Err(e),
            },
            MonitoringTool::Perf => match branch_count(output) {
                Ok(count) => Ok(TraceView::Count(count)),
                Err(e) => Err(e),
            },
            MonitoringTool::CPerf => match branch_records(output) {
                Ok(branches) => Ok(TraceView::Edges(branches)),
                Err(e) => Err(e),
            },
        }
    }

    /// Whether the backend yields branches.
    #[verifier::when_used_as_spec(spec_reports_edges)]
    pub fn reports_edges(&self) -> (yes: bool)
        ensures
            yes == self.spec_reports_edges(),
    {
        match self {
            MonitoringTool::Perf => false,
            MonitoringTool::Qemu => true,
            MonitoringTool::CPerf => true,
        }
    }

    /// The backend's name as it appears in the log.
    pub fn name(&self) -> (name: &'static str)
        ensures
            name@ == match self {
                MonitoringTool::Qemu => "QEMU"@,
                MonitoringTool::Perf => "PERF"@,
                MonitoringTool::CPerf => "CPERF"@,
            },
    {
        match self {
            MonitoringTool::Qemu => "QEMU",
            MonitoringTool::Perf => "PERF",
            MonitoringTool::CPerf => "CPERF",
        }
    }

    /// Reads the raw trace that the backend left of one run.  A trace that
    /// cannot be read in full yields nothing.
    pub fn decode(&self, output: &[u8]) -> (r: Result<Trace, TraceError>)
        ensures
            match r {
                Ok(trace) => self.decoded(output@) == Ok::<TraceView, TraceError>(trace@),
                Err(e) => self.decoded(output@) == Err::<TraceView, TraceError>(e),
            },
            r matches Ok(trace) ==> (trace is Edges <==> self.spec_reports_edges()),
    {
        match self {
            MonitoringTool::Qemu => match crate::qemu::trace(output) {
                Ok(edges) => Ok(Trace::Edges(edges)),
                Err(e) => Err(e),
            },
            MonitoringTool::Perf => match crate::perf::trace(output) {
                Ok(count) => Ok(Trace::Count(count)),
                Err(e) => Err(e),
            },
            MonitoringTool::CPerf => match trace2(output) {
                Ok(branches) => Ok(Trace::Edges(branches)),
                Err(e) => Err(e),
            },
        }
    }
}

} // verus!
