//! The address range of the target's own code, and the filter that keeps a
//! trace to it.
//!
//! A raw trace also runs through the dynamic loader, the C library and the
//! tracing tool itself.  That part is the same on every run and says nothing
//! about the input, so only branches that touch the target's code section
//! count as coverage.

use crate::myperf::BTSBranch;
use crate::text::{lines, parse_radix, radix_value, split_lines, split_words, views, words};
use vstd::prelude::*;

verus! {

/// The addresses of one code section, both ends included.
#[derive(Clone, Copy, Debug, PartialEq, Eq, Structural)]
pub struct SectionBounds {
    /// The first address of the section.
    pub start: u64,
    /// The last address of the section.
    pub end: u64,
}

impl SectionBounds {
    /// A section does not end before it starts.
    pub open spec fn wf(&self) -> bool {
        self.start <= self.end
    }

    /// Whether `addr` lies in the section.
    pub open spec fn spec_contains(&self, addr: u64) -> bool {
        self.start <= addr <= self.end
    }

    /// Whether `branch` leaves from the section or arrives in it.
    pub open spec fn spec_touches(&self, branch: BTSBranch) -> bool {
        self.spec_contains(branch.from) || self.spec_contains(branch.to)
    }

    /// The section from `start` to `end`, unless it would end before it
    /// starts.
    pub fn new(start: u64, end: u64) -> (bounds: Option<SectionBounds>)
        ensures
            bounds == if start <= end {
                Some(SectionBounds { start, end })
            } else {
                None
            },
    {
        if start <= end {
            Some(SectionBounds { start, end })
        } else {
            None
        }
    }

    /// Whether `addr` lies in the section.
    #[verifier::when_used_as_spec(spec_contains)]
    pub fn contains(&self, addr: u64) -> (inside: bool)
        ensures
            inside == self.spec_contains(addr),
    {
        self.start <= addr && addr <= self.end
    }

    /// Whether `branch` leaves from the section or arrives in it.
    #[verifier::when_used_as_spec(spec_touches)]
    pub fn touches(&self, branch: BTSBranch) -> (kept: bool)
        ensures
            kept == self.spec_touches(branch),
    {
        self.contains(branch.from) || self.contains(branch.to)
    }

    /// The branches of `trace` that touch the section, in their order.
    pub fn filter(&self, trace: &[BTSBranch]) -> (kept: Vec<BTSBranch>)
        ensures
            kept@ == trace@.filter(|branch: BTSBranch| self.spec_touches(branch)),
    {
        let ghost keep = |branch: BTSBranch| self.spec_touches(branch);
        let mut kept: Vec<BTSBranch> = Vec::new();
        let mut n: usize = 0;
        proof {
            reveal(Seq::filter);
            assert(trace@.take(0) =~= Seq::<BTSBranch>::empty());
        }
        while n < trace.len()
            invariant
                n <= trace.len(),
                keep == |branch: BTSBranch| self.spec_touches(branch),
                kept@ == trace@.take(n as int).filter(keep),
            decreases trace.len() - n,
        {
            proof {
                reveal(Seq::filter);
                assert(trace@.take(n as int + 1).drop_last() =~= trace@.take(n as int));
            }
            if self.touches(trace[n]) {
                kept.push(trace[n]);
            }
            n += 1;
        }
        assert(trace@.take(n as int) =~= trace@);
        kept
    }
}

/// A branch with an endpoint on either boundary of a section touches it, and
/// a branch with both endpoints below the section or both above it does not.
pub proof fn lemma_section_boundaries(bounds: SectionBounds, branch: BTSBranch)
    requires
        bounds.wf(),
    ensures
        branch.from == bounds.start || branch.to == bounds.end ==> bounds.spec_touches(branch),
        branch.from == bounds.end || branch.to == bounds.start ==> bounds.spec_touches(branch),
        branch.from < bounds.start && branch.to < bounds.start ==> !bounds.spec_touches(branch),
        branch.from > bounds.end && branch.to > bounds.end ==> !bounds.spec_touches(branch),
{
}

/// A branch is in the filtered trace exactly when it is in the trace and
/// touches the section.
pub proof fn lemma_filter_keeps(bounds: SectionBounds, trace: Seq<BTSBranch>, branch: BTSBranch)
    ensures
        trace.filter(|b: BTSBranch| bounds.spec_touches(b)).contains(branch) <==> trace.contains(
            branch,
        ) && bounds.spec_touches(branch),
{
    let keep = |b: BTSBranch| bounds.spec_touches(b);
    broadcast use vstd::seq_lib::group_filter_ensures;

    if trace.filter(keep).contains(branch) {
        let i = choose|i: int| 0 <= i < trace.filter(keep).len() && trace.filter(keep)[i] == branch;
        trace.lemma_filter_pred(keep, i);
        trace.lemma_filter_contains_rev(keep, branch);
    }
    if trace.contains(branch) && bounds.spec_touches(branch) {
        let i = choose|i: int| 0 <= i < trace.len() && trace[i] == branch;
        trace.lemma_filter_contains(keep, i);
    }
}

/// Why the helper's output does not describe a section.
#[derive(Clone, Copy, Debug, PartialEq, Eq, Structural)]
pub enum BoundsError {
    /// The first line has fewer than three words.
    MissingField,
    /// The second or the third word is not a decimal number that fits 64 bits.
    BadNumber,
    /// The section would end before it starts.
    Inverted,
}

/// The section that the helper's output describes.  Its first line holds at
/// least three words, separated by white space; the second is the decimal
/// address at which the section starts, the third the one at which it ends.
pub open spec fn section_bounds(output: Seq<u8>) -> Result<SectionBounds, BoundsError> {
    let first = if lines(output).len() > 0 {
        lines(output)[0]
    } else {
        Seq::empty()
    };
    let parts = words(first);
    if parts.len() < 3 {
        Err(BoundsError::MissingField)
    } else {
        match (radix_value(parts[1], 10), radix_value(parts[2], 10)) {
            (Some(start), Some(end)) => if start <= end {
                Ok(SectionBounds { start, end })
            } else {
                Err(BoundsError::Inverted)
            },
            _ => Err(BoundsError::BadNumber),
        }
    }
}

/// Reads the section out of the helper's output.
pub fn parse_section_bounds(output: &[u8]) -> (r: Result<SectionBounds, BoundsError>)
    ensures
        r == section_bounds(output@),
        r matches Ok(bounds) ==> bounds.wf(),
{
    let all = split_lines(output);
    let parts = if all.len() > 0 {
        assert(views(all@)[0] == all@[0]@);
        split_words(all[0])
    } else {
        let nothing: Vec<&[u8]> = Vec::new();
        assert(views(nothing@) =~= words(Seq::<u8>::empty()));
        nothing
    };
    if parts.len() < 3 {
        return Err(BoundsError::MissingField);
    }
    assert(views(parts@)[1] == parts@[1]@ && views(parts@)[2] == parts@[2]@);
    match (parse_radix(parts[1], 10), parse_radix(parts[2], 10)) {
        (Some(start), Some(end)) => match SectionBounds::new(start, end) {
            Some(bounds) => Ok(bounds),
            None => Err(BoundsError::Inverted),
        },
        _ => Err(BoundsError::BadNumber),
    }
}

} // verus!
