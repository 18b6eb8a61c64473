//! How a trace can fail to yield coverage, and how the results of its lines
//! are put together.

use vstd::prelude::*;

verus! {

/// Why one execution yielded no coverage.
#[derive(Clone, Copy, Debug, PartialEq, Eq, Structural)]
pub enum TraceError {
    /// The target could not be started under its tracing tool.
    Spawn,
    /// Feeding the target or reading what the tool left behind failed.
    Io,
    /// A record has fewer fields than its kind needs.
    MissingField,
    /// A field that must be a number is not one, or does not fit 64 bits.
    BadNumber,
    /// The counter's output has no line for the counted event.
    MissingCounter,
}

/// Joins the results of consecutive parts of a text.  Each part yields some
/// items or fails; the whole yields all items in order, or fails as the first
/// failing part did.
pub open spec fn collect<T>(parts: Seq<Result<Seq<T>, TraceError>>) -> Result<Seq<T>, TraceError>
    decreases parts.len(),
{
    if parts.len() == 0 {
        Ok(Seq::empty())
    } else {
        match collect(parts.drop_last()) {
            Err(e) => Err(e),
            Ok(front) => match parts.last() {
                Err(e) => Err(e),
                Ok(more) => Ok(front + more),
            },
        }
    }
}

/// What one more part adds to the parts before it.
pub proof fn lemma_collect_next<T>(parts: Seq<Result<Seq<T>, TraceError>>, n: int)
    requires
        0 <= n < parts.len(),
    ensures
        collect(parts.take(n + 1)) == match collect(parts.take(n)) {
            Err(e) => Err(e),
            Ok(front) => match parts[n] {
                Err(e) => Err(e),
                Ok(more) => Ok(front + more),
            },
        },
{
    assert(parts.take(n + 1).drop_last() =~= parts.take(n));
}

/// Once some leading parts fail, the whole fails in the same way.
pub proof fn lemma_collect_fails<T>(parts: Seq<Result<Seq<T>, TraceError>>, n: int)
    requires
        0 <= n <= parts.len(),
        collect(parts.take(n)) is Err,
    ensures
        collect(parts) == collect(parts.take(n)),
    decreases parts.len() - n,
{
    if n == parts.len() {
        assert(parts.take(n) =~= parts);
    } else {
        lemma_collect_next(parts, n);
        lemma_collect_fails(parts, n + 1);
    }
}

/// A parser's result with the items it holds as a sequence.
pub open spec fn items<T>(r: Result<Vec<T>, TraceError>) -> Result<Seq<T>, TraceError> {
    match r {
        Ok(v) => Ok(v@),
        Err(e) => Err(e),
    }
}

} // verus!
