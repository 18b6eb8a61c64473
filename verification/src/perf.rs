//! The branch count that the hardware performance-counter sampler reports.
//!
//! The sampler writes one comma-separated line for each event it counted.
//! The line of the retired user-space branches names the event `branches:u`
//! and starts with the count.

use crate::outcome::TraceError;
use crate::text::{
    contains, fields, lines, occurs_in, parse_radix, radix_value, split_fields, split_lines, views,
    COMMA,
};
use vstd::prelude::*;
use vstd::string::StringSliceAdditionalSpecFns;

verus! {

/// Whether `line` is a line of the branch counter.
pub open spec fn is_counter_line(line: Seq<u8>) -> bool {
    occurs_in("branches:u".spec_bytes(), line)
}

/// The count on a line of the branch counter: its first field, in decimal.
pub open spec fn counter_value(line: Seq<u8>) -> Result<u64, TraceError> {
    match radix_value(fields(line, COMMA)[0], 10) {
        Some(count) => Ok(count),
        None => Err(TraceError::BadNumber),
    }
}

/// The count on the first line of the branch counter at or after line `from`.
pub open spec fn count_from(all: Seq<Seq<u8>>, from: int) -> Result<u64, TraceError>
    decreases all.len() - from,
{
    if from < 0 || from >= all.len() {
        Err(TraceError::MissingCounter)
    } else if is_counter_line(all[from]) {
        counter_value(all[from])
    } else {
        count_from(all, from + 1)
    }
}

/// The branch count in the sampler's output: the count on the first line of
/// the branch counter.
pub open spec fn branch_count(output: Seq<u8>) -> Result<u64, TraceError> {
    count_from(lines(output), 0)
}

/// Reads the branch count out of the sampler's output.
///
/// The first line that names the counted event decides: its first field is
/// the count, or the trace fails.  Output without such a line fails too.
pub fn trace(output: &[u8]) -> (r: Result<u64, TraceError>)
    ensures
        r == branch_count(output@),
{
    let all = split_lines(output);
    let mut n: usize = 0;
    while n < all.len()
        invariant
            n <= all.len(),
            views(all@) == lines(output@),
            count_from(lines(output@), 0) == count_from(lines(output@), n as int),
        decreases all.len() - n,
    {
        assert(views(all@)[n as int] == all@[n as int]@);
        if contains(all[n], "branches:u".as_bytes()) {
            let parts = split_fields(all[n], COMMA);
            assert(views(parts@)[0] == parts@[0]@);
            return match parse_radix(parts[0], 10) {
                Some(count) => Ok(count),
                None => Err(TraceError::BadNumber),
            };
        }
        n += 1;
    }
    Err(TraceError::MissingCounter)
}

} // verus!
