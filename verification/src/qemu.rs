//! Program counters logged by the instruction-level emulator.
//!
//! The emulator's decoded trace is text.  Scattered over its lines are tokens
//! of the form `pc=0x<hex>`, one for each block that ran; everything else on
//! a line is commentary.  Two blocks that ran one after the other make an
//! edge.

use crate::myperf::BTSBranch;
use crate::outcome::{collect, items, lemma_collect_fails, lemma_collect_next, TraceError};
use crate::text::{
    fields, lines, parse_radix, radix_value, split_fields, split_lines, starts_with, views, SPACE,
};
use vstd::prelude::*;
use vstd::slice::slice_subrange;
use vstd::string::StringSliceAdditionalSpecFns;

verus! {

/// What one token of a line holds.  A token that begins with `pc=0x` must go
/// on with a hexadecimal address, which it yields.  Any other token holds
/// nothing.
pub open spec fn pc_token(token: Seq<u8>) -> Result<Seq<u64>, TraceError> {
    let tag = "pc=0x".spec_bytes();
    if !tag.is_prefix_of(token) {
        Ok(Seq::empty())
    } else {
        match radix_value(token.skip(tag.len() as int), 16) {
            Some(pc) => Ok(seq![pc]),
            None => Err(TraceError::BadNumber),
        }
    }
}

/// The program counters on one line: those of its space-separated tokens.
pub open spec fn pc_line(line: Seq<u8>) -> Result<Seq<u64>, TraceError> {
    collect(fields(line, SPACE).map_values(|token: Seq<u8>| pc_token(token)))
}

/// The program counters in a decoded trace, in the order they were logged.
pub open spec fn program_counters(output: Seq<u8>) -> Result<Seq<u64>, TraceError> {
    collect(lines(output).map_values(|line: Seq<u8>| pc_line(line)))
}

/// The edges between consecutive program counters: one from each counter but
/// the last to the counter after it.
pub open spec fn transfers(pcs: Seq<u64>) -> Seq<BTSBranch> {
    Seq::new(
        if pcs.len() > 0 {
            (pcs.len() - 1) as nat
        } else {
            0
        },
        |i: int| BTSBranch { from: pcs[i], to: pcs[i + 1], misc: 0 },
    )
}

/// Reads one token.
fn read_pc_token(token: &[u8]) -> (r: Result<Option<u64>, TraceError>)
    ensures
        pc_token(token@) == match r {
            Ok(Some(pc)) => Ok::<Seq<u64>, TraceError>(seq![pc]),
            Ok(None) => Ok(Seq::empty()),
            Err(e) => Err(e),
        },
{
    let tag = "pc=0x".as_bytes();
    if !starts_with(token, tag) {
        return Ok(None);
    }
    let digits = slice_subrange(token, tag.len(), token.len());
    assert(digits@ =~= token@.skip(tag@.len() as int));
    match parse_radix(digits, 16) {
        Some(pc) => Ok(Some(pc)),
        None => Err(TraceError::BadNumber),
    }
}

/// Appends the program counters of one line to `pcs`.
fn read_pc_line(line: &[u8], pcs: &mut Vec<u64>) -> (r: Result<(), TraceError>)
    ensures
        match r {
            Ok(()) => pc_line(line@) is Ok && final(pcs)@ == old(pcs)@ + pc_line(line@)->Ok_0,
            Err(e) => pc_line(line@) == Err::<Seq<u64>, TraceError>(e),
        },
{
    let tokens = split_fields(line, SPACE);
    let ghost parts = fields(line@, SPACE).map_values(|token: Seq<u8>| pc_token(token));
    let ghost found = Seq::<u64>::empty();
    let mut n: usize = 0;
    while n < tokens.len()
        invariant
            n <= tokens.len(),
            views(tokens@) == fields(line@, SPACE),
            parts == fields(line@, SPACE).map_values(|token: Seq<u8>| pc_token(token)),
            collect(parts.take(n as int)) == Ok::<Seq<u64>, TraceError>(found),
            pcs@ == old(pcs)@ + found,
        decreases tokens.len() - n,
    {
        proof {
            assert(views(tokens@)[n as int] == tokens@[n as int]@);
            lemma_collect_next(parts, n as int);
        }
        match read_pc_token(tokens[n]) {
            Ok(Some(pc)) => {
                pcs.push(pc);
                proof {
                    assert(pcs@ =~= old(pcs)@ + (found + seq![pc]));
                    found = found + seq![pc];
                }
            },
            Ok(None) => {
                assert(found + Seq::<u64>::empty() =~= found);
            },
            Err(e) => {
                proof {
                    lemma_collect_fails(parts, n as int + 1);
                }
                return Err(e);
            },
        }
        n += 1;
    }
    assert(parts.take(n as int) =~= parts);
    Ok(())
}

/// Reads the program counters out of a decoded trace.
///
/// A token that begins with `pc=0x` and does not go on with an address fails
/// the whole trace.
pub fn parse_trace(output: &[u8]) -> (r: Result<Vec<u64>, TraceError>)
    ensures
        items(r) == program_counters(output@),
{
    let all = split_lines(output);
    let ghost parts = lines(output@).map_values(|line: Seq<u8>| pc_line(line));
    let mut pcs: Vec<u64> = Vec::new();
    let mut n: usize = 0;
    while n < all.len()
        invariant
            n <= all.len(),
            views(all@) == lines(output@),
            parts == lines(output@).map_values(|line: Seq<u8>| pc_line(line)),
            collect(parts.take(n as int)) == Ok::<Seq<u64>, TraceError>(pcs@),
        decreases all.len() - n,
    {
        proof {
            assert(views(all@)[n as int] == all@[n as int]@);
            lemma_collect_next(parts, n as int);
        }
        match read_pc_line(all[n], &mut pcs) {
            Ok(()) => {},
            Err(e) => {
                proof {
                    lemma_collect_fails(parts, n as int + 1);
                }
                return Err(e);
            },
        }
        n += 1;
    }
    assert(parts.take(n as int) =~= parts);
    Ok(pcs)
}

/// Pairs every program counter with the one logged after it.
pub fn pair_up(pcs: &[u64]) -> (edges: Vec<BTSBranch>)
    ensures
        edges@ == transfers(pcs@),
{
    let mut edges: Vec<BTSBranch> = Vec::new();
    let mut n: usize = 1;
    while n < pcs.len()
        invariant
            1 <= n,
            n <= pcs.len() || n == 1,
            edges@.len() == n - 1,
            forall|i: int| 0 <= i < n - 1 ==> edges@[i] == (BTSBranch { from: pcs@[i], to: pcs@[i + 1], misc: 0 }),
        decreases pcs.len() - n,
    {
        edges.push(BTSBranch { from: pcs[n - 1], to: pcs[n], misc: 0 });
        n += 1;
    }
    assert(edges@ =~= transfers(pcs@));
    edges
}

/// Reduces a decoded trace to the edges it ran through.
pub fn trace(output: &[u8]) -> (r: Result<Vec<BTSBranch>, TraceError>)
    ensures
        items(r) == match program_counters(output@) {
            Ok(pcs) => Ok(transfers(pcs)),
            Err(e) => Err(e),
        },
{
    match parse_trace(output) {
        Ok(pcs) => Ok(pair_up(pcs.as_slice())),
        Err(e) => Err(e),
    }
}

} // verus!
