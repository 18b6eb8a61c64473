//! Coverage feedback for black-box fuzzing.
//!
//! A monitor runs a target program on candidate inputs under a tracing
//! backend, reduces each raw trace to control-flow edges, keeps the edges that
//! touch the target's own code, and reports how many of them were never seen
//! before.  This crate holds the decisions of that pipeline: the trace
//! grammars, the section filter, the edge store, the running maximum and the
//! service's state machine.  Spawning processes, sockets and clocks are left
//! to the caller, which hands their results in as plain values.
//!
//! - [`text`] scans bytes: lines, fields, words, numbers.
//! - [`qemu`], [`perf`] and [`myperf`] each read the raw trace of one backend;
//!   [`myperf`] also holds the branch store.
//! - [`backend`] brings the three to one form.
//! - [`section`] holds the bounds of the target's code and the filter.
//! - [`metrics`] keeps the running maximum.
//! - [`monitor`] ties them together in a state machine.

pub mod backend;
pub mod metrics;
pub mod monitor;
pub mod myperf;
pub mod outcome;
pub mod perf;
pub mod qemu;
pub mod section;
pub mod text;
