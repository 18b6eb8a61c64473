use fuzz_monitor::backend::{MonitoringTool, Trace};
use fuzz_monitor::myperf::{trace2, trace_status, BTSBranch};
use fuzz_monitor::outcome::TraceError;
use fuzz_monitor::{perf, qemu};

fn edge(from: u64, to: u64) -> BTSBranch {
    BTSBranch { from, to, misc: 0 }
}

#[test]
fn one_branch_record() {
    assert_eq!(trace2(b"branch,100,200,0\n"), Ok(vec![edge(100, 200)]));
}

#[test]
fn branch_records_in_order_with_repeats() {
    let output = b"branch,1,2,0\nbranch,3,4,0\nbranch,1,2,0\n";
    assert_eq!(trace2(output), Ok(vec![edge(1, 2), edge(3, 4), edge(1, 2)]));
}

#[test]
fn lines_that_are_no_records_are_skipped() {
    let output = b"# header\n\nsample,1,2\n branch,5,6\nbranch,7,8\nBranch,9,10\n";
    assert_eq!(trace2(output), Ok(vec![edge(7, 8)]));
}

#[test]
fn branch_record_without_trailing_newline_or_with_crlf() {
    assert_eq!(trace2(b"branch,1,2"), Ok(vec![edge(1, 2)]));
    assert_eq!(trace2(b"branch,1,2\r\nbranch,3,4\r\n"), Ok(vec![edge(1, 2), edge(3, 4)]));
}

#[test]
fn branch_record_needs_only_three_fields() {
    assert_eq!(trace2(b"branch,1,2\n"), Ok(vec![edge(1, 2)]));
    assert_eq!(trace2(b"branch,1,2,junk,more\n"), Ok(vec![edge(1, 2)]));
    assert_eq!(trace2(b"branches,1,2\n"), Ok(vec![edge(1, 2)]));
}

#[test]
fn branch_record_with_too_few_fields() {
    assert_eq!(trace2(b"branch\n"), Err(TraceError::MissingField));
    assert_eq!(trace2(b"branch,1\n"), Err(TraceError::MissingField));
    assert_eq!(trace2(b"branch,1,2\nbranch,3\n"), Err(TraceError::MissingField));
}

#[test]
fn branch_record_with_bad_addresses() {
    assert_eq!(trace2(b"branch,,2\n"), Err(TraceError::BadNumber));
    assert_eq!(trace2(b"branch,1,\n"), Err(TraceError::BadNumber));
    assert_eq!(trace2(b"branch,0x10,2\n"), Err(TraceError::BadNumber));
    assert_eq!(trace2(b"branch,1, 2\n"), Err(TraceError::BadNumber));
    assert_eq!(trace2(b"branch,1,18446744073709551616\n"), Err(TraceError::BadNumber));
    assert_eq!(trace2(b"branch,1,2\r"), Err(TraceError::BadNumber));
}

#[test]
fn the_first_bad_record_decides() {
    assert_eq!(trace2(b"branch,1,x\nbranch\n"), Err(TraceError::BadNumber));
    assert_eq!(trace2(b"branch\nbranch,1,x\n"), Err(TraceError::MissingField));
}

#[test]
fn empty_branch_trace() {
    assert_eq!(trace2(b""), Ok(vec![]));
    assert_eq!(trace2(b"\n\n"), Ok(vec![]));
}

#[test]
fn program_counters_among_other_tokens() {
    let output = b"exec_tb 0.123 pid=7 tb=0x7f00 pc=0x1000\nexec_tb 0.456 pid=7 tb=0x7f40 pc=0x1010\n";
    assert_eq!(qemu::parse_trace(output), Ok(vec![0x1000, 0x1010]));
    assert_eq!(qemu::trace(output), Ok(vec![edge(0x1000, 0x1010)]));
}

#[test]
fn consecutive_program_counters_make_edges() {
    let output = b"pc=0x1 pc=0x2\npc=0x3\nnothing here\npc=0x1\n";
    assert_eq!(qemu::parse_trace(output), Ok(vec![1, 2, 3, 1]));
    assert_eq!(qemu::trace(output), Ok(vec![edge(1, 2), edge(2, 3), edge(3, 1)]));
}

#[test]
fn fewer_than_two_program_counters_make_no_edge() {
    assert_eq!(qemu::trace(b""), Ok(vec![]));
    assert_eq!(qemu::trace(b"pc=0x1000\n"), Ok(vec![]));
    assert_eq!(qemu::pair_up(&[]), vec![]);
    assert_eq!(qemu::pair_up(&[5]), vec![]);
    assert_eq!(qemu::pair_up(&[5, 6]), vec![edge(5, 6)]);
}

#[test]
fn tokens_are_split_at_single_spaces() {
    assert_eq!(qemu::parse_trace(b"  pc=0xa  pc=0xb "), Ok(vec![0xa, 0xb]));
    assert_eq!(qemu::parse_trace(b"x\tpc=0xa"), Ok(vec![]));
    assert_eq!(qemu::parse_trace(b"PC=0xa pc=0Xb pc=1"), Ok(vec![]));
    assert_eq!(qemu::parse_trace(b"pc=0xa\r\npc=0xB\r\n"), Ok(vec![0xa, 0xb]));
}

#[test]
fn program_counter_that_is_no_address() {
    assert_eq!(qemu::parse_trace(b"pc=0x"), Err(TraceError::BadNumber));
    assert_eq!(qemu::parse_trace(b"pc=0x10,"), Err(TraceError::BadNumber));
    assert_eq!(qemu::parse_trace(b"pc=0xg"), Err(TraceError::BadNumber));
    assert_eq!(qemu::parse_trace(b"pc=0x1\tx"), Err(TraceError::BadNumber));
    assert_eq!(qemu::parse_trace(b"pc=0x10000000000000000"), Err(TraceError::BadNumber));
    assert_eq!(qemu::parse_trace(b"pc=0x1 pc=0x\npc=0x2"), Err(TraceError::BadNumber));
    assert_eq!(qemu::trace(b"pc=0x1 pc=0xzz"), Err(TraceError::BadNumber));
}

#[test]
fn branch_count_of_the_sampler() {
    let output = b"# started on Mon\n\n123456,,branches:u,1000,100.00,,\n";
    assert_eq!(perf::trace(output), Ok(123456));
}

#[test]
fn the_first_counter_line_decides() {
    assert_eq!(perf::trace(b"7,,branches:u\n9,,branches:u\n"), Ok(7));
    assert_eq!(perf::trace(b"x,,branches:u\n9,,branches:u\n"), Err(TraceError::BadNumber));
    assert_eq!(perf::trace(b"branches:u"), Err(TraceError::BadNumber));
    assert_eq!(perf::trace(b"<not counted>,,branches:u\n"), Err(TraceError::BadNumber));
}

#[test]
fn sampler_output_without_the_counter() {
    assert_eq!(perf::trace(b""), Err(TraceError::MissingCounter));
    assert_eq!(perf::trace(b"12,,instructions:u\n34,,branches\n"), Err(TraceError::MissingCounter));
}

#[test]
fn trace_text_with_two_program_counters() {
    let output = b"... pc=0x1000 ... pc=0x1010 ...";
    let edges = qemu::trace(output).unwrap();
    assert!(edges.contains(&edge(0x1000, 0x1010)));
    assert_eq!(edges, vec![edge(0x1000, 0x1010)]);
}

#[test]
fn a_negative_status_is_an_error_code() {
    assert_eq!(trace_status(0), Ok(0));
    assert_eq!(trace_status(1), Ok(1));
    assert_eq!(trace_status(i32::MAX), Ok(i32::MAX));
    assert_eq!(trace_status(-1), Err(-1));
    assert_eq!(trace_status(i32::MIN), Err(i32::MIN));
}

#[test]
fn every_backend_is_brought_to_one_form() {
    assert_eq!(
        MonitoringTool::Qemu.decode(b"pc=0x10 pc=0x20 pc=0x30"),
        Ok(Trace::Edges(vec![edge(0x10, 0x20), edge(0x20, 0x30)]))
    );
    assert_eq!(
        MonitoringTool::CPerf.decode(b"branch,16,32\nbranch,32,48\n"),
        Ok(Trace::Edges(vec![edge(16, 32), edge(32, 48)]))
    );
    assert_eq!(MonitoringTool::Perf.decode(b"42,,branches:u\n"), Ok(Trace::Count(42)));
}

#[test]
fn a_backend_does_not_read_the_trace_of_another() {
    let counter = b"42,,branches:u\n";
    let records = b"branch,16,32\n";
    let pcs = b"pc=0x10 pc=0x20";
    assert_eq!(MonitoringTool::Qemu.decode(counter), Ok(Trace::Edges(vec![])));
    assert_eq!(MonitoringTool::Qemu.decode(records), Ok(Trace::Edges(vec![])));
    assert_eq!(MonitoringTool::CPerf.decode(counter), Ok(Trace::Edges(vec![])));
    assert_eq!(MonitoringTool::CPerf.decode(pcs), Ok(Trace::Edges(vec![])));
    assert_eq!(MonitoringTool::Perf.decode(records), Err(TraceError::MissingCounter));
    assert_eq!(MonitoringTool::Perf.decode(pcs), Err(TraceError::MissingCounter));
}

#[test]
fn a_backend_that_fails_yields_no_partial_trace() {
    assert_eq!(MonitoringTool::Qemu.decode(b"pc=0x10 pc=0x"), Err(TraceError::BadNumber));
    assert_eq!(MonitoringTool::CPerf.decode(b"branch,1,2\nbranch,3\n"), Err(TraceError::MissingField));
    assert_eq!(MonitoringTool::Perf.decode(b"many,,branches:u\n"), Err(TraceError::BadNumber));
}
