use etp::errors::RunError;
use etp::parser::parse_trace;

#[test]
fn parses_blocks_and_events() {
    let log = "\
noise before the listing
# mod test
proc main (0)
push.1
noop
end
random noise between the regions
[TRACE executor] in test::main (ctx)
[TRACE executor] executed `push.1` of `push.1` (cycle 1/1)
[TRACE executor] stack state: [1, 0]
[TRACE executor] in test::main (ctx)
[TRACE executor] executed `noop` of `noop` (cycle 2/2)
[TRACE executor] stack state: [1, 0]
";
    let (blocks, trace) = parse_trace(log).expect("parse");
    assert_eq!(blocks.len(), 1);
    assert_eq!(trace.len(), 2);
    assert_eq!(trace[0].func, "test::main");
    assert_eq!(trace[0].masm_op, "push.1");
    assert_eq!(trace[0].cycle, 1);
    assert_eq!(trace[0].total, 1);
    assert_eq!(trace[0].stack, vec![1, 0]);
    assert_eq!(trace[1].cycle, 2);
}

#[test]
fn conditionals_allocate_arm_blocks() {
    let log = "\
# mod t
proc main (0)
if.true
add
else
sub
end
end
";
    let (blocks, trace) = parse_trace(log).expect("parse");
    // The procedure body plus its two anonymous arms.
    assert_eq!(blocks.len(), 3);
    assert_eq!(trace.len(), 0);
}

#[test]
fn unrelated_marker_lines_are_discarded() {
    let log = "\
# mod t
proc main (0)
noop
end
[TRACE executor] in t::main (a)
[TRACE executor] executed `noop` of `noop` (cycle 1/1)
[TRACE executor] stack state: [0]
[TRACE executor] locals: irrelevant future line kind
[TRACE executor] in t::main (a)
[TRACE executor] executed `noop` of `noop` (cycle 1/1)
[TRACE executor] stack state: [0]
";
    let (_, trace) = parse_trace(log).expect("parse");
    assert_eq!(trace.len(), 2);
}

#[test]
fn failures_report_the_offset_and_an_excerpt() {
    let log = "\
# mod t
proc main (0)
noop
end
[TRACE executor] gibberish instead of an event
";
    match parse_trace(log) {
        Err(RunError::Parse { offset, excerpt }) => {
            assert!(offset < log.chars().count());
            assert!(!excerpt.is_empty());
        }
        other => panic!("expected a parse failure, got ok={}", other.is_ok()),
    }
}

#[test]
fn module_prefix_reaches_every_procedure() {
    let log = "\
# mod alpha
proc one (0)
noop
end
# mod beta
proc two (0)
noop
end
[TRACE executor] in beta::two (a)
[TRACE executor] executed `noop` of `noop` (cycle 1/1)
[TRACE executor] stack state: [0]
";
    let (lines, _) = etp::run_log(log, &Some(String::from("two")), 1_000_000).expect("run");
    assert_eq!(lines[0], "ENTRY AT beta::two");
}

#[test]
fn calling_convention_and_visibility_markers_are_accepted() {
    let log = "\
# mod t
@callconv (fast) pub export main (0)
noop
end
[TRACE executor] in t::main (a)
[TRACE executor] executed `noop` of `noop` (cycle 1/1)
[TRACE executor] stack state: [0]
";
    let (blocks, _) = parse_trace(log).expect("parse");
    assert_eq!(blocks.len(), 1);
}

#[test]
fn bracketed_index_list_arguments() {
    let log = "\
# mod t
proc main (0)
movup.[1,2,3]
end
";
    let (blocks, _) = parse_trace(log).expect("parse");
    assert_eq!(blocks.len(), 1);
}
