use etp::engine::{Engine, Event, RunEnd};
use etp::errors::RunError;
use etp::parser::parse_trace;
use etp::run_log;
use etp::src_mgr::SourceManager;

const SIMPLE_LOG: &str = "\
# mod test
proc main (0)
noop
end
[TRACE executor] in test::main (ctx)
[TRACE executor] executed `noop` of `noop` (cycle 1/1)
[TRACE executor] stack state: [0, 0]
";

fn run_engine(log: &str, entry: Option<&str>) -> (Engine, Result<RunEnd, RunError>) {
    let (blocks, trace) = parse_trace(log).expect("parse");
    let srcs = SourceManager::new(blocks);
    let mut eng = Engine::new(srcs, trace);
    let entry = entry.map(String::from);
    let end = eng.run(&entry, 1_000_000);
    (eng, end)
}

#[test]
fn single_instruction_run_to_completion() {
    let (lines, _) = run_log(SIMPLE_LOG, &Some(String::from("main")), 1_000_000).expect("run");
    assert_eq!(
        lines,
        vec![
            String::from("ENTRY AT test::main"),
            format!("    noop{}[ 0 0 ]", " ".repeat(32)),
            String::from("RETURNED FROM ENTRY POINT"),
            String::from(""),
            String::from("END OF TRACE"),
        ]
    );
}

#[test]
fn sentinel_is_the_last_frame_popped() {
    let (eng, end) = run_engine(SIMPLE_LOG, Some("main"));
    assert!(matches!(end, Ok(RunEnd::EntryReturned)));
    // Only the sentinel remained when the final pop ended the run.
    assert_eq!(eng.srcs.call_stack.len(), 0);
    assert!(matches!(eng.events.last(), Some(Event::EndOfTrace)));
}

const SKIP_LOG: &str = "\
# mod test
proc main (0)
noop
exec.#$test::missing
noop
end
[TRACE executor] in test::main (a)
[TRACE executor] executed `noop` of `noop` (cycle 1/1)
[TRACE executor] stack state: [7, 0]
[TRACE executor] in test::missing (b)
[TRACE executor] executed `push.9` of `push.9` (cycle 1/1)
[TRACE executor] stack state: [9, 7]
[TRACE executor] in _ZN4test4mainE (c)
[TRACE executor] executed `noop` of `noop` (cycle 1/1)
[TRACE executor] stack state: [7, 0]
";

#[test]
fn unknown_callee_is_skipped_until_control_returns() {
    let (eng, end) = run_engine(SKIP_LOG, Some("main"));
    assert!(matches!(end, Ok(RunEnd::EntryReturned)));
    // The skip annotation was emitted, the flag cleared, and matching
    // resumed at the event whose demangled owner is main again.
    assert!(!eng.pending_trace_skip);
    assert_eq!(eng.trace_idx, 3);
    let kinds: Vec<&'static str> = eng
        .events
        .iter()
        .map(|e| match e {
            Event::EntryAt { .. } => "entry",
            Event::Instruction { .. } => "insn",
            Event::CallOp { .. } => "call",
            Event::Skipping { .. } => "skip",
            Event::ReturnedFromEntry => "returned",
            Event::EndOfTrace => "end",
            _ => "other",
        })
        .collect();
    assert_eq!(
        kinds,
        vec!["entry", "insn", "call", "skip", "insn", "returned", "end"]
    );
}

fn branch_log(pushed: u64, armop: &str) -> String {
    format!(
        "\
# mod t
proc main (0)
push.{pushed}
if.true
add
else
sub
end
end
[TRACE executor] in t::main (a)
[TRACE executor] executed `push.{pushed}` of `push.{pushed}` (cycle 1/1)
[TRACE executor] stack state: [{pushed}, 0]
[TRACE executor] in t::main (a)
[TRACE executor] executed `{armop}` of `{armop}` (cycle 1/1)
[TRACE executor] stack state: [3, 0]
"
    )
}

#[test]
fn nonzero_prior_top_selects_the_true_arm() {
    let (eng, end) = run_engine(&branch_log(1, "add"), Some("main"));
    assert!(matches!(end, Ok(RunEnd::EntryReturned)));
    assert!(eng
        .events
        .iter()
        .any(|e| matches!(e, Event::CondEnter { taken_true: true, .. })));
    assert!(eng
        .events
        .iter()
        .any(|e| matches!(e, Event::TrueArmEnd { .. })));
}

#[test]
fn zero_prior_top_selects_the_false_arm() {
    let (eng, end) = run_engine(&branch_log(0, "sub"), Some("main"));
    assert!(matches!(end, Ok(RunEnd::EntryReturned)));
    assert!(eng
        .events
        .iter()
        .any(|e| matches!(e, Event::CondEnter { taken_true: false, .. })));
    assert!(eng
        .events
        .iter()
        .any(|e| matches!(e, Event::FalseArmEnd { .. })));
}

#[test]
fn entry_suffix_must_match_exactly_one_block() {
    let (_, end) = run_engine(SIMPLE_LOG, Some("nosuch"));
    assert!(matches!(end, Err(RunError::EntryNotFound { .. })));
}

#[test]
fn ambiguous_entry_suffix_is_rejected() {
    let log = "\
# mod m
proc amain (0)
noop
end
proc bmain (0)
noop
end
[TRACE executor] in m::amain (a)
[TRACE executor] executed `noop` of `noop` (cycle 1/1)
[TRACE executor] stack state: [0]
";
    let (_, end) = run_engine(log, Some("main"));
    assert!(matches!(end, Err(RunError::EntryAmbiguous { .. })));
}

#[test]
fn default_entry_wants_a_run_or_init_symbol() {
    let log = "\
# mod t
proc other (0)
noop
end
[TRACE executor] in t::other (a)
[TRACE executor] executed `noop` of `noop` (cycle 1/1)
[TRACE executor] stack state: [0]
";
    let (_, end) = run_engine(log, None);
    assert!(matches!(end, Err(RunError::NoDefaultEntry)));
}

#[test]
fn default_entry_substitutes_run_for_init() {
    let log = "\
# mod t
proc run (0)
noop
end
[TRACE executor] in t::init (a)
[TRACE executor] executed `noop` of `noop` (cycle 1/1)
[TRACE executor] stack state: [0]
";
    let (lines, _) = run_log(log, &None, 1_000_000).expect("run");
    assert_eq!(lines[0], "ENTRY AT t::run");
    assert_eq!(lines.last().unwrap(), "END OF TRACE");
}

#[test]
fn desynchronization_is_fatal_with_both_sides_reported() {
    let log = "\
# mod t
proc main (0)
foo
end
[TRACE executor] in t::main (a)
[TRACE executor] executed `bar` of `bar` (cycle 1/1)
[TRACE executor] stack state: [0]
";
    let (_, end) = run_engine(log, Some("main"));
    match end {
        Err(RunError::Mismatch {
            src_opcode,
            trace_opcode,
            ..
        }) => {
            assert_eq!(src_opcode, "foo");
            assert_eq!(trace_opcode, "bar");
        }
        other => panic!("expected a mismatch, got {:?}", other.map(|_| ())),
    }
}

#[test]
fn trace_ending_inside_a_skip_is_fatal() {
    let log = "\
# mod test
proc main (0)
noop
exec.#$test::missing
noop
end
[TRACE executor] in test::main (a)
[TRACE executor] executed `noop` of `noop` (cycle 1/1)
[TRACE executor] stack state: [7, 0]
[TRACE executor] in test::missing (b)
[TRACE executor] executed `push.9` of `push.9` (cycle 1/1)
[TRACE executor] stack state: [9, 7]
";
    let (_, end) = run_engine(log, Some("main"));
    assert!(matches!(end, Err(RunError::TraceEndedDuringSkip)));
}

#[test]
fn micro_steps_are_passed_over() {
    let log = "\
# mod test
proc main (0)
noop
end
[TRACE executor] in test::main (a)
[TRACE executor] executed `half` of `half` (cycle 1/2)
[TRACE executor] stack state: [0]
[TRACE executor] in test::main (a)
[TRACE executor] executed `noop` of `noop` (cycle 1/1)
[TRACE executor] stack state: [0, 0]
";
    let (eng, end) = run_engine(log, Some("main"));
    assert!(matches!(end, Ok(RunEnd::EntryReturned)));
    let insns = eng
        .events
        .iter()
        .filter(|e| matches!(e, Event::Instruction { .. }))
        .count();
    assert_eq!(insns, 1);
}

#[test]
fn source_only_trace_ops_are_stepped_over() {
    let log = "\
# mod test
proc main (0)
trace.1
noop
end
[TRACE executor] in test::main (a)
[TRACE executor] executed `noop` of `noop` (cycle 1/1)
[TRACE executor] stack state: [0, 0]
";
    let (eng, end) = run_engine(log, Some("main"));
    assert!(matches!(end, Ok(RunEnd::EntryReturned)));
    let insns = eng
        .events
        .iter()
        .filter(|e| matches!(e, Event::Instruction { .. }))
        .count();
    assert_eq!(insns, 1);
}

#[test]
fn hidden_callees_found_in_source_are_skipped_without_trace_scan() {
    let log = "\
# mod test
proc __setup (0)
noop
end
proc main (0)
exec.#$test::__setup
noop
end
[TRACE executor] in test::main (a)
[TRACE executor] executed `noop` of `noop` (cycle 1/1)
[TRACE executor] stack state: [0, 0]
";
    let (eng, end) = run_engine(log, Some("main"));
    assert!(matches!(end, Ok(RunEnd::EntryReturned)));
    assert!(eng
        .events
        .iter()
        .any(|e| matches!(e, Event::Skipping { .. })));
    assert!(!eng
        .events
        .iter()
        .any(|e| matches!(e, Event::EnterFunc { .. })));
}

#[test]
fn known_callees_are_entered_and_returned_from() {
    let log = "\
# mod test
proc helper (0)
noop
end
proc main (0)
exec.#$test::helper
noop
end
[TRACE executor] in test::main (a)
[TRACE executor] executed `noop` of `noop` (cycle 1/1)
[TRACE executor] stack state: [1, 0]
[TRACE executor] in test::main (a)
[TRACE executor] executed `noop` of `noop` (cycle 1/1)
[TRACE executor] stack state: [1, 0]
";
    let (eng, end) = run_engine(log, Some("main"));
    assert!(matches!(end, Ok(RunEnd::EntryReturned)));
    assert!(eng.events.iter().any(
        |e| matches!(e, Event::EnterFunc { name } if name == "test::helper")
    ));
    assert!(eng.events.iter().any(
        |e| matches!(e, Event::ReturnToFunc { name } if name == "test::main")
    ));
}

#[test]
fn memory_traffic_feeds_the_shadow_and_warns_on_mismatch() {
    let log = "\
# mod t
proc main (0)
push.5
mem_store.64
push.9
mem_load.64
end
[TRACE executor] in t::main (a)
[TRACE executor] executed `push.5` of `push.5` (cycle 1/1)
[TRACE executor] stack state: [5, 0]
[TRACE executor] in t::main (a)
[TRACE executor] executed `mem_store.64` of `mem_store.64` (cycle 1/1)
[TRACE executor] stack state: [0, 0]
[TRACE executor] in t::main (a)
[TRACE executor] executed `push.9` of `push.9` (cycle 1/1)
[TRACE executor] stack state: [9, 0]
[TRACE executor] in t::main (a)
[TRACE executor] executed `mem_load.64` of `mem_load.64` (cycle 1/1)
[TRACE executor] stack state: [9, 0]
";
    let (eng, end) = run_engine(log, Some("main"));
    assert!(matches!(end, Ok(RunEnd::EntryReturned)));
    // The store recorded 5 at address 64; the load observed 9 there, which
    // warns once and leaves the recorded value alone.
    assert!(eng.events.iter().any(|e| matches!(
        e,
        Event::MemWarning {
            addr: 64,
            expected: 9,
            found: 5
        }
    )));
    assert_eq!(eng.mem.lookup(64), Some(5));
    // The matched memory ops owe dumps of the surrounding shadow words.
    assert!(eng
        .events
        .iter()
        .any(|e| matches!(e, Event::MemDump { .. })));
}

#[test]
fn an_event_with_an_empty_stack_is_fatal_where_a_top_is_needed() {
    let log = "\
# mod t
proc main (0)
noop
end
[TRACE executor] in t::main (a)
[TRACE executor] executed `noop` of `noop` (cycle 1/1)
[TRACE executor] stack state: [ ]
";
    let (_, end) = run_engine(log, Some("main"));
    assert!(matches!(end, Err(RunError::EmptyStackEvent { index: 0 })));
}

#[test]
fn a_zero_step_allowance_runs_out_of_fuel() {
    let (blocks, trace) = parse_trace(SIMPLE_LOG).expect("parse");
    let srcs = SourceManager::new(blocks);
    let mut eng = Engine::new(srcs, trace);
    let end = eng.run(&Some(String::from("main")), 0);
    assert!(matches!(end, Err(RunError::OutOfFuel)));
}

#[test]
fn an_undecodable_symbol_met_while_skipping_is_fatal() {
    let log = "\
# mod test
proc main (0)
noop
exec.#$test::missing
noop
end
[TRACE executor] in test::main (a)
[TRACE executor] executed `noop` of `noop` (cycle 1/1)
[TRACE executor] stack state: [7, 0]
[TRACE executor] in test::missing (b)
[TRACE executor] executed `push.9` of `push.9` (cycle 1/1)
[TRACE executor] stack state: [9, 7]
[TRACE executor] in _Zbroken (c)
[TRACE executor] executed `noop` of `noop` (cycle 1/1)
[TRACE executor] stack state: [7, 0]
";
    let (_, end) = run_engine(log, Some("main"));
    assert!(matches!(end, Err(RunError::BadSymbol { .. })));
}

#[test]
fn a_call_op_without_its_callee_argument_is_fatal() {
    let log = "\
# mod t
proc main (0)
exec
end
[TRACE executor] in t::main (a)
[TRACE executor] executed `bar` of `bar` (cycle 1/1)
[TRACE executor] stack state: [0]
";
    let (_, end) = run_engine(log, Some("main"));
    assert!(matches!(end, Err(RunError::CallMissingArg { .. })));
}
