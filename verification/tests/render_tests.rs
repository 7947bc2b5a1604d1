use etp::engine::Event;
use etp::render::{render_event, render_op};

#[test]
fn op_line_pads_the_stack_to_its_column() {
    let lines = render_op("noop", None, Some(&vec![0, 0]), 4);
    assert_eq!(lines, vec![format!("    noop{}[ 0 0 ]", " ".repeat(32))]);
}

#[test]
fn large_values_render_as_hex_and_zero_tails_are_elided() {
    let arg = String::from("1");
    let lines = render_op("push", Some(&arg), Some(&vec![0x1234, 5, 0, 0, 0]), 4);
    assert_eq!(
        lines,
        vec![format!("    push.1{}[ 1234h 5 0 0 ... ]", " ".repeat(30))]
    );
}

#[test]
fn overlong_op_text_moves_the_stack_to_its_own_line() {
    let arg = String::from("a_rather_long_symbolic_argument_name_here");
    let lines = render_op("exec", Some(&arg), Some(&vec![1]), 0);
    assert_eq!(lines.len(), 2);
    assert_eq!(lines[0], "exec.a_rather_long_symbolic_argument_name_here");
    assert_eq!(lines[1], format!("{}[ 1 ]", " ".repeat(40)));
}

#[test]
fn memory_warning_lines() {
    let e = Event::MemWarning {
        addr: 31,
        expected: 256,
        found: 10,
    };
    assert_eq!(
        render_event(&e),
        vec![
            String::from("WARNING: memory mismatch at addr 1f:"),
            String::from("  Expecting 100, found a"),
        ]
    );
}

#[test]
fn memory_dump_lines() {
    let e = Event::MemDump {
        base: 4,
        words: vec![Some(1), None, Some(0xff), None],
    };
    let lines = render_event(&e);
    assert_eq!(lines.len(), 3);
    assert_eq!(lines[0], "");
    assert_eq!(
        lines[1],
        "| 00000004:  0000000000000001  ???????????????? 00000000000000ff  ???????????????? |"
    );
    assert_eq!(lines[2], "");
}

#[test]
fn branch_markers() {
    let taken = Event::CondEnter {
        taken_true: true,
        indent: 4,
    };
    assert_eq!(render_event(&taken), vec![String::from("    if.true")]);
    let skipped = Event::CondEnter {
        taken_true: false,
        indent: 4,
    };
    assert_eq!(
        render_event(&skipped),
        vec![
            String::from("    if.true"),
            String::from("        (SKIPPING)"),
            String::from("    else"),
        ]
    );
    let true_end = Event::TrueArmEnd { indent: 4 };
    assert_eq!(
        render_event(&true_end),
        vec![
            String::from("    else"),
            String::from("        (SKIPPING)"),
            String::from("    end"),
        ]
    );
    let false_end = Event::FalseArmEnd { indent: 4 };
    assert_eq!(render_event(&false_end), vec![String::from("    end")]);
}

#[test]
fn banners() {
    let enter = Event::EnterFunc {
        name: String::from("test::helper"),
    };
    assert_eq!(
        render_event(&enter),
        vec![String::from(""), String::from("ENTERING test::helper {{{")]
    );
    let ret = Event::ReturnToFunc {
        name: String::from("test::main"),
    };
    assert_eq!(
        render_event(&ret),
        vec![String::from("RETURN TO test::main }}}"), String::from("")]
    );
}
