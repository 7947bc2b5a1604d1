use vstd::prelude::*;

use crate::demangle::{dec_digits, digit_char};
use crate::engine::Event;

verus! {

/// The column where an instruction line's stack snapshot starts.
pub const STACK_INDENT_OFFS: usize = 40;

/// The lines of a rendered block of text, each as its character sequence.
pub open spec fn line_views(v: Seq<String>) -> Seq<Seq<char>> {
    Seq::new(v.len(), |i: int| v[i]@)
}

pub open spec fn spaces_seq(n: nat) -> Seq<char> {
    Seq::new(n, |i| ' ')
}

pub open spec fn zeros_seq(n: nat) -> Seq<char> {
    Seq::new(n, |i| '0')
}

pub open spec fn hex_char(d: nat) -> char {
    if d < 10 {
        digit_char(d)
    } else if d == 10 {
        'a'
    } else if d == 11 {
        'b'
    } else if d == 12 {
        'c'
    } else if d == 13 {
        'd'
    } else if d == 14 {
        'e'
    } else {
        'f'
    }
}

/// The hexadecimal digits of `n`, most significant first, lower case.
pub open spec fn hex_digits(n: nat) -> Seq<char>
    decreases n,
{
    if n < 16 {
        seq![hex_char(n)]
    } else {
        hex_digits(n / 16) + seq![hex_char(n % 16)]
    }
}

/// `n` in hexadecimal, left-padded with zeros to at least `w` digits.
pub open spec fn padded_hex(n: nat, w: nat) -> Seq<char> {
    if hex_digits(n).len() >= w {
        hex_digits(n)
    } else {
        zeros_seq((w - hex_digits(n).len()) as nat) + hex_digits(n)
    }
}

/// How a stack value is shown: small values in decimal, larger ones in
/// hexadecimal with a trailing `h`.
pub open spec fn item_chars(v: u64) -> Seq<char> {
    if v < 256 {
        dec_digits(v as nat)
    } else {
        hex_digits(v as nat) + seq!['h']
    }
}

/// The first `k` stack values rendered in order, each preceded by a space.
pub open spec fn items_prefix(s: Seq<u64>, k: int) -> Seq<char>
    decreases k,
{
    if k <= 0 {
        Seq::empty()
    } else {
        items_prefix(s, k - 1) + seq![' '] + item_chars(s[k - 1])
    }
}

/// The number of zero values at the tail of the stack.
pub open spec fn trailing_zeros(s: Seq<u64>) -> nat
    decreases s.len(),
{
    if s.len() == 0 {
        0
    } else if s.last() != 0 {
        0
    } else {
        1 + trailing_zeros(s.drop_last())
    }
}

/// How many stack values are shown: the leading region up to the trailing
/// zeros, plus two of them, capped at the whole stack.
pub open spec fn shown_count(s: Seq<u64>) -> int {
    if s.len() + 2 - trailing_zeros(s) < s.len() {
        s.len() + 2 - trailing_zeros(s)
    } else {
        s.len() as int
    }
}

/// The bracketed rendering of an operand stack, with an ellipsis when its
/// zero tail was truncated.
pub open spec fn stack_text(s: Seq<u64>) -> Seq<char> {
    seq!['['] + items_prefix(s, shown_count(s)) + (if shown_count(s) < s.len() {
        " ..."@
    } else {
        Seq::empty()
    }) + seq![' ', ']']
}

/// An op as printed: indentation, the opcode, and a dot-joined argument.
pub open spec fn op_text(indent: nat, opcode: Seq<char>, arg: Option<Seq<char>>) -> Seq<char> {
    spaces_seq(indent) + opcode + (match arg {
        Some(a) => seq!['.'] + a,
        None => Seq::empty(),
    })
}

/// The line or two lines of one resolved op: with a stack, the snapshot is
/// padded out to its column, or moved to its own line when the op text
/// already runs past it.
pub open spec fn op_lines(
    indent: nat,
    opcode: Seq<char>,
    arg: Option<Seq<char>>,
    stack: Option<Seq<u64>>,
) -> Seq<Seq<char>> {
    let t = op_text(indent, opcode, arg);
    match stack {
        None => seq![t],
        Some(s) => if t.len() >= STACK_INDENT_OFFS {
            seq![t, spaces_seq(STACK_INDENT_OFFS as nat) + stack_text(s)]
        } else {
            seq![t + spaces_seq((STACK_INDENT_OFFS - t.len()) as nat) + stack_text(s)]
        },
    }
}

/// One word of a memory dump: the shadow value zero-padded to sixteen hex
/// digits, or question marks where nothing is recorded.
pub open spec fn dump_word(w: Option<u64>) -> Seq<char> {
    match w {
        Some(v) => seq![' '] + padded_hex(v as nat, 16),
        None => "  ????????????????"@,
    }
}

pub open spec fn dump_words_text(ws: Seq<Option<u64>>, k: int) -> Seq<char>
    decreases k,
{
    if k <= 0 {
        Seq::empty()
    } else {
        dump_words_text(ws, k - 1) + dump_word(ws[k - 1])
    }
}

/// The lines an event prints: banners for entries and returns, indented op
/// and skip lines, branch markers, memory warnings and dumps, and the
/// closing marker.
pub open spec fn event_lines(e: Event) -> Seq<Seq<char>> {
    match e {
        Event::EntryAt { name } => seq!["ENTRY AT "@ + name@],
        Event::Instruction { opcode, arg, stack, indent } => op_lines(
            indent as nat,
            opcode@,
            match arg {
                Some(a) => Some(a@),
                None => None,
            },
            Some(stack@),
        ),
        Event::CallOp { opcode, arg, indent } => op_lines(
            indent as nat,
            opcode@,
            match arg {
                Some(a) => Some(a@),
                None => None,
            },
            None,
        ),
        Event::EnterFunc { name } => seq![Seq::empty(), "ENTERING "@ + name@ + " {{{"@],
        Event::ReturnToFunc { name } => seq!["RETURN TO "@ + name@ + " }}}"@, Seq::empty()],
        Event::ReturnedFromEntry => seq!["RETURNED FROM ENTRY POINT"@],
        Event::Skipping { indent } => seq![spaces_seq(indent as nat) + "(SKIPPING)"@],
        Event::CondEnter { taken_true, indent } => if taken_true {
            seq![spaces_seq(indent as nat) + "if.true"@]
        } else {
            seq![
                spaces_seq(indent as nat) + "if.true"@,
                spaces_seq(indent as nat + 4) + "(SKIPPING)"@,
                spaces_seq(indent as nat) + "else"@,
            ]
        },
        Event::TrueArmEnd { indent } => seq![
            spaces_seq(indent as nat) + "else"@,
            spaces_seq(indent as nat + 4) + "(SKIPPING)"@,
            spaces_seq(indent as nat) + "end"@,
        ],
        Event::FalseArmEnd { indent } => seq![spaces_seq(indent as nat) + "end"@],
        Event::MemWarning { addr, expected, found } => seq![
            "WARNING: memory mismatch at addr "@ + hex_digits(addr as nat) + ":"@,
            "  Expecting "@ + hex_digits(expected as nat) + ", found "@ + hex_digits(
                found as nat,
            ),
        ],
        Event::MemDump { base, words } => seq![
            Seq::empty(),
            "| "@ + padded_hex(base as nat, 8) + ": "@ + dump_words_text(
                words@,
                words@.len() as int,
            ) + " |"@,
            Seq::empty(),
        ],
        Event::EndOfTrace => seq![Seq::empty(), "END OF TRACE"@],
    }
}

/// The lines of a whole event sequence, in emission order.
pub open spec fn lines_of_events(evs: Seq<Event>) -> Seq<Seq<char>>
    decreases evs.len(),
{
    if evs.len() == 0 {
        Seq::empty()
    } else {
        lines_of_events(evs.drop_last()) + event_lines(evs.last())
    }
}

/// Appends the decimal digits of `n`.
fn push_dec(n: u64, out: &mut String)
    ensures
        final(out)@ == old(out)@ + dec_digits(n as nat),
    decreases n,
{
    if n >= 10 {
        push_dec(n / 10, out);
    }
    let d = n % 10;
    proof {
        reveal_strlit("0");
        reveal_strlit("1");
        reveal_strlit("2");
        reveal_strlit("3");
        reveal_strlit("4");
        reveal_strlit("5");
        reveal_strlit("6");
        reveal_strlit("7");
        reveal_strlit("8");
        reveal_strlit("9");
    }
    match d {
        0 => out.append("0"),
        1 => out.append("1"),
        2 => out.append("2"),
        3 => out.append("3"),
        4 => out.append("4"),
        5 => out.append("5"),
        6 => out.append("6"),
        7 => out.append("7"),
        8 => out.append("8"),
        _ => out.append("9"),
    }
    proof {
        assert(seq![digit_char(n as nat % 10)] =~= dec_digits(n as nat).subrange(
            dec_digits(n as nat).len() - 1,
            dec_digits(n as nat).len() as int,
        ));
        if n < 10 {
            assert(dec_digits(n as nat) =~= seq![digit_char(n as nat)]);
            assert(final(out)@ =~= old(out)@ + dec_digits(n as nat));
        } else {
            assert(dec_digits(n as nat) == dec_digits(n as nat / 10) + seq![
                digit_char(n as nat % 10),
            ]);
            assert(final(out)@ =~= old(out)@ + dec_digits(n as nat));
        }
    }
}

/// Appends the lower-case hexadecimal digits of `n`.
fn push_hex(n: u64, out: &mut String)
    ensures
        final(out)@ == old(out)@ + hex_digits(n as nat),
    decreases n,
{
    if n >= 16 {
        push_hex(n / 16, out);
    }
    let d = n % 16;
    proof {
        reveal_strlit("0");
        reveal_strlit("1");
        reveal_strlit("2");
        reveal_strlit("3");
        reveal_strlit("4");
        reveal_strlit("5");
        reveal_strlit("6");
        reveal_strlit("7");
        reveal_strlit("8");
        reveal_strlit("9");
        reveal_strlit("a");
        reveal_strlit("b");
        reveal_strlit("c");
        reveal_strlit("d");
        reveal_strlit("e");
        reveal_strlit("f");
    }
    match d {
        0 => out.append("0"),
        1 => out.append("1"),
        2 => out.append("2"),
        3 => out.append("3"),
        4 => out.append("4"),
        5 => out.append("5"),
        6 => out.append("6"),
        7 => out.append("7"),
        8 => out.append("8"),
        9 => out.append("9"),
        10 => out.append("a"),
        11 => out.append("b"),
        12 => out.append("c"),
        13 => out.append("d"),
        14 => out.append("e"),
        _ => out.append("f"),
    }
    proof {
        if n < 16 {
            assert(hex_digits(n as nat) =~= seq![hex_char(n as nat)]);
            assert(final(out)@ =~= old(out)@ + hex_digits(n as nat));
        } else {
            assert(hex_digits(n as nat) == hex_digits(n as nat / 16) + seq![
                hex_char(n as nat % 16),
            ]);
            assert(final(out)@ =~= old(out)@ + hex_digits(n as nat));
        }
    }
}

/// Appends the hexadecimal digits of `n`, left-padded with zeros to at least
/// `w` digits.
fn push_padded_hex(n: u64, w: usize, out: &mut String)
    ensures
        final(out)@ == old(out)@ + padded_hex(n as nat, w as nat),
{
    let mut digits = String::new();
    push_hex(n, &mut digits);
    let len = digits.as_str().unicode_len();
    let mut pad: usize = 0;
    proof {
        reveal_strlit("0");
    }
    while pad + len < w
        invariant
            len == hex_digits(n as nat).len(),
            out@ == old(out)@ + zeros_seq(pad as nat),
            pad + len <= w || pad == 0,
        decreases w - pad,
    {
        out.append("0");
        proof {
            reveal_strlit("0");
            assert(out@ =~= old(out)@ + zeros_seq((pad + 1) as nat));
        }
        pad = pad + 1;
    }
    out.append(digits.as_str());
    proof {
        if hex_digits(n as nat).len() >= w {
            assert(zeros_seq(0) =~= Seq::<char>::empty());
            assert(final(out)@ =~= old(out)@ + padded_hex(n as nat, w as nat));
        } else {
            assert(pad + len == w);
            assert(final(out)@ =~= old(out)@ + padded_hex(n as nat, w as nat));
        }
    }
}

/// Appends `count` spaces.
fn push_spaces(count: usize, out: &mut String)
    ensures
        final(out)@ == old(out)@ + spaces_seq(count as nat),
{
    let s = crate::spaces(count);
    out.append(s.as_str());
    proof {
        assert(s@ =~= spaces_seq(count as nat));
    }
}

/// Renders one stack value as printed: decimal below 256, hexadecimal with a
/// trailing `h` above.
fn push_item(v: u64, out: &mut String)
    ensures
        final(out)@ == old(out)@ + item_chars(v),
{
    if v < 256 {
        push_dec(v, out);
    } else {
        push_hex(v, out);
        proof {
            reveal_strlit("h");
        }
        out.append("h");
        proof {
            assert(final(out)@ =~= old(out)@ + item_chars(v));
        }
    }
}

/// Renders the line (or two) of one resolved op, with its operand stack when
/// one was recorded.
pub fn render_op(opcode: &str, arg: Option<&String>, stack: Option<&Vec<u64>>, indent: usize) -> (r:
    Vec<String>)
    ensures
        line_views(r@) == op_lines(
            indent as nat,
            opcode@,
            match arg {
                Some(a) => Some(a@),
                None => None,
            },
            match stack {
                Some(s) => Some(s@),
                None => None,
            },
        ),
{
    let ghost spec_arg = (match arg {
        Some(a) => Some(a@),
        None => None,
    });
    let ghost spec_stack = (match stack {
        Some(st) => Some(st@),
        None => None,
    });
    let mut text = String::new();
    push_spaces(indent, &mut text);
    text.append(opcode);
    match arg {
        Some(a) => {
            proof {
                reveal_strlit(".");
            }
            text.append(".");
            text.append(a.as_str());
            proof {
                assert(text@ =~= op_text(
                    indent as nat,
                    opcode@,
                    Some(a@),
                ));
            }
        },
        None => {
            proof {
                assert(text@ =~= op_text(indent as nat, opcode@, None::<Seq<char>>));
            }
        },
    }
    let mut lines: Vec<String> = Vec::new();
    match stack {
        None => {
            lines.push(text);
        },
        Some(s) => {
            let tlen = text.as_str().unicode_len();
            let mut line: String;
            if tlen >= STACK_INDENT_OFFS {
                lines.push(text);
                line = String::new();
                push_spaces(STACK_INDENT_OFFS, &mut line);
            } else {
                line = text;
                push_spaces(STACK_INDENT_OFFS - tlen, &mut line);
            }
            push_stack(s, &mut line);
            lines.push(line);
        },
    }
    proof {
        assert(line_views(lines@) =~= op_lines(indent as nat, opcode@, spec_arg, spec_stack));
    }
    lines
}

/// Appends the bracketed rendering of an operand stack.
fn push_stack(s: &Vec<u64>, out: &mut String)
    ensures
        final(out)@ == old(out)@ + stack_text(s@),
{
    let len = s.len();
    let tz = count_trailing_zeros(s);
    let shown: usize = if tz >= 2 {
        len - (tz - 2)
    } else {
        len
    };
    proof {
        assert(shown as int == shown_count(s@));
    }
    proof {
        reveal_strlit("[");
        reveal_strlit(" ...");
        reveal_strlit(" ]");
        reveal_strlit(" ");
        assert("["@ =~= seq!['[']);
        assert(" ]"@ =~= seq![' ', ']']);
        assert(" "@ =~= seq![' ']);
    }
    out.append("[");
    let mut i: usize = 0;
    while i < shown
        invariant
            shown <= s@.len(),
            i <= shown,
            out@ == old(out)@ + stack_text(s@).subrange(0, 1) + items_prefix(s@, i as int),
        decreases shown - i,
    {
        proof {
            reveal_strlit(" ");
        }
        out.append(" ");
        push_item(s[i], out);
        proof {
            assert(out@ =~= old(out)@ + stack_text(s@).subrange(0, 1) + items_prefix(
                s@,
                i + 1,
            ));
        }
        i = i + 1;
    }
    if shown < len {
        out.append(" ...");
    }
    out.append(" ]");
    proof {
        assert(stack_text(s@).subrange(0, 1) =~= seq!['[']);
        assert(final(out)@ =~= old(out)@ + stack_text(s@));
    }
}

/// The number of zero values at the tail of the stack.
fn count_trailing_zeros(s: &Vec<u64>) -> (r: usize)
    ensures
        r == trailing_zeros(s@),
        r <= s@.len(),
{
    let len = s.len();
    let mut i: usize = 0;
    proof {
        lemma_trailing_zeros_le(s@);
        assert(s@.take(len as int) =~= s@);
    }
    while i < len && s[len - 1 - i] == 0
        invariant
            len == s@.len(),
            i <= len,
            trailing_zeros(s@) == i + trailing_zeros(s@.take(len - i)),
        decreases len - i,
    {
        proof {
            let t = s@.take(len - i);
            assert(t.last() == s@[len - 1 - i]);
            assert(t.drop_last() =~= s@.take(len - (i + 1)));
            lemma_trailing_zeros_le(s@);
        }
        i = i + 1;
    }
    proof {
        if i < len {
            let t = s@.take(len - i);
            assert(t.last() == s@[len - 1 - i]);
            assert(trailing_zeros(t) == 0);
        } else {
            assert(s@.take(0) =~= Seq::<u64>::empty());
        }
    }
    i
}

proof fn lemma_trailing_zeros_le(s: Seq<u64>)
    ensures
        trailing_zeros(s) <= s.len(),
    decreases s.len(),
{
    if s.len() > 0 && s.last() == 0 {
        lemma_trailing_zeros_le(s.drop_last());
    }
}

/// Renders one event as its printed lines.
pub fn render_event(e: &Event) -> (r: Vec<String>)
    ensures
        line_views(r@) == event_lines(*e),
{
    let mut lines: Vec<String> = Vec::new();
    match e {
        Event::EntryAt { name } => {
            let mut l = String::from_str("ENTRY AT ");
            l.append(name.as_str());
            lines.push(l);
        },
        Event::Instruction { opcode, arg, stack, indent } => {
            let a: Option<&String> = match arg {
                Some(x) => Some(x),
                None => None,
            };
            let rr = render_op(opcode.as_str(), a, Some(stack), *indent);
            proof {
                let ghost_arg = (match a {
                    Some(x) => Some(x@),
                    None => None,
                });
                let oplines = op_lines(*indent as nat, opcode@, ghost_arg, Some(stack@));
                assert(event_lines(*e) == oplines);
                assert(line_views(rr@) == oplines);
            }
            return rr;
        },
        Event::CallOp { opcode, arg, indent } => {
            let a: Option<&String> = match arg {
                Some(x) => Some(x),
                None => None,
            };
            let rr = render_op(opcode.as_str(), a, None, *indent);
            proof {
                let ghost_arg = (match a {
                    Some(x) => Some(x@),
                    None => None,
                });
                let oplines = op_lines(*indent as nat, opcode@, ghost_arg, None::<Seq<u64>>);
                assert(event_lines(*e) == oplines);
                assert(line_views(rr@) == oplines);
            }
            return rr;
        },
        Event::EnterFunc { name } => {
            lines.push(String::new());
            let mut l = String::from_str("ENTERING ");
            l.append(name.as_str());
            l.append(" {{{");
            lines.push(l);
        },
        Event::ReturnToFunc { name } => {
            let mut l = String::from_str("RETURN TO ");
            l.append(name.as_str());
            l.append(" }}}");
            lines.push(l);
            lines.push(String::new());
        },
        Event::ReturnedFromEntry => {
            lines.push(String::from_str("RETURNED FROM ENTRY POINT"));
        },
        Event::Skipping { indent } => {
            let mut l = String::new();
            push_spaces(*indent, &mut l);
            l.append("(SKIPPING)");
            lines.push(l);
        },
        Event::CondEnter { taken_true, indent } => {
            let mut l = String::new();
            push_spaces(*indent, &mut l);
            l.append("if.true");
            lines.push(l);
            if !*taken_true {
                let mut l2 = String::new();
                push_spaces(*indent, &mut l2);
                push_spaces(4, &mut l2);
                proof {
                    assert(l2@ =~= spaces_seq(*indent as nat + 4));
                }
                l2.append("(SKIPPING)");
                lines.push(l2);
                let mut l3 = String::new();
                push_spaces(*indent, &mut l3);
                l3.append("else");
                lines.push(l3);
            }
        },
        Event::TrueArmEnd { indent } => {
            let mut l = String::new();
            push_spaces(*indent, &mut l);
            l.append("else");
            lines.push(l);
            let mut l2 = String::new();
            push_spaces(*indent, &mut l2);
            push_spaces(4, &mut l2);
            proof {
                assert(l2@ =~= spaces_seq(*indent as nat + 4));
            }
            l2.append("(SKIPPING)");
            lines.push(l2);
            let mut l3 = String::new();
            push_spaces(*indent, &mut l3);
            l3.append("end");
            lines.push(l3);
        },
        Event::FalseArmEnd { indent } => {
            let mut l = String::new();
            push_spaces(*indent, &mut l);
            l.append("end");
            lines.push(l);
        },
        Event::MemWarning { addr, expected, found } => {
            let mut l = String::from_str("WARNING: memory mismatch at addr ");
            push_hex(*addr, &mut l);
            l.append(":");
            lines.push(l);
            let mut l2 = String::from_str("  Expecting ");
            push_hex(*expected, &mut l2);
            l2.append(", found ");
            push_hex(*found, &mut l2);
            lines.push(l2);
        },
        Event::MemDump { base, words } => {
            lines.push(String::new());
            let mut l = String::from_str("| ");
            push_padded_hex(*base, 8, &mut l);
            l.append(": ");
            proof {
                assert(l@ =~= "| "@ + padded_hex(*base as nat, 8) + ": "@ + dump_words_text(
                    words@,
                    0int,
                ));
            }
            let mut i: usize = 0;
            while i < words.len()
                invariant
                    l@ == "| "@ + padded_hex(base as nat, 8) + ": "@ + dump_words_text(
                        words@,
                        i as int,
                    ),
                    i <= words@.len(),
                decreases words@.len() - i,
            {
                match words[i] {
                    Some(v) => {
                        proof {
                            reveal_strlit(" ");
                            assert(" "@ =~= seq![' ']);
                        }
                        l.append(" ");
                        push_padded_hex(v, 16, &mut l);
                    },
                    None => {
                        l.append("  ????????????????");
                    },
                }
                proof {
                    assert(l@ =~= "| "@ + padded_hex(base as nat, 8) + ": "@ + dump_words_text(
                        words@,
                        i + 1,
                    ));
                }
                i = i + 1;
            }
            l.append(" |");
            proof {
                assert(l@ =~= event_lines(*e)[1]);
            }
            lines.push(l);
            lines.push(String::new());
        },
        Event::EndOfTrace => {
            lines.push(String::new());
            lines.push(String::from_str("END OF TRACE"));
        },
    }
    proof {
        assert(line_views(lines@) =~= event_lines(*e));
    }
    lines
}

/// Renders a whole event sequence as its printed lines, in order.
pub fn render_events(events: &Vec<Event>) -> (r: Vec<String>)
    ensures
        line_views(r@) == lines_of_events(events@),
{
    let mut lines: Vec<String> = Vec::new();
    let n = events.len();
    let mut i: usize = 0;
    proof {
        assert(events@.take(0int) =~= Seq::<Event>::empty());
        assert(line_views(lines@) =~= lines_of_events(events@.take(0int)));
    }
    while i < n
        invariant
            n == events@.len(),
            i <= n,
            line_views(lines@) == lines_of_events(events@.take(i as int)),
        decreases n - i,
    {
        let rendered = render_event(&events[i]);
        let ghost pre = lines@;
        let m = rendered.len();
        let mut j: usize = 0;
        while j < m
            invariant
                m == rendered@.len(),
                j <= m,
                lines@.len() == pre.len() + j,
                forall|k: int| 0 <= k < pre.len() ==> lines@[k] == pre[k],
                forall|k: int| 0 <= k < j ==> lines@[pre.len() + k] == rendered@[k],
            decreases m - j,
        {
            lines.push(rendered[j].clone());
            j = j + 1;
        }
        proof {
            assert(events@.take(i + 1).drop_last() =~= events@.take(i as int));
            assert(events@.take(i + 1).last() == events@[i as int]);
            assert forall|k: int| 0 <= k < lines@.len() implies line_views(lines@)[k]
                == lines_of_events(events@.take(i + 1))[k] by {
                if k < pre.len() {
                    assert(lines@[k] == pre[k]);
                    assert(line_views(pre)[k] == pre[k]@);
                } else {
                    assert(lines@[k] == rendered@[k - pre.len()]);
                    assert(line_views(rendered@)[k - pre.len()] == rendered@[k - pre.len()]@);
                }
            }
            assert(line_views(lines@) =~= lines_of_events(events@.take(i + 1)));
        }
        i = i + 1;
    }
    proof {
        assert(events@.take(n as int) =~= events@);
    }
    lines
}

} // verus!
