use vstd::prelude::*;

use crate::errors::RunError;
use crate::masm::{Block, Op, SourceBlocks};
use crate::text;
use crate::trace::Trace;

verus! {

/// Every conditional among these ops points into the arena.
pub open spec fn ops_closed(m: Map<slotmap::DefaultKey, Block>, ops: Seq<Op>) -> bool {
    forall|i: int|
        0 <= i < ops.len() ==> match #[trigger] ops[i] {
            Op::Conditional(t, f) => m.dom().contains(t) && m.dom().contains(f),
            Op::Op { .. } => true,
        }
}

/// Ops closed over an arena stay closed when the arena grows.
proof fn lemma_ops_closed_mono(
    m1: Map<slotmap::DefaultKey, Block>,
    m2: Map<slotmap::DefaultKey, Block>,
    ops: Seq<Op>,
)
    requires
        ops_closed(m1, ops),
        m1.dom().subset_of(m2.dom()),
    ensures
        ops_closed(m2, ops),
{
}

/// Inserting a block whose ops are closed keeps the whole arena closed.
proof fn lemma_insert_closed(m: Map<slotmap::DefaultKey, Block>, k: slotmap::DefaultKey, b: Block)
    requires
        crate::engine::arena_closed(m),
        ops_closed(m, b.ops@),
    ensures
        crate::engine::arena_closed(m.insert(k, b)),
{
    let m2 = m.insert(k, b);
    assert forall|k2: slotmap::DefaultKey, i: int|
        m2.dom().contains(k2) && 0 <= i < m2[k2].ops@.len() implies match #[trigger] m2[k2].ops@[i] {
        Op::Conditional(t, f) => m2.dom().contains(t) && m2.dom().contains(f),
        Op::Op { .. } => true,
    } by {
        if k2 == k {
            assert(m2[k2] == b);
        } else {
            assert(m2[k2] == m[k2]);
        }
    }
}

spec fn is_sym_char(c: char) -> bool {
    ||| 97 <= c as int <= 122
    ||| 65 <= c as int <= 90
    ||| c == '.'
    ||| c == '/'
    ||| c == '@'
    ||| c == '_'
    ||| c == '-'
    ||| c == ':'
    ||| c == '#'
    ||| c == '$'
}

spec fn is_ident_char(c: char) -> bool {
    ||| 97 <= c as int <= 122
    ||| 65 <= c as int <= 90
    ||| 48 <= c as int <= 57
    ||| c == '_'
}

fn sym_char_at(s: &str, pos: usize) -> (r: bool)
    requires
        pos < s@.len(),
    ensures
        r == is_sym_char(s@[pos as int]),
{
    let c = s.get_char(pos);
    let u = c as u32;
    (97 <= u && u <= 122) || (65 <= u && u <= 90) || c == '.' || c == '/' || c == '@' || c == '_'
        || c == '-' || c == ':' || c == '#' || c == '$'
}

fn ident_char_at(s: &str, pos: usize) -> (r: bool)
    requires
        pos < s@.len(),
    ensures
        r == is_ident_char(s@[pos as int]),
{
    let c = s.get_char(pos);
    let u = c as u32;
    (97 <= u && u <= 122) || (65 <= u && u <= 90) || (48 <= u && u <= 57) || c == '_'
}

fn digit_at(s: &str, pos: usize) -> (r: bool)
    requires
        pos < s@.len(),
    ensures
        r == crate::demangle::is_dec_digit(s@[pos as int]),
{
    let u = s.get_char(pos) as u32;
    48 <= u && u <= 57
}

/// Whether the literal stands at this position of the input.
fn lit_at(s: &str, pos: usize, lit: &str) -> (r: bool)
    requires
        pos <= s@.len(),
    ensures
        r == (pos + lit@.len() <= s@.len() && s@.subrange(
            pos as int,
            pos + lit@.len(),
        ) == lit@),
{
    let n = s.unicode_len();
    let m = lit.unicode_len();
    if m > n - pos {
        return false;
    }
    let mut i: usize = 0;
    while i < m
        invariant
            n == s@.len(),
            m == lit@.len(),
            pos + m <= n,
            i <= m,
            forall|j: int| 0 <= j < i ==> s@[pos + j] == lit@[j],
        decreases m - i,
    {
        if s.get_char(pos + i) != lit.get_char(i) {
            proof {
                assert(s@.subrange(pos as int, pos + lit@.len())[i as int] == s@[pos + i]);
            }
            return false;
        }
        i = i + 1;
    }
    proof {
        assert(s@.subrange(pos as int, pos + lit@.len()) =~= lit@);
    }
    true
}

/// Skips whitespace and stray packaging banner lines.
fn skip_ws(s: &str, pos: usize) -> (r: usize)
    requires
        pos <= s@.len(),
    ensures
        pos <= r <= s@.len(),
{
    let n = s.unicode_len();
    let mut p = pos;
    proof {
        reveal_strlit("Creating Miden package");
    }
    while p < n
        invariant
            n == s@.len(),
            pos <= p <= n,
        decreases n - p,
    {
        proof {
            reveal_strlit("Creating Miden package");
        }
        let c = s.get_char(p);
        if c == ' ' || c == '\n' || c == '\r' || c == '\t' {
            p = p + 1;
        } else if lit_at(s, p, "Creating Miden package") {
            p = p + 22;
            let ghost pb = p;
            while p < n && s.get_char(p) != '\n' && s.get_char(p) != '\r'
                invariant
                    n == s@.len(),
                    pb <= p <= n,
                    pos < pb,
                decreases n - p,
            {
                p = p + 1;
            }
        } else {
            return p;
        }
    }
    p
}

/// Skips to the end of the current line, not consuming the line break.
fn skip_to_eol(s: &str, pos: usize) -> (r: usize)
    requires
        pos <= s@.len(),
    ensures
        pos <= r <= s@.len(),
{
    let n = s.unicode_len();
    let mut p = pos;
    while p < n && s.get_char(p) != '\n' && s.get_char(p) != '\r'
        invariant
            n == s@.len(),
            pos <= p <= n,
        decreases n - p,
    {
        p = p + 1;
    }
    p
}

/// Skips a parenthesized stretch: `(` up to the matching-less first `)`.
fn skip_in_paren(s: &str, pos: usize) -> (r: Result<usize, usize>)
    requires
        pos <= s@.len(),
    ensures
        match r {
            Ok(p) => pos < p <= s@.len(),
            Err(off) => off <= s@.len(),
        },
{
    proof {
        reveal_strlit("(");
    }
    if !lit_at(s, pos, "(") {
        return Err(pos);
    }
    let n = s.unicode_len();
    let mut p = pos + 1;
    while p < n && s.get_char(p) != ')'
        invariant
            n == s@.len(),
            pos < p <= n,
        decreases n - p,
    {
        p = p + 1;
    }
    if p >= n {
        return Err(p);
    }
    Ok(skip_ws(s, p + 1))
}

/// A symbol: a path-ish name, then trailing whitespace.
fn parse_symbol(s: &str, pos: usize) -> (r: Result<(String, usize), usize>)
    requires
        pos <= s@.len(),
    ensures
        match r {
            Ok(t) => pos < t.1 <= s@.len(),
            Err(off) => off <= s@.len(),
        },
{
    let n = s.unicode_len();
    if pos >= n || !sym_char_at(s, pos) {
        return Err(pos);
    }
    let mut p = pos + 1;
    while p < n && (sym_char_at(s, p) || digit_at(s, p))
        invariant
            n == s@.len(),
            pos < p <= n,
        decreases n - p,
    {
        p = p + 1;
    }
    let sym = String::from_str(s.substring_char(pos, p));
    Ok((sym, skip_ws(s, p)))
}

/// An opcode identifier: letters, digits and underscores, not starting where
/// a keyword stands, then trailing whitespace.
fn parse_ident(s: &str, pos: usize) -> (r: Result<(String, usize), usize>)
    requires
        pos <= s@.len(),
    ensures
        match r {
            Ok(t) => pos < t.1 <= s@.len(),
            Err(off) => off <= s@.len(),
        },
{
    proof {
        reveal_strlit("export");
        reveal_strlit("proc");
        reveal_strlit("if");
        reveal_strlit("else");
        reveal_strlit("end");
    }
    if lit_at(s, pos, "export") || lit_at(s, pos, "proc") || lit_at(s, pos, "if") || lit_at(
        s,
        pos,
        "else",
    ) || lit_at(s, pos, "end") {
        return Err(pos);
    }
    let n = s.unicode_len();
    if pos >= n || !ident_char_at(s, pos) {
        return Err(pos);
    }
    let mut p = pos + 1;
    while p < n && ident_char_at(s, p)
        invariant
            n == s@.len(),
            pos < p <= n,
        decreases n - p,
    {
        p = p + 1;
    }
    let id = String::from_str(s.substring_char(pos, p));
    Ok((id, skip_ws(s, p)))
}

/// A run of decimal digits as text, then trailing whitespace.
fn parse_decimal_str(s: &str, pos: usize) -> (r: Result<(String, usize), usize>)
    requires
        pos <= s@.len(),
    ensures
        match r {
            Ok(t) => pos < t.1 <= s@.len(),
            Err(off) => off <= s@.len(),
        },
{
    let n = s.unicode_len();
    if pos >= n || !digit_at(s, pos) {
        return Err(pos);
    }
    let mut p = pos + 1;
    while p < n && digit_at(s, p)
        invariant
            n == s@.len(),
            pos < p <= n,
        decreases n - p,
    {
        p = p + 1;
    }
    let d = String::from_str(s.substring_char(pos, p));
    Ok((d, skip_ws(s, p)))
}

/// A number: decimal digits read as a u64 (a value past u64 is a parse
/// error), then trailing whitespace.
fn parse_num(s: &str, pos: usize) -> (r: Result<(u64, usize), usize>)
    requires
        pos <= s@.len(),
    ensures
        match r {
            Ok(t) => pos < t.1 <= s@.len(),
            Err(off) => off <= s@.len(),
        },
{
    let n = s.unicode_len();
    if pos >= n || !digit_at(s, pos) {
        return Err(pos);
    }
    let mut p = pos + 1;
    while p < n && digit_at(s, p)
        invariant
            n == s@.len(),
            pos < p <= n,
        decreases n - p,
    {
        p = p + 1;
    }
    match text::parse_u64(s.substring_char(pos, p)) {
        Some(v) => Ok((v, skip_ws(s, p))),
        None => Err(pos),
    }
}

/// A bracketed comma-separated index list, kept as raw text.
fn parse_array_arg(s: &str, pos: usize) -> (r: Result<(String, usize), usize>)
    requires
        pos <= s@.len(),
    ensures
        match r {
            Ok(t) => pos < t.1 <= s@.len(),
            Err(off) => off <= s@.len(),
        },
{
    proof {
        reveal_strlit("[");
        reveal_strlit("]");
    }
    if !lit_at(s, pos, "[") {
        return Err(pos);
    }
    let n = s.unicode_len();
    let mut p = pos + 1;
    let mut count: usize = 0;
    while p < n && (digit_at(s, p) || s.get_char(p) == ',')
        invariant
            n == s@.len(),
            pos < p <= n,
            count == p - pos - 1,
        decreases n - p,
    {
        p = p + 1;
        count = count + 1;
    }
    if count == 0 || !lit_at(s, p, "]") {
        return Err(p);
    }
    let raw = String::from_str(s.substring_char(pos, p + 1));
    Ok((raw, skip_ws(s, p + 1)))
}

/// The optional literal argument of a plain op: a dot, then a number, a
/// symbol, or a bracketed index list.
fn parse_op_arg(s: &str, pos: usize) -> (r: Result<(String, usize), usize>)
    requires
        pos <= s@.len(),
    ensures
        match r {
            Ok(t) => pos < t.1 <= s@.len(),
            Err(off) => off <= s@.len(),
        },
{
    proof {
        reveal_strlit(".");
    }
    let slen = s.unicode_len();
    if !lit_at(s, pos, ".") {
        return Err(pos);
    }
    let p = pos + 1;
    match parse_decimal_str(s, p) {
        Ok(t) => {
            return Ok(t);
        },
        Err(_) => {},
    }
    match parse_symbol(s, p) {
        Ok(t) => {
            return Ok(t);
        },
        Err(_) => {},
    }
    parse_array_arg(s, p)
}

/// One plain op: an opcode and its optional argument.
fn parse_basic_op(s: &str, pos: usize) -> (r: Result<(Op, usize), usize>)
    requires
        pos <= s@.len(),
    ensures
        match r {
            Ok(t) => pos < t.1 <= s@.len() && t.0 matches Op::Op { .. },
            Err(off) => off <= s@.len(),
        },
{
    let (opcode, p) = match parse_ident(s, pos) {
        Ok(t) => t,
        Err(off) => {
            return Err(off);
        },
    };
    match parse_op_arg(s, p) {
        Ok((arg, p2)) => Ok((Op::Op { opcode, arg: Some(arg) }, p2)),
        Err(_) => Ok((Op::Op { opcode, arg: None }, p)),
    }
}

/// One op: a conditional (`if.true` ... `else` ... `end`, each arm becoming
/// an anonymous block of the arena) or a plain op.
fn parse_op(s: &str, pos: usize, blocks: &mut SourceBlocks) -> (r: Result<(Op, usize), usize>)
    requires
        pos <= s@.len(),
        crate::engine::arena_closed(old(blocks)@),
    ensures
        crate::engine::arena_closed(final(blocks)@),
        old(blocks)@.dom().subset_of(final(blocks)@.dom()),
        match r {
            Ok(t) => pos < t.1 <= s@.len() && ops_closed(final(blocks)@, seq![t.0]),
            Err(off) => off <= s@.len(),
        },
    decreases s@.len() - pos, 1int,
{
    proof {
        reveal_strlit("if.true");
        reveal_strlit("else");
        reveal_strlit("end");
    }
    let slen = s.unicode_len();
    if lit_at(s, pos, "if.true") {
        let p0 = skip_ws(s, pos + 7);
        let (tops, p1) = match parse_ops_until(s, p0, blocks, true) {
            Ok(t) => t,
            Err(off) => {
                return Err(off);
            },
        };
        if !lit_at(s, p1, "else") {
            return Err(p1);
        }
        let p2 = skip_ws(s, p1 + 4);
        let (fops, p3) = match parse_ops_until(s, p2, blocks, false) {
            Ok(t) => t,
            Err(off) => {
                return Err(off);
            },
        };
        if !lit_at(s, p3, "end") {
            return Err(p3);
        }
        let p4 = skip_ws(s, p3 + 3);
        if blocks.len() >= 0xFFFF_FFF0 {
            return Err(pos);
        }
        let ghost m0 = blocks@;
        proof {
            lemma_insert_closed(blocks@, arbitrary(), Block { name: None, ops: tops });
        }
        let ghost tops_seq = tops@;
        let ghost fops_seq = fops@;
        let t_key = blocks.insert(Block::bare(tops));
        proof {
            lemma_ops_closed_mono(m0, blocks@, fops_seq);
            lemma_insert_closed(m0, t_key, blocks@[t_key]);
        }
        if blocks.len() >= 0xFFFF_FFF0 {
            return Err(pos);
        }
        let ghost m1 = blocks@;
        let f_key = blocks.insert(Block::bare(fops));
        proof {
            lemma_insert_closed(m1, f_key, blocks@[f_key]);
        }
        Ok((Op::Conditional(t_key, f_key), p4))
    } else {
        let ghost m0 = blocks@;
        match parse_basic_op(s, pos) {
            Ok((op, p)) => Ok((op, p)),
            Err(off) => Err(off),
        }
    }
}

/// A run of ops ending where the closing keyword (`else` for a true arm,
/// `end` otherwise) stands.
fn parse_ops_until(s: &str, pos: usize, blocks: &mut SourceBlocks, until_else: bool) -> (r: Result<
    (Vec<Op>, usize),
    usize,
>)
    requires
        pos <= s@.len(),
        crate::engine::arena_closed(old(blocks)@),
    ensures
        crate::engine::arena_closed(final(blocks)@),
        old(blocks)@.dom().subset_of(final(blocks)@.dom()),
        match r {
            Ok(t) => pos <= t.1 <= s@.len() && ops_closed(final(blocks)@, t.0@),
            Err(off) => off <= s@.len(),
        },
    decreases s@.len() - pos, 2int,
{
    proof {
        reveal_strlit("else");
        reveal_strlit("end");
    }
    let mut ops: Vec<Op> = Vec::new();
    let mut p = pos;
    loop
        invariant
            pos <= p <= s@.len(),
            crate::engine::arena_closed(blocks@),
            old(blocks)@.dom().subset_of(blocks@.dom()),
            ops_closed(blocks@, ops@),
        decreases s@.len() - p,
    {
        proof {
            reveal_strlit("else");
            reveal_strlit("end");
        }
        let stop = if until_else {
            lit_at(s, p, "else")
        } else {
            lit_at(s, p, "end")
        };
        if stop {
            return Ok((ops, p));
        }
        let ghost m0 = blocks@;
        let ghost ops_seq = ops@;
        match parse_op(s, p, blocks) {
            Ok((op, p2)) => {
                proof {
                    lemma_ops_closed_mono(m0, blocks@, ops_seq);
                }
                ops.push(op);
                proof {
                    assert(seq![op][0] == op);
                    assert forall|i: int| 0 <= i < ops@.len() implies match #[trigger] ops@[i] {
                        Op::Conditional(t, f) => blocks@.dom().contains(t) && blocks@.dom()
                            .contains(f),
                        Op::Op { .. } => true,
                    } by {
                        if i < ops@.len() - 1 {
                            assert(ops@[i] == ops_seq[i]);
                        } else {
                            assert(ops@[i] == op);
                        }
                    }
                }
                p = p2;
            },
            Err(off) => {
                return Err(off);
            },
        }
    }
}

/// One procedure definition: optional calling-convention and visibility
/// markers, `export` or `proc`, the bare name, then its ops up to `end`. The
/// block is stored under a fresh key.
fn parse_src_item(s: &str, pos: usize, blocks: &mut SourceBlocks) -> (r: Result<
    (slotmap::DefaultKey, usize),
    usize,
>)
    requires
        pos <= s@.len(),
        crate::engine::arena_closed(old(blocks)@),
    ensures
        crate::engine::arena_closed(final(blocks)@),
        old(blocks)@.dom().subset_of(final(blocks)@.dom()),
        match r {
            Ok(t) => pos <= t.1 <= s@.len() && final(blocks)@.dom().contains(t.0),
            Err(off) => off <= s@.len(),
        },
{
    proof {
        reveal_strlit("@callconv");
        reveal_strlit("pub");
        reveal_strlit("export");
        reveal_strlit("proc");
        reveal_strlit("end");
    }
    let slen = s.unicode_len();
    let mut p = pos;
    if lit_at(s, p, "@callconv") {
        let p1 = skip_ws(s, p + 9);
        p = match skip_in_paren(s, p1) {
            Ok(p2) => p2,
            Err(off) => {
                return Err(off);
            },
        };
    }
    if lit_at(s, p, "pub") {
        p = skip_ws(s, p + 3);
    }
    if lit_at(s, p, "export") {
        p = skip_ws(s, p + 6);
    } else if lit_at(s, p, "proc") {
        p = skip_ws(s, p + 4);
    } else {
        return Err(p);
    }
    let (name, p2) = match parse_symbol(s, p) {
        Ok(t) => t,
        Err(off) => {
            return Err(off);
        },
    };
    let p3 = skip_ws(s, skip_to_eol(s, p2));
    let (ops, p4) = match parse_ops_until(s, p3, blocks, false) {
        Ok(t) => t,
        Err(off) => {
            return Err(off);
        },
    };
    if ops.len() == 0 {
        return Err(p3);
    }
    if !lit_at(s, p4, "end") {
        return Err(p4);
    }
    let p5 = skip_ws(s, p4 + 3);
    if blocks.len() >= 0xFFFF_FFF0 {
        return Err(pos);
    }
    let ghost m0 = blocks@;
    let ghost ops_seq = ops@;
    let key = blocks.insert(Block::new(name, ops));
    proof {
        lemma_insert_closed(m0, key, blocks@[key]);
    }
    Ok((key, p5))
}

/// The position right after a module marker (`#` `mod`), if one stands here.
fn probe_mod_marker(s: &str, pos: usize) -> (r: Option<usize>)
    requires
        pos <= s@.len(),
    ensures
        match r {
            Some(p) => pos < p <= s@.len(),
            None => true,
        },
{
    proof {
        reveal_strlit("#");
        reveal_strlit("mod");
    }
    let slen = s.unicode_len();
    if !lit_at(s, pos, "#") {
        return None;
    }
    let p = skip_ws(s, pos + 1);
    if !lit_at(s, p, "mod") {
        return None;
    }
    Some(skip_ws(s, p + 3))
}

/// One module: its marker and name, then its procedures, whose block names
/// are then prefixed with the module name.
fn parse_module(s: &str, pos: usize, blocks: &mut SourceBlocks) -> (r: Result<
    Option<usize>,
    usize,
>)
    requires
        pos <= s@.len(),
        crate::engine::arena_closed(old(blocks)@),
    ensures
        crate::engine::arena_closed(final(blocks)@),
        old(blocks)@.dom().subset_of(final(blocks)@.dom()),
        match r {
            Ok(Some(p)) => pos < p <= s@.len(),
            Ok(None) => *final(blocks) == *old(blocks),
            Err(off) => off <= s@.len(),
        },
{
    let p0 = match probe_mod_marker(s, pos) {
        Some(p) => p,
        None => {
            return Ok(None);
        },
    };
    let (module_name, p1) = match parse_symbol(s, p0) {
        Ok(t) => t,
        Err(off) => {
            return Err(off);
        },
    };
    let mut keys: Vec<slotmap::DefaultKey> = Vec::new();
    let mut p = p1;
    let n = s.unicode_len();
    loop
        invariant
            n == s@.len(),
            pos < p <= n,
            crate::engine::arena_closed(blocks@),
            old(blocks)@.dom().subset_of(blocks@.dom()),
            forall|i: int| 0 <= i < keys@.len() ==> blocks@.dom().contains(#[trigger] keys@[i]),
        decreases n - p,
    {
        let ghost m0 = blocks@;
        let before = p;
        match parse_src_item(s, p, blocks) {
            Ok((key, p2)) => {
                keys.push(key);
                if p2 == before {
                    return Err(p2);
                }
                p = p2;
            },
            Err(_) => {
                break ;
            },
        }
    }
    // Tell every block of the module its full name.
    let mut i: usize = 0;
    while i < keys.len()
        invariant
            crate::engine::arena_closed(blocks@),
            old(blocks)@.dom().subset_of(blocks@.dom()),
            forall|j: int| 0 <= j < keys@.len() ==> blocks@.dom().contains(#[trigger] keys@[j]),
        decreases keys@.len() - i,
    {
        let k = keys[i];
        let mut b = blocks.swap_block(k, Block::bare(Vec::new()));
        proof {
            let ghost mnow = blocks@;
            assert(ops_closed(mnow, b.ops@));
        }
        b.prefix_module_name(module_name.as_str());
        let ghost m1 = blocks@;
        let ghost bops = b.ops@;
        let _ = blocks.swap_block(k, b);
        proof {
            assert(blocks@ == m1.insert(k, blocks@[k]));
            assert(blocks@[k].ops@ == bops);
            lemma_insert_closed(m1, k, blocks@[k]);
        }
        i = i + 1;
    }
    Ok(Some(p))
}

/// Scans to the next position where the wanted marker text stands (or to the
/// end of the input).
fn scan_to_lit(s: &str, pos: usize, lit: &str) -> (r: usize)
    requires
        pos <= s@.len(),
    ensures
        pos <= r <= s@.len(),
{
    let n = s.unicode_len();
    let mut p = pos;
    while p < n && !lit_at(s, p, lit)
        invariant
            n == s@.len(),
            pos <= p <= n,
        decreases n - p,
    {
        p = p + 1;
    }
    p
}

/// Scans to the next module marker (or the end of the input).
fn scan_to_mod_marker(s: &str, pos: usize) -> (r: usize)
    requires
        pos <= s@.len(),
    ensures
        pos <= r <= s@.len(),
{
    let n = s.unicode_len();
    let mut p = pos;
    while p < n && matches!(probe_mod_marker(s, p), None)
        invariant
            n == s@.len(),
            pos <= p <= n,
        decreases n - p,
    {
        p = p + 1;
    }
    p
}

/// The trace-line marker, then trailing whitespace.
fn probe_trace_marker(s: &str, pos: usize) -> (r: Option<usize>)
    requires
        pos <= s@.len(),
    ensures
        match r {
            Some(p) => pos < p <= s@.len(),
            None => true,
        },
{
    proof {
        reveal_strlit("[TRACE executor]");
    }
    let slen = s.unicode_len();
    if lit_at(s, pos, "[TRACE executor]") {
        Some(skip_ws(s, pos + 16))
    } else {
        None
    }
}

/// A trace `in` line: the marker, `in`, the owning function's symbol, and a
/// parenthesized remainder.
fn probe_trace_in(s: &str, pos: usize) -> (r: Option<(String, usize)>)
    requires
        pos <= s@.len(),
    ensures
        match r {
            Some(t) => pos < t.1 <= s@.len(),
            None => true,
        },
{
    proof {
        reveal_strlit("in");
    }
    let slen = s.unicode_len();
    let p0 = match probe_trace_marker(s, pos) {
        Some(p) => p,
        None => {
            return None;
        },
    };
    if !lit_at(s, p0, "in") {
        return None;
    }
    let p1 = skip_ws(s, p0 + 2);
    let (sym, p2) = match parse_symbol(s, p1) {
        Ok(t) => t,
        Err(_) => {
            return None;
        },
    };
    match skip_in_paren(s, p2) {
        Ok(p3) => Some((sym, p3)),
        Err(_) => None,
    }
}

/// A trace `executed` line: the raw op text, the parsed plain op, and the
/// cycle counters.
fn probe_trace_executed(s: &str, pos: usize) -> (r: Option<(String, Op, u64, u64, usize)>)
    requires
        pos <= s@.len(),
    ensures
        match r {
            Some(t) => pos < t.4 <= s@.len(),
            None => true,
        },
{
    proof {
        reveal_strlit("executed");
        reveal_strlit("`");
        reveal_strlit("of");
        reveal_strlit("(cycle");
        reveal_strlit("/");
        reveal_strlit(")");
    }
    let slen = s.unicode_len();
    let p0 = match probe_trace_marker(s, pos) {
        Some(p) => p,
        None => {
            return None;
        },
    };
    if !lit_at(s, p0, "executed") {
        return None;
    }
    let p1 = skip_ws(s, p0 + 8);
    if !lit_at(s, p1, "`") {
        return None;
    }
    let raw_start = p1 + 1;
    let raw_end = scan_to_lit(s, raw_start, "`");
    if !lit_at(s, raw_end, "`") {
        return None;
    }
    let raw = String::from_str(s.substring_char(raw_start, raw_end));
    let p2 = skip_ws(s, raw_end + 1);
    if !lit_at(s, p2, "of") {
        return None;
    }
    let p3 = skip_ws(s, p2 + 2);
    if !lit_at(s, p3, "`") {
        return None;
    }
    let (op, p4) = match parse_basic_op(s, p3 + 1) {
        Ok(t) => t,
        Err(_) => {
            return None;
        },
    };
    if !lit_at(s, p4, "`") {
        return None;
    }
    let p5 = skip_ws(s, p4 + 1);
    if !lit_at(s, p5, "(cycle") {
        return None;
    }
    let p6 = skip_ws(s, p5 + 6);
    let (cycle, p7) = match parse_num(s, p6) {
        Ok(t) => t,
        Err(_) => {
            return None;
        },
    };
    if !lit_at(s, p7, "/") {
        return None;
    }
    let (total, p8) = match parse_num(s, p7 + 1) {
        Ok(t) => t,
        Err(_) => {
            return None;
        },
    };
    if !lit_at(s, p8, ")") {
        return None;
    }
    Some((raw, op, cycle, total, skip_ws(s, p8 + 1)))
}

/// A trace stack-state line: the operand stack, top first.
fn probe_trace_stack(s: &str, pos: usize) -> (r: Option<(Vec<u64>, usize)>)
    requires
        pos <= s@.len(),
    ensures
        match r {
            Some(t) => pos < t.1 <= s@.len(),
            None => true,
        },
{
    proof {
        reveal_strlit("stack state:");
        reveal_strlit("[");
        reveal_strlit("]");
        reveal_strlit(",");
    }
    let slen = s.unicode_len();
    let p0 = match probe_trace_marker(s, pos) {
        Some(p) => p,
        None => {
            return None;
        },
    };
    if !lit_at(s, p0, "stack state:") {
        return None;
    }
    let p1 = skip_ws(s, p0 + 12);
    if !lit_at(s, p1, "[") {
        return None;
    }
    let mut p = skip_ws(s, p1 + 1);
    let mut nums: Vec<u64> = Vec::new();
    let n = s.unicode_len();
    match parse_num(s, p) {
        Ok((v, p2)) => {
            nums.push(v);
            p = p2;
            loop
                invariant
                    n == s@.len(),
                    pos < p <= n,
                decreases n - p,
            {
                proof {
                    reveal_strlit(",");
                }
                if !lit_at(s, p, ",") {
                    break ;
                }
                let p3 = skip_ws(s, p + 1);
                match parse_num(s, p3) {
                    Ok((v2, p4)) => {
                        nums.push(v2);
                        if p4 <= p {
                            return None;
                        }
                        p = p4;
                    },
                    Err(_) => {
                        // A trailing comma before the closing bracket.
                        p = p3;
                        break ;
                    },
                }
            }
        },
        Err(_) => {},
    }
    if !lit_at(s, p, "]") {
        return None;
    }
    Some((nums, skip_ws(s, p + 1)))
}

/// One whole trace event: its `in`, `executed` and `stack state` lines, then
/// any unrelated marker lines and noise up to the next marker.
fn parse_trace_item(s: &str, pos: usize) -> (r: Result<(Trace, usize), usize>)
    requires
        pos <= s@.len(),
    ensures
        match r {
            Ok(t) => pos < t.1 <= s@.len(),
            Err(off) => off <= s@.len(),
        },
{
    let (func, p1) = match probe_trace_in(s, pos) {
        Some(t) => t,
        None => {
            return Err(pos);
        },
    };
    let (masm_op, op, cycle, total, p2) = match probe_trace_executed(s, p1) {
        Some(t) => t,
        None => {
            return Err(p1);
        },
    };
    let (stack, p3) = match probe_trace_stack(s, p2) {
        Some(t) => t,
        None => {
            return Err(p2);
        },
    };
    proof {
        reveal_strlit("[TRACE executor]");
    }
    let n = s.unicode_len();
    let mut p = scan_to_lit(s, p3, "[TRACE executor]");
    // Unrelated marker lines are recognized and discarded.
    loop
        invariant
            n == s@.len(),
            pos < p <= n,
        decreases n - p,
    {
        if p >= n {
            break ;
        }
        if matches!(probe_trace_in(s, p), Some(_)) {
            break ;
        }
        if matches!(probe_trace_executed(s, p), Some(_)) {
            break ;
        }
        if matches!(probe_trace_stack(s, p), Some(_)) {
            break ;
        }
        match probe_trace_marker(s, p) {
            Some(after) => {
                let next = scan_to_lit(s, after, "[TRACE executor]");
                if next <= p {
                    break ;
                }
                p = next;
            },
            None => {
                break ;
            },
        }
    }
    Ok((Trace { func, masm_op, op, cycle, total, stack }, p))
}

/// Parses one captured log into the source-block arena and the ordered trace
/// events: leading noise, the modules with their procedures, then every
/// trace event to the end of the input. Any failure reports the character
/// offset where parsing stopped and a short excerpt from there; nothing
/// partial is returned. The arena handed back is closed: every branch arm a
/// conditional references is present.
pub fn parse_trace(input: &str) -> (r: Result<(SourceBlocks, Vec<Trace>), RunError>)
    ensures
        match r {
            Ok(t) => crate::engine::arena_closed(t.0@),
            Err(e) => e matches RunError::Parse { offset, .. } && offset <= input@.len(),
        },
{
    let mut blocks = SourceBlocks::new();
    let n = input.unicode_len();
    let mut p = scan_to_mod_marker(input, 0);
    loop
        invariant
            n == input@.len(),
            p <= n,
            crate::engine::arena_closed(blocks@),
        decreases n - p,
    {
        let before = p;
        match parse_module(input, p, &mut blocks) {
            Ok(Some(p2)) => {
                if p2 <= before {
                    return Err(parse_error(input, p2));
                }
                p = p2;
            },
            Ok(None) => {
                break ;
            },
            Err(off) => {
                return Err(parse_error(input, off));
            },
        }
    }
    proof {
        reveal_strlit("[TRACE executor]");
    }
    p = scan_to_lit(input, p, "[TRACE executor]");
    let mut traces: Vec<Trace> = Vec::new();
    while p < n
        invariant
            n == input@.len(),
            p <= n,
            crate::engine::arena_closed(blocks@),
        decreases n - p,
    {
        match parse_trace_item(input, p) {
            Ok((t, p2)) => {
                traces.push(t);
                p = p2;
            },
            Err(off) => {
                return Err(parse_error(input, off));
            },
        }
    }
    Ok((blocks, traces))
}

/// A parse failure: the offset where parsing stopped and a short excerpt of
/// the unconsumed input.
fn parse_error(input: &str, offset: usize) -> (r: RunError)
    requires
        offset <= input@.len(),
    ensures
        r matches RunError::Parse { offset: o, .. } && o == offset,
{
    let n = input.unicode_len();
    let end = if n - offset > 20 {
        offset + 20
    } else {
        n
    };
    RunError::Parse { offset, excerpt: String::from_str(input.substring_char(offset, end)) }
}

} // verus!
