use vstd::prelude::*;

verus! {

/// The states of the demangling machine. Outside a mangled region characters
/// are copied through; `_Z` followed by `N` opens a region of length-prefixed
/// path components, which `E` closes; `Bad` absorbs every malformed input.
pub enum DemMode {
    Prefix,
    Underscore,
    MangleStart,
    PathStart,
    PathElement,
    Done,
    Bad,
}

/// One configuration of the demangling machine: the finished output, the
/// components already decoded in the open region (joined by `::`), the
/// component being read, and how many of its characters are still owed.
pub struct DemState {
    pub mode: DemMode,
    pub out: Seq<char>,
    pub region: Seq<char>,
    pub elem: Seq<char>,
    pub count: nat,
}

pub open spec fn dem_init() -> DemState {
    DemState {
        mode: DemMode::Prefix,
        out: Seq::empty(),
        region: Seq::empty(),
        elem: Seq::empty(),
        count: 0,
    }
}

pub open spec fn is_dec_digit(c: char) -> bool {
    48 <= c as int <= 57
}

pub open spec fn dec_digit_val(c: char) -> nat {
    (c as int - 48) as nat
}

pub open spec fn path_sep() -> Seq<char> {
    seq![':', ':']
}

/// A finished component joins the region, separated by `::` from what is
/// already there.
pub open spec fn region_append(region: Seq<char>, elem: Seq<char>) -> Seq<char> {
    if region.len() == 0 {
        elem
    } else {
        region + path_sep() + elem
    }
}

/// One step of the demangling machine.
pub open spec fn dem_step(st: DemState, c: char) -> DemState {
    match st.mode {
        DemMode::Prefix => {
            if c == '_' {
                DemState { mode: DemMode::Underscore, ..st }
            } else {
                DemState { out: st.out.push(c), ..st }
            }
        },
        DemMode::Underscore => {
            if c == 'Z' {
                DemState { mode: DemMode::MangleStart, ..st }
            } else {
                DemState { mode: DemMode::Prefix, out: st.out.push('_').push(c), ..st }
            }
        },
        DemMode::MangleStart => {
            if c == 'N' {
                DemState {
                    mode: DemMode::PathStart,
                    region: Seq::empty(),
                    elem: Seq::empty(),
                    count: 0,
                    ..st
                }
            } else {
                DemState { mode: DemMode::Bad, ..st }
            }
        },
        DemMode::PathStart => {
            if is_dec_digit(c) {
                let n = st.count * 10 + dec_digit_val(c);
                if n > usize::MAX as nat {
                    DemState { mode: DemMode::Bad, ..st }
                } else {
                    DemState { count: n, ..st }
                }
            } else if c == 'E' {
                DemState { mode: DemMode::Done, out: st.out + st.region, ..st }
            } else if st.count == 0 {
                DemState { mode: DemMode::Bad, ..st }
            } else if st.count == 1 {
                DemState {
                    region: region_append(st.region, seq![c]),
                    elem: Seq::empty(),
                    count: 0,
                    ..st
                }
            } else {
                DemState {
                    mode: DemMode::PathElement,
                    elem: seq![c],
                    count: (st.count - 1) as nat,
                    ..st
                }
            }
        },
        DemMode::PathElement => {
            if st.count == 1 {
                DemState {
                    mode: DemMode::PathStart,
                    region: region_append(st.region, st.elem.push(c)),
                    elem: Seq::empty(),
                    count: 0,
                    ..st
                }
            } else {
                DemState { elem: st.elem.push(c), count: (st.count - 1) as nat, ..st }
            }
        },
        DemMode::Done => DemState { mode: DemMode::Bad, ..st },
        DemMode::Bad => st,
    }
}

/// Runs the machine over a whole sequence of characters.
pub open spec fn dem_run_from(st: DemState, s: Seq<char>) -> DemState
    decreases s.len(),
{
    if s.len() == 0 {
        st
    } else {
        dem_run_from(dem_step(st, s[0]), s.drop_first())
    }
}

/// What the machine yields at end of input: a buffered lone underscore is
/// flushed; ending inside a mangled region, or any earlier malformation, is
/// a failure.
pub open spec fn dem_finish(st: DemState) -> Option<Seq<char>> {
    match st.mode {
        DemMode::Prefix => Some(st.out),
        DemMode::Underscore => Some(st.out.push('_')),
        DemMode::Done => Some(st.out),
        _ => None,
    }
}

/// The demangled form of a symbol: `Some` of the readable text, or `None`
/// when the symbol's mangled region is malformed.
pub open spec fn demangle_spec(s: Seq<char>) -> Option<Seq<char>> {
    dem_finish(dem_run_from(dem_init(), s))
}

/// Running over a concatenation is running over each part in turn.
pub proof fn lemma_run_concat(st: DemState, a: Seq<char>, b: Seq<char>)
    ensures
        dem_run_from(st, a + b) == dem_run_from(dem_run_from(st, a), b),
    decreases a.len(),
{
    if a.len() == 0 {
        assert(a + b =~= b);
    } else {
        assert((a + b)[0] == a[0]);
        assert((a + b).drop_first() =~= a.drop_first() + b);
        lemma_run_concat(dem_step(st, a[0]), a.drop_first(), b);
    }
}

/// A single step equals a run over a one-character sequence.
pub proof fn lemma_run_one(st: DemState, c: char)
    ensures
        dem_run_from(st, seq![c]) == dem_step(st, c),
{
    assert(seq![c].len() == 1);
    assert(seq![c][0] == c);
    assert(seq![c].drop_first() =~= Seq::<char>::empty());
    assert(dem_run_from(dem_step(st, c), Seq::<char>::empty()) == dem_step(st, c));
}

/// Unfolds one forward step of a run over a prefix of `s`.
proof fn lemma_step_take(s: Seq<char>, i: int)
    requires
        0 <= i < s.len(),
    ensures
        dem_run_from(dem_init(), s.take(i + 1)) == dem_step(
            dem_run_from(dem_init(), s.take(i)),
            s[i],
        ),
{
    assert(s.take(i + 1) =~= s.take(i) + seq![s[i]]);
    lemma_run_concat(dem_init(), s.take(i), seq![s[i]]);
    lemma_run_one(dem_run_from(dem_init(), s.take(i)), s[i]);
}

/// Once the machine is stuck in `Bad`, it stays there.
proof fn lemma_bad_absorbs(st: DemState, t: Seq<char>)
    requires
        st.mode is Bad,
    ensures
        dem_run_from(st, t).mode is Bad,
    decreases t.len(),
{
    if t.len() > 0 {
        lemma_bad_absorbs(dem_step(st, t[0]), t.drop_first());
    }
}

/// If some prefix of the input drives the machine into `Bad`, the whole
/// input does.
proof fn lemma_bad_tail(s: Seq<char>, j: int)
    requires
        0 <= j <= s.len(),
        dem_run_from(dem_init(), s.take(j)).mode is Bad,
    ensures
        dem_run_from(dem_init(), s).mode is Bad,
{
    lemma_run_concat(dem_init(), s.take(j), s.skip(j));
    assert(s.take(j) + s.skip(j) =~= s);
    lemma_bad_absorbs(dem_run_from(dem_init(), s.take(j)), s.skip(j));
}

/// Decodes the compact length-prefixed path encoding embedded in a symbol:
/// text around the `_ZN`...`E` region is copied through, and the region
/// itself is replaced by its components joined with `::`. Returns `None`
/// when the region is malformed (no `N` after `_Z`, a component that starts
/// where a length is owed, text after the closing `E`, an unclosed region,
/// or a length too large to hold).
pub fn demangle(mangled: &str) -> (r: Option<String>)
    ensures
        match r {
            Some(out) => demangle_spec(mangled@) == Some(out@),
            None => demangle_spec(mangled@) is None,
        },
{
    let n = mangled.unicode_len();
    let mut out = String::new();
    let mut region = String::new();
    let mut elem = String::new();
    let mut count: usize = 0;
    let mut region_started: bool = false;
    let mut mode = DemMode::Prefix;
    let mut i: usize = 0;
    proof {
        assert(mangled@.take(0int) =~= Seq::<char>::empty());
    }
    while i < n
        invariant
            n == mangled@.len(),
            i <= n,
            ({
                let st = dem_run_from(dem_init(), mangled@.take(i as int));
                &&& st.mode == mode
                &&& st.out == out@
                &&& st.region == region@
                &&& st.elem == elem@
                &&& st.count == count as nat
                &&& region_started == (st.region.len() != 0)
            }),
            !(mode is Bad),
            mode is PathElement ==> count >= 1,
        decreases n - i,
    {
        let c = mangled.get_char(i);
        proof {
            lemma_step_take(mangled@, i as int);
        }
        match mode {
            DemMode::Prefix => {
                if c == '_' {
                    mode = DemMode::Underscore;
                } else {
                    out.append(mangled.substring_char(i, i + 1));
                    proof {
                        assert(mangled@.subrange(i as int, i + 1) =~= seq![mangled@[i as int]]);
                    }
                }
            },
            DemMode::Underscore => {
                if c == 'Z' {
                    mode = DemMode::MangleStart;
                } else {
                    proof {
                        reveal_strlit("_");
                    }
                    out.append("_");
                    out.append(mangled.substring_char(i, i + 1));
                    mode = DemMode::Prefix;
                    proof {
                        assert(mangled@.subrange(i as int, i + 1) =~= seq![mangled@[i as int]]);
                        assert(out@ =~= dem_run_from(dem_init(), mangled@.take(i + 1)).out);
                    }
                }
            },
            DemMode::MangleStart => {
                if c == 'N' {
                    mode = DemMode::PathStart;
                    region = String::new();
                    elem = String::new();
                    count = 0;
                    region_started = false;
                } else {
                    proof {
                        lemma_bad_tail(mangled@, i + 1);
                    }
                    return None;
                }
            },
            DemMode::PathStart => {
                let cu = c as u32;
                if 48 <= cu && cu <= 57 {
                    proof {
                        assert(is_dec_digit(mangled@[i as int]));
                    }
                    let d = (cu - 48) as usize;
                    proof {
                        assert(d as nat == dec_digit_val(mangled@[i as int]));
                    }
                    let stepped = match count.checked_mul(10) {
                        Some(x) => x.checked_add(d),
                        None => None,
                    };
                    match stepped {
                        Some(nc) => {
                            count = nc;
                        },
                        None => {
                            proof {
                                assert(count as nat * 10 + d as nat > usize::MAX as nat);
                                assert(dem_run_from(dem_init(), mangled@.take(i + 1)).mode is Bad);
                                lemma_bad_tail(mangled@, i + 1);
                            }
                            return None;
                        },
                    }
                } else if c == 'E' {
                    out.append(region.as_str());
                    mode = DemMode::Done;
                } else if count == 0 {
                    proof {
                        lemma_bad_tail(mangled@, i + 1);
                    }
                    return None;
                } else if count == 1 {
                    proof {
                        reveal_strlit("::");
                        assert("::"@ =~= path_sep());
                    }
                    if region_started {
                        region.append("::");
                    }
                    region.append(mangled.substring_char(i, i + 1));
                    region_started = true;
                    elem = String::new();
                    count = 0;
                    proof {
                        assert(mangled@.subrange(i as int, i + 1) =~= seq![mangled@[i as int]]);
                        assert(region@ =~= dem_run_from(dem_init(), mangled@.take(i + 1)).region);
                    }
                } else {
                    mode = DemMode::PathElement;
                    elem = String::new();
                    elem.append(mangled.substring_char(i, i + 1));
                    count = count - 1;
                    proof {
                        assert(mangled@.subrange(i as int, i + 1) =~= seq![mangled@[i as int]]);
                        assert(elem@ =~= dem_run_from(dem_init(), mangled@.take(i + 1)).elem);
                    }
                }
            },
            DemMode::PathElement => {
                if count == 1 {
                    proof {
                        reveal_strlit("::");
                        assert("::"@ =~= path_sep());
                    }
                    if region_started {
                        region.append("::");
                    }
                    region.append(elem.as_str());
                    region.append(mangled.substring_char(i, i + 1));
                    region_started = true;
                    elem = String::new();
                    count = 0;
                    mode = DemMode::PathStart;
                    proof {
                        assert(mangled@.subrange(i as int, i + 1) =~= seq![mangled@[i as int]]);
                        assert(region@ =~= dem_run_from(dem_init(), mangled@.take(i + 1)).region);
                    }
                } else {
                    elem.append(mangled.substring_char(i, i + 1));
                    count = count - 1;
                    proof {
                        assert(mangled@.subrange(i as int, i + 1) =~= seq![mangled@[i as int]]);
                    }
                }
            },
            DemMode::Done => {
                proof {
                    lemma_bad_tail(mangled@, i + 1);
                }
                return None;
            },
            DemMode::Bad => {
                // Unreachable: the loop returns as soon as a step goes bad.
                proof {
                    lemma_bad_tail(mangled@, i as int);
                }
                return None;
            },
        }
        i = i + 1;
    }
    proof {
        assert(mangled@.take(n as int) =~= mangled@);
    }
    match mode {
        DemMode::Prefix => Some(out),
        DemMode::Underscore => {
            proof {
                reveal_strlit("_");
            }
            out.append("_");
            proof {
                assert(out@ =~= dem_run_from(dem_init(), mangled@).out.push('_'));
            }
            Some(out)
        },
        DemMode::Done => Some(out),
        _ => None,
    }
}

/// The decimal digits of `n`, most significant first.
pub open spec fn dec_digits(n: nat) -> Seq<char>
    decreases n,
{
    if n < 10 {
        seq![digit_char(n)]
    } else {
        dec_digits(n / 10) + seq![digit_char(n % 10)]
    }
}

pub open spec fn digit_char(d: nat) -> char {
    if d == 0 {
        '0'
    } else if d == 1 {
        '1'
    } else if d == 2 {
        '2'
    } else if d == 3 {
        '3'
    } else if d == 4 {
        '4'
    } else if d == 5 {
        '5'
    } else if d == 6 {
        '6'
    } else if d == 7 {
        '7'
    } else if d == 8 {
        '8'
    } else {
        '9'
    }
}

/// A component as it stands in a mangled region: its decimal length, then its
/// characters.
pub open spec fn encode_component(c: Seq<char>) -> Seq<char> {
    dec_digits(c.len()) + c
}

pub open spec fn encode_components(cs: Seq<Seq<char>>) -> Seq<char>
    decreases cs.len(),
{
    if cs.len() == 0 {
        Seq::empty()
    } else {
        encode_component(cs[0]) + encode_components(cs.drop_first())
    }
}

/// A whole well-formed mangled symbol: the region marker, the length-prefixed
/// components, and the terminator.
pub open spec fn mangle(cs: Seq<Seq<char>>) -> Seq<char> {
    seq!['_', 'Z', 'N'] + encode_components(cs) + seq!['E']
}

/// A component the encoding can carry: nonempty, of a length a machine word
/// holds, and not starting with a character that would be read as part of the
/// length or as the terminator.
pub open spec fn is_valid_component(c: Seq<char>) -> bool {
    &&& 1 <= c.len() <= usize::MAX as nat
    &&& !is_dec_digit(c[0])
    &&& c[0] != 'E'
}

/// The components joined with `::` in order, starting from `acc`.
pub open spec fn join_from(acc: Seq<char>, cs: Seq<Seq<char>>) -> Seq<char>
    decreases cs.len(),
{
    if cs.len() == 0 {
        acc
    } else {
        join_from(region_append(acc, cs[0]), cs.drop_first())
    }
}

pub open spec fn join_path(cs: Seq<Seq<char>>) -> Seq<char> {
    join_from(Seq::empty(), cs)
}

/// Reading the decimal digits of `n` accumulates exactly `n`.
proof fn lemma_run_digits(st: DemState, n: nat)
    requires
        st.mode is PathStart,
        st.count == 0,
        n <= usize::MAX as nat,
    ensures
        dem_run_from(st, dec_digits(n)) == (DemState { count: n, ..st }),
    decreases n,
{
    if n < 10 {
        lemma_run_one(st, digit_char(n));
        assert(is_dec_digit(digit_char(n)));
        assert(dec_digit_val(digit_char(n)) == n);
    } else {
        lemma_run_concat(st, dec_digits(n / 10), seq![digit_char(n % 10)]);
        assert(n / 10 <= n);
        // A state mid-way through the digits holds the high-order prefix of n.
        // Reading digits most-significant-first never overflows the bound,
        // since every intermediate value is at most n itself.
        let st1 = DemState { count: n / 10, ..st };
        assert(dem_run_from(st, dec_digits(n / 10)) == st1) by {
            lemma_run_digits(st, n / 10);
        }
        lemma_run_one(st1, digit_char(n % 10));
        assert(n % 10 < 10);
        assert(is_dec_digit(digit_char(n % 10)));
        assert(dec_digit_val(digit_char(n % 10)) == n % 10);
        assert((n / 10) * 10 + n % 10 == n);
    }
}

/// Reading the remaining `t` characters of a component finishes it and joins
/// it onto the region.
proof fn lemma_run_elem_tail(st: DemState, t: Seq<char>)
    requires
        st.mode is PathElement,
        st.count == t.len(),
        t.len() >= 1,
    ensures
        dem_run_from(st, t) == (DemState {
            mode: DemMode::PathStart,
            region: region_append(st.region, st.elem + t),
            elem: Seq::empty(),
            count: 0,
            ..st
        }),
    decreases t.len(),
{
    if t.len() == 1 {
        assert(t =~= seq![t[0]]);
        lemma_run_one(st, t[0]);
        assert(st.elem.push(t[0]) =~= st.elem + t);
    } else {
        let st1 = dem_step(st, t[0]);
        assert(st1 == DemState {
            elem: st.elem.push(t[0]),
            count: (st.count - 1) as nat,
            ..st
        });
        lemma_run_elem_tail(st1, t.drop_first());
        assert(st.elem.push(t[0]) + t.drop_first() =~= st.elem + t);
    }
}

/// Reading one whole valid component from a ready state joins it onto the
/// region.
proof fn lemma_run_component(st: DemState, c: Seq<char>)
    requires
        st.mode is PathStart,
        st.count == c.len(),
        is_valid_component(c),
    ensures
        dem_run_from(st, c) == (DemState {
            mode: DemMode::PathStart,
            region: region_append(st.region, c),
            elem: Seq::empty(),
            count: 0,
            ..st
        }),
{
    if c.len() == 1 {
        assert(c =~= seq![c[0]]);
        lemma_run_one(st, c[0]);
        assert(seq![c[0]] =~= c);
    } else {
        let st1 = dem_step(st, c[0]);
        assert(st1 == DemState {
            mode: DemMode::PathElement,
            elem: seq![c[0]],
            count: (st.count - 1) as nat,
            ..st
        });
        assert(c =~= seq![c[0]] + c.drop_first());
        lemma_run_concat(st, seq![c[0]], c.drop_first());
        lemma_run_one(st, c[0]);
        lemma_run_elem_tail(st1, c.drop_first());
        assert(seq![c[0]] + c.drop_first() =~= c);
    }
}

/// Reading a whole run of encoded components joins them all onto the region
/// in order.
proof fn lemma_run_components(st: DemState, cs: Seq<Seq<char>>)
    requires
        st.mode is PathStart,
        st.count == 0,
        st.elem == Seq::<char>::empty(),
        forall|i: int| 0 <= i < cs.len() ==> is_valid_component(#[trigger] cs[i]),
    ensures
        dem_run_from(st, encode_components(cs)) == (DemState {
            region: join_from(st.region, cs),
            ..st
        }),
    decreases cs.len(),
{
    if cs.len() == 0 {
        assert(DemState { region: join_from(st.region, cs), ..st } == st);
    } else {
        let c = cs[0];
        assert(is_valid_component(c));
        lemma_run_concat(st, encode_component(c), encode_components(cs.drop_first()));
        lemma_run_concat(st, dec_digits(c.len()), c);
        lemma_run_digits(st, c.len());
        let st1 = DemState { count: c.len(), ..st };
        lemma_run_component(st1, c);
        let st2 = DemState {
            mode: DemMode::PathStart,
            region: region_append(st.region, c),
            elem: Seq::empty(),
            count: 0,
            ..st1
        };
        assert(dem_run_from(st, encode_component(c)) == st2);
        lemma_run_components(st2, cs.drop_first());
    }
}

/// Law: demangling undoes mangling. A well-formed mangled symbol, a sequence
/// of length-prefixed valid components wrapped in `_ZN`...`E`, demangles to
/// exactly those components joined with `::` in their original order.
pub proof fn lemma_demangle_mangle_round_trip(cs: Seq<Seq<char>>)
    requires
        forall|i: int| 0 <= i < cs.len() ==> is_valid_component(#[trigger] cs[i]),
    ensures
        demangle_spec(mangle(cs)) == Some(join_path(cs)),
{
    let a = seq!['_', 'Z', 'N'];
    let b = encode_components(cs);
    let e = seq!['E'];
    assert(mangle(cs) == a + b + e);
    lemma_run_concat(dem_init(), a + b, e);
    lemma_run_concat(dem_init(), a, b);

    // Stepping through the region marker by hand.
    let s0 = dem_init();
    let s1 = dem_step(s0, '_');
    let s2 = dem_step(s1, 'Z');
    let s3 = dem_step(s2, 'N');
    assert(a.drop_first() =~= seq!['Z', 'N']);
    assert(seq!['Z', 'N'].drop_first() =~= seq!['N']);
    assert(seq!['N'].drop_first() =~= Seq::<char>::empty());
    assert(dem_run_from(s0, a) == dem_run_from(s1, seq!['Z', 'N']));
    assert(dem_run_from(s1, seq!['Z', 'N']) == dem_run_from(s2, seq!['N']));
    assert(dem_run_from(s2, seq!['N']) == dem_run_from(s3, Seq::<char>::empty()));
    assert(s3.mode is PathStart && s3.count == 0 && s3.elem == Seq::<char>::empty()
        && s3.region == Seq::<char>::empty() && s3.out == Seq::<char>::empty());

    lemma_run_components(s3, cs);
    let s4 = DemState { region: join_from(s3.region, cs), ..s3 };
    assert(dem_run_from(dem_init(), a + b) == s4);

    lemma_run_one(s4, 'E');
    let s5 = dem_step(s4, 'E');
    assert(s5.mode is Done);
    assert(s5.out =~= join_path(cs)) by {
        assert(join_from(Seq::<char>::empty(), cs) == join_path(cs));
        assert(Seq::<char>::empty() + join_from(s3.region, cs) =~= join_from(s3.region, cs));
        assert(s3.region =~= Seq::<char>::empty());
    }
    assert(demangle_spec(mangle(cs)) == Some(s5.out));
    assert(s5.out == join_path(cs));
}

/// Law: demangling is the identity on a string that nowhere contains the
/// marker pair `_Z`; in particular it is idempotent on already-demangled
/// names.
pub proof fn lemma_demangle_no_marker_identity(s: Seq<char>)
    requires
        forall|i: int| 0 <= i && i + 1 < s.len() ==> !(#[trigger] s[i] == '_' && s[i + 1] == 'Z'),
    ensures
        demangle_spec(s) == Some(s),
{
    lemma_no_marker_run(s);
    let st = dem_run_from(dem_init(), s);
    if st.mode is Underscore {
        assert(st.out.push('_') =~= s);
    }
}

/// Away from any `_Z` pair the machine stays in its copying states, with the
/// output tracking the input (short a buffered trailing underscore).
proof fn lemma_no_marker_run(s: Seq<char>)
    requires
        forall|i: int| 0 <= i && i + 1 < s.len() ==> !(#[trigger] s[i] == '_' && s[i + 1] == 'Z'),
    ensures
        ({
            let st = dem_run_from(dem_init(), s);
            ||| (st.mode is Prefix && st.out == s)
            ||| (st.mode is Underscore && s.len() > 0 && s[s.len() - 1] == '_' && st.out == s.drop_last())
        }),
    decreases s.len(),
{
    if s.len() == 0 {
        assert(dem_run_from(dem_init(), s) == dem_init());
        assert(dem_init().out =~= s);
    } else {
        let t = s.drop_last();
        let c = s[s.len() - 1];
        assert forall|i: int| 0 <= i && i + 1 < t.len() implies !(#[trigger] t[i] == '_' && t[i
            + 1] == 'Z') by {
            assert(t[i] == s[i]);
            assert(t[i + 1] == s[i + 1]);
        }
        lemma_no_marker_run(t);
        assert(s =~= t + seq![c]);
        lemma_run_concat(dem_init(), t, seq![c]);
        let st = dem_run_from(dem_init(), t);
        lemma_run_one(st, c);
        if st.mode is Underscore {
            // The buffered underscore sits just before c; a 'Z' here would be
            // a marker pair, which the premise rules out.
            assert(t.len() > 0 && t[t.len() - 1] == '_');
            assert(s[s.len() - 2] == '_');
            assert(!(s[s.len() - 2] == '_' && s[s.len() - 1] == 'Z'));
            assert(c != 'Z');
            assert(st.out.push('_').push(c) =~= s);
        } else {
            if c == '_' {
                assert(st.out == t && t == s.drop_last());
            } else {
                assert(st.out.push(c) =~= s);
            }
        }
    }
}

} // verus!
