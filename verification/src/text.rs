use vstd::prelude::*;

verus! {

use crate::demangle::{dec_digit_val, is_dec_digit};

/// Character-wise string equality.
pub fn str_eq(a: &str, b: &str) -> (r: bool)
    ensures
        r == (a@ == b@),
{
    let na = a.unicode_len();
    let nb = b.unicode_len();
    if na != nb {
        return false;
    }
    let mut i: usize = 0;
    while i < na
        invariant
            na == a@.len(),
            na == b@.len(),
            i <= na,
            forall|j: int| 0 <= j < i ==> a@[j] == b@[j],
        decreases na - i,
    {
        if a.get_char(i) != b.get_char(i) {
            return false;
        }
        i = i + 1;
    }
    proof {
        assert(a@ =~= b@);
    }
    true
}

pub open spec fn spec_ends_with(s: Seq<char>, t: Seq<char>) -> bool {
    t.len() <= s.len() && s.skip(s.len() - t.len()) == t
}

/// Whether `s` ends with the suffix `t`.
pub fn ends_with(s: &str, t: &str) -> (r: bool)
    ensures
        r == spec_ends_with(s@, t@),
{
    let ns = s.unicode_len();
    let nt = t.unicode_len();
    if nt > ns {
        return false;
    }
    let off = ns - nt;
    let mut i: usize = 0;
    while i < nt
        invariant
            ns == s@.len(),
            nt == t@.len(),
            nt <= ns,
            off == ns - nt,
            i <= nt,
            forall|j: int| 0 <= j < i ==> s@[off + j] == t@[j],
        decreases nt - i,
    {
        if s.get_char(off + i) != t.get_char(i) {
            proof {
                assert(s@.skip(off as int)[i as int] == s@[off + i]);
            }
            return false;
        }
        i = i + 1;
    }
    proof {
        assert(s@.skip(off as int) =~= t@);
    }
    true
}

pub open spec fn spec_starts_with(s: Seq<char>, t: Seq<char>) -> bool {
    t.len() <= s.len() && s.take(t.len() as int) == t
}

/// Whether `s` starts with the prefix `t`.
pub fn starts_with(s: &str, t: &str) -> (r: bool)
    ensures
        r == spec_starts_with(s@, t@),
{
    let ns = s.unicode_len();
    let nt = t.unicode_len();
    if nt > ns {
        return false;
    }
    let mut i: usize = 0;
    while i < nt
        invariant
            ns == s@.len(),
            nt == t@.len(),
            nt <= ns,
            i <= nt,
            forall|j: int| 0 <= j < i ==> s@[j] == t@[j],
        decreases nt - i,
    {
        if s.get_char(i) != t.get_char(i) {
            proof {
                assert(s@.take(nt as int)[i as int] == s@[i as int]);
            }
            return false;
        }
        i = i + 1;
    }
    proof {
        assert(s@.take(nt as int) =~= t@);
    }
    true
}

/// Whether a `::` separator starts anywhere in `s`.
pub open spec fn has_sep(s: Seq<char>) -> bool {
    exists|j: int| 0 <= j && j + 1 < s.len() && s[j] == ':' && #[trigger] s[j + 1] == ':'
}

/// The part of a path after its last `::` separator, as `split("::")`'s last
/// piece gives it: separators are consumed greedily from the left.
pub open spec fn after_last_sep(s: Seq<char>) -> Seq<char>
    decreases s.len(),
{
    if !has_sep(s) {
        s
    } else if s.len() >= 2 && s[0] == ':' && s[1] == ':' {
        after_last_sep(s.skip(2))
    } else if s.len() >= 1 {
        after_last_sep(s.skip(1))
    } else {
        s
    }
}

/// Skipping a separator-free prefix does not change the last path piece.
proof fn lemma_after_last_sep_skip(s: Seq<char>, k: int)
    requires
        0 <= k <= s.len(),
        forall|j: int| 0 <= j < k ==> !(j + 1 < s.len() && s[j] == ':' && #[trigger] s[j + 1]
            == ':'),
        has_sep(s.skip(k)),
    ensures
        after_last_sep(s) == after_last_sep(s.skip(k)),
    decreases k,
{
    if k > 0 {
        let m = choose|m: int|
            0 <= m && m + 1 < s.skip(k).len() && s.skip(k)[m] == ':' && #[trigger] s.skip(
                k,
            )[m + 1] == ':';
        assert(s[k + m] == ':' && s[k + m + 1] == ':');
        assert(has_sep(s)) by {
            assert(0 <= k + m && (k + m) + 1 < s.len() && s[k + m] == ':' && s[(k + m) + 1]
                == ':');
        }
        assert(!(0int + 1 < s.len() && s[0int] == ':' && s[0int + 1] == ':'));
        assert(!(s.len() >= 2 && s[0] == ':' && s[1] == ':'));
        assert(after_last_sep(s) == after_last_sep(s.skip(1)));
        assert(s.skip(1).skip(k - 1) =~= s.skip(k));
        assert forall|j: int| 0 <= j < k - 1 implies !(j + 1 < s.skip(1).len() && s.skip(1)[j]
            == ':' && #[trigger] s.skip(1)[j + 1] == ':') by {
            assert(s.skip(1)[j] == s[j + 1]);
            if j + 1 < s.skip(1).len() {
                assert(s.skip(1)[j + 1] == s[j + 2]);
            }
        }
        lemma_after_last_sep_skip(s.skip(1), k - 1);
    } else {
        assert(s.skip(0) =~= s);
    }
}

/// The final piece of a `::`-separated path (the whole string when no
/// separator occurs in it).
pub fn last_path_component<'a>(s: &'a str) -> (r: &'a str)
    ensures
        r@ == after_last_sep(s@),
{
    let n = s.unicode_len();
    let mut i: usize = 0;
    let mut start: usize = 0;
    proof {
        assert(s@.skip(0int) =~= s@);
    }
    while i < n
        invariant
            n == s@.len(),
            i <= n,
            start <= i,
            after_last_sep(s@) == after_last_sep(s@.skip(start as int)),
            forall|j: int| start <= j < i ==> !(j + 1 < s@.len() && s@[j] == ':'
                && #[trigger] s@[j + 1] == ':'),
        decreases n - i,
    {
        if i + 1 < n && s.get_char(i) == ':' && s.get_char(i + 1) == ':' {
            proof {
                let b = start as int;
                let t = s@.skip(b);
                let u = s@.skip(i as int);
                assert(t.skip(i - b) =~= u);
                assert(u[0] == s@[i as int]);
                assert(u[0int + 1] == s@[i + 1]);
                assert(u[1] == ':');
                assert(has_sep(u)) by {
                    assert(0 <= 0int && 0int + 1 < u.len() && u[0int] == ':' && u[0int + 1] == ':');
                }
                assert(has_sep(t.skip(i - b)));
                assert forall|j: int| 0 <= j < i - b implies !(j + 1 < t.len() && t[j] == ':'
                    && #[trigger] t[j + 1] == ':') by {
                    assert(t[j] == s@[b + j]);
                    if j + 1 < t.len() {
                        assert(t[j + 1] == s@[b + j + 1]);
                        assert(s@[(b + j) + 1] == s@[b + j + 1]);
                    }
                }
                lemma_after_last_sep_skip(t, i - b);
                assert(after_last_sep(t) == after_last_sep(u));
                assert(u.skip(2) =~= s@.skip(i + 2));
                assert(after_last_sep(u) == after_last_sep(u.skip(2)));
                assert(after_last_sep(s@) == after_last_sep(s@.skip(i + 2)));
            }
            start = i + 2;
            i = i + 2;
        } else {
            proof {
                if i + 1 < n {
                    assert(!(s@[i as int] == ':' && s@[i + 1] == ':'));
                }
            }
            i = i + 1;
        }
    }
    proof {
        let b = start as int;
        assert(!has_sep(s@.skip(b))) by {
            if has_sep(s@.skip(b)) {
                let m = choose|m: int|
                    0 <= m && m + 1 < s@.skip(b).len() && s@.skip(b)[m] == ':'
                        && #[trigger] s@.skip(b)[m + 1] == ':';
                assert(s@[b + m] == ':' && s@[b + m + 1] == ':');
            }
        }
        assert(after_last_sep(s@.skip(b)) == s@.skip(b));
    }
    s.substring_char(start, n)
}

/// The number written by a run of decimal digits, most significant first.
pub open spec fn dec_val(s: Seq<char>) -> nat
    decreases s.len(),
{
    if s.len() == 0 {
        0
    } else {
        dec_val(s.drop_last()) * 10 + dec_digit_val(s[s.len() - 1])
    }
}

pub open spec fn all_dec_digits(s: Seq<char>) -> bool {
    forall|j: int| 0 <= j < s.len() ==> is_dec_digit(#[trigger] s[j])
}

/// Reads a whole string of decimal digits as a number. Fails exactly on an
/// empty string, a non-digit character, or a value over u64::MAX.
pub fn parse_u64(s: &str) -> (r: Option<u64>)
    ensures
        match r {
            Some(v) => s@.len() > 0 && all_dec_digits(s@) && v as nat == dec_val(s@),
            None => s@.len() == 0 || !all_dec_digits(s@) || dec_val(s@) > u64::MAX as nat,
        },
{
    let n = s.unicode_len();
    if n == 0 {
        return None;
    }
    let mut acc: u64 = 0;
    let mut i: usize = 0;
    proof {
        assert(s@.take(0int) =~= Seq::<char>::empty());
    }
    while i < n
        invariant
            n == s@.len(),
            i <= n,
            acc as nat == dec_val(s@.take(i as int)),
            all_dec_digits(s@.take(i as int)),
        decreases n - i,
    {
        let c = s.get_char(i);
        let cu = c as u32;
        proof {
            assert(s@.take(i + 1).drop_last() =~= s@.take(i as int));
            assert(s@.take(i + 1)[i as int] == s@[i as int]);
        }
        if cu < 48 || cu > 57 {
            proof {
                assert(!is_dec_digit(s@[i as int]));
                assert(!all_dec_digits(s@)) by {
                    assert(0 <= i < s@.len() && !is_dec_digit(s@[i as int]));
                }
            }
            return None;
        }
        let d = (cu - 48) as u64;
        let next = match acc.checked_mul(10) {
            Some(x) => x.checked_add(d),
            None => None,
        };
        match next {
            Some(v) => {
                acc = v;
                proof {
                    assert(forall|j: int|
                        0 <= j < i + 1 ==> is_dec_digit(#[trigger] s@.take(i + 1)[j]));
                }
            },
            None => {
                proof {
                    assert(dec_val(s@.take(i + 1)) > u64::MAX as nat);
                    lemma_dec_val_monotonic(s@, i + 1);
                }
                return None;
            },
        }
        i = i + 1;
    }
    proof {
        assert(s@.take(n as int) =~= s@);
    }
    Some(acc)
}

/// A longer run of digits never writes a smaller number: the value of a
/// prefix bounds the value of the whole.
proof fn lemma_dec_val_monotonic(s: Seq<char>, k: int)
    requires
        0 <= k <= s.len(),
    ensures
        dec_val(s.take(k)) <= dec_val(s),
    decreases s.len() - k,
{
    if k < s.len() {
        assert(s.take(k + 1).drop_last() =~= s.take(k));
        assert(dec_val(s.take(k)) <= dec_val(s.take(k + 1)));
        lemma_dec_val_monotonic(s, k + 1);
    } else {
        assert(s.take(k) =~= s);
    }
}

} // verus!
