use vstd::prelude::*;

use crate::text::{all_digits, digit_value, digits_value, is_digit};

verus! {

/// Position of the first `.` of the text.
pub open spec fn is_first_dot(s: Seq<char>, i: int) -> bool {
    0 <= i < s.len() && s[i] == '.' && forall|k: int| 0 <= k < i ==> s[k] != '.'
}

/// A decimal number with an optional fractional part: digits, then at most one `.`
/// followed by digits, with at least one digit in all. Gives the two digit strings.
pub open spec fn decimal_parts(s: Seq<char>) -> Option<(Seq<char>, Seq<char>)> {
    if exists|i: int| is_first_dot(s, i) {
        let i = choose|i: int| is_first_dot(s, i);
        let a = s.subrange(0, i);
        let b = s.subrange(i + 1, s.len() as int);
        if all_digits(a) && all_digits(b) && a.len() + b.len() > 0 { Some((a, b)) } else { None }
    } else if all_digits(s) && s.len() > 0 {
        Some((s, Seq::empty()))
    } else {
        None
    }
}

/// `decimal_parts` when the first `.` is at `dot` (`dot` == length: no `.`).
pub open spec fn parts_at(s: Seq<char>, dot: int) -> Option<(Seq<char>, Seq<char>)> {
    if dot < s.len() {
        let a = s.subrange(0, dot);
        let b = s.subrange(dot + 1, s.len() as int);
        if all_digits(a) && all_digits(b) && s.len() > 1 { Some((a, b)) } else { None }
    } else if all_digits(s) && s.len() > 0 {
        Some((s, Seq::empty()))
    } else {
        None
    }
}

/// Whether any digit of the text is not zero.
pub open spec fn has_nonzero(s: Seq<char>) -> bool {
    exists|i: int| 0 <= i < s.len() && s[i] != '0'
}

/// A percentage written with digits: its value in hundredths, rounded up, at most
/// 100 percent.
pub open spec fn percent_hundredths(whole: Seq<char>, frac: Seq<char>) -> nat {
    let w = digits_value(whole);
    let d1: nat = if frac.len() > 0 { digit_value(frac[0]) } else { 0 };
    let d2: nat = if frac.len() > 1 { digit_value(frac[1]) } else { 0 };
    let up: nat = if frac.len() > 2 && has_nonzero(frac.subrange(2, frac.len() as int)) { 1 } else { 0 };
    let v = w * 100 + d1 * 10 + d2 + up;
    if v > 10000 { 10000 } else { v }
}

/// The cpu threshold a typed text stands for, if the text is a number.
pub open spec fn cpu_threshold_of(s: Seq<char>) -> Option<nat> {
    match decimal_parts(s) {
        Some((a, b)) => Some(percent_hundredths(a, b)),
        None => None,
    }
}

/// `x`, or 101 when it is larger.
pub open spec fn cap101(x: nat) -> nat {
    if x > 101 { 101 } else { x }
}

proof fn lemma_capped_step(x: nat, d: nat)
    requires
        d <= 9,
    ensures
        cap101(cap101(x) * 10 + d) == cap101(x * 10 + d),
{
    if x > 101 {
        assert(x * 10 + d > 101) by (nonlinear_arith)
            requires x > 101;
    }
}

proof fn lemma_all_digits_extend(s: Seq<char>, lo: int, j: int)
    requires
        0 <= lo <= j < s.len(),
        all_digits(s.subrange(lo, j)),
        is_digit(s[j]),
    ensures
        all_digits(s.subrange(lo, j + 1)),
{
    assert forall|k: int| 0 <= k < j + 1 - lo implies is_digit(#[trigger] s.subrange(lo, j + 1)[k]) by {
        if k < j - lo {
            assert(s.subrange(lo, j + 1)[k] == s.subrange(lo, j)[k]);
        }
    }
}

fn digit_of(c: char) -> (r: u32)
    requires
        is_digit(c),
    ensures
        r as nat == digit_value(c),
        r <= 9,
{
    (c as u32) - ('0' as u32)
}

/// Reads a cpu threshold typed as a percentage: `Some` exactly when the text is a
/// number as `decimal_parts` describes, holding its value in hundredths of a percent,
/// rounded up and at most 10000.
pub fn parse_cpu_threshold(s: &Vec<char>) -> (r: Option<u32>)
    ensures
        r is Some <==> cpu_threshold_of(s@) is Some,
        r is Some ==> r->0 as nat == cpu_threshold_of(s@)->0,
{
    let n = s.len();
    let mut dot: usize = 0;
    while dot < n && s[dot] != '.'
        invariant
            n == s@.len(),
            dot <= n,
            forall|k: int| 0 <= k < dot ==> s@[k] != '.',
        decreases n - dot,
    {
        dot = dot + 1;
    }
    proof {
        if dot < n {
            assert(is_first_dot(s@, dot as int));
            assert forall|i: int| is_first_dot(s@, i) implies i == dot by {
                if i < dot {
                } else if i > dot {
                    assert(s@[dot as int] != '.');
                }
            }
        } else {
            assert forall|i: int| !is_first_dot(s@, i) by {
                if 0 <= i < s@.len() {
                    assert(s@[i] != '.');
                }
            }
            assert(s@.subrange(0, dot as int) =~= s@);
        }
        assert(decimal_parts(s@) == parts_at(s@, dot as int));
    }
    // The whole part, capped at 101 (anything above 100 percent ends at the cap).
    let mut whole: u32 = 0;
    let mut j: usize = 0;
    assert(s@.subrange(0, 0) =~= Seq::<char>::empty());
    while j < dot
        invariant
            n == s@.len(),
            dot <= n,
            j <= dot,
            decimal_parts(s@) == parts_at(s@, dot as int),
            dot == n ==> s@.subrange(0, dot as int) == s@,
            whole as nat == cap101(digits_value(s@.subrange(0, j as int))),
            all_digits(s@.subrange(0, j as int)),
        decreases dot - j,
    {
        let c = s[j];
        if !('0' <= c && c <= '9') {
            proof {
                assert(!all_digits(s@.subrange(0, dot as int))) by {
                    assert(s@.subrange(0, dot as int)[j as int] == s@[j as int]);
                }
            }
            return None;
        }
        let d = digit_of(c);
        proof {
            let p = s@.subrange(0, j as int);
            let q = s@.subrange(0, j + 1);
            assert(q.drop_last() =~= p);
            lemma_capped_step(digits_value(p), d as nat);
            lemma_all_digits_extend(s@, 0, j as int);
        }
        let next = whole * 10 + d;
        whole = if next > 101 { 101 } else { next };
        j = j + 1;
    }
    if dot == n {
        if n == 0 {
            return None;
        }
        let v = whole * 100;
        return Some(if v > 10000 { 10000 } else { v });
    }
    // The fractional part: its first two digits, and whether a later one is not zero.
    let ghost b = s@.subrange(dot + 1, n as int);
    let mut d1: u32 = 0;
    let mut d2: u32 = 0;
    let mut up: bool = false;
    let mut m: usize = dot + 1;
    assert(s@.subrange(dot + 1, dot + 1) =~= Seq::<char>::empty());
    while m < n
        invariant
            n == s@.len(),
            dot < n,
            dot + 1 <= m <= n,
            decimal_parts(s@) == parts_at(s@, dot as int),
            all_digits(s@.subrange(0, dot as int)),
            whole as nat == cap101(digits_value(s@.subrange(0, dot as int))),
            b == s@.subrange(dot + 1, n as int),
            all_digits(s@.subrange(dot + 1, m as int)),
            d1 as nat == if m > dot + 1 { digit_value(b[0]) } else { 0 },
            d2 as nat == if m > dot + 2 { digit_value(b[1]) } else { 0 },
            up == (m > dot + 3 && has_nonzero(b.subrange(2, m - dot - 1))),
        decreases n - m,
    {
        let c = s[m];
        if !('0' <= c && c <= '9') {
            proof {
                assert(b[m - dot - 1] == c);
                assert(!all_digits(b));
            }
            return None;
        }
        let d = digit_of(c);
        proof {
            lemma_all_digits_extend(s@, dot + 1, m as int);
            if m > dot + 2 {
                let k = m - dot - 1;
                assert(has_nonzero(b.subrange(2, k + 1)) == (has_nonzero(b.subrange(2, k)) || b[k] != '0')) by {
                    if has_nonzero(b.subrange(2, k)) {
                        let w = choose|w: int| 0 <= w < k - 2 && #[trigger] b.subrange(2, k)[w] != '0';
                        assert(b.subrange(2, k + 1)[w] == b.subrange(2, k)[w]);
                    }
                    if b[k] != '0' {
                        assert(b.subrange(2, k + 1)[k - 2] == b[k]);
                    }
                    if has_nonzero(b.subrange(2, k + 1)) {
                        let w = choose|w: int| 0 <= w < k - 1 && #[trigger] b.subrange(2, k + 1)[w] != '0';
                        if w < k - 2 {
                            assert(b.subrange(2, k)[w] == b.subrange(2, k + 1)[w]);
                        }
                    }
                }
            }
        }
        if m == dot + 1 {
            d1 = d;
        } else if m == dot + 2 {
            d2 = d;
        } else if d != 0 {
            up = true;
        }
        m = m + 1;
    }
    if dot == 0 && n == 1 {
        return None;
    }
    let v = whole * 100 + d1 * 10 + d2 + if up { 1 } else { 0 };
    proof {
        assert(s@.subrange(dot + 1, m as int) == b);
        if b.len() > 2 {
            assert(b.subrange(2, b.len() as int) == b.subrange(2, n - dot - 1));
        }
    }
    Some(if v > 10000 { 10000 } else { v })
}

} // verus!
