//! Jaro name similarity, computed exactly as a fraction of integers.
//!
//! The matcher's fuzzy fallback ranks submissions by the Jaro similarity
//! between two names: characters match when they are equal and stand within
//! a search window, each character pairs with at most one partner, and the
//! score is `(m/|a| + m/|b| + (m - t)/m) / 3` for `m` matches and `t`
//! half-transpositions. Holding the score as numerator and denominator
//! keeps every comparison (against the acceptance threshold, and between
//! two candidates) exact.

use vstd::prelude::*;

verus! {

/// Longest name, in characters, the exact fraction arithmetic supports
/// without overflowing the 128-bit comparisons.
pub const MAX_NAME_LEN: usize = 1048576;

pub open spec fn search_range(la: int, lb: int) -> int {
    let m = if la >= lb {
        la
    } else {
        lb
    };
    if m / 2 >= 1 {
        m / 2 - 1
    } else {
        0
    }
}

pub open spec fn lo_bound(i: int, sr: int) -> int {
    if i > sr {
        i - sr
    } else {
        0
    }
}

pub open spec fn hi_bound(i: int, sr: int, lb: int) -> int {
    if lb <= i + sr + 1 {
        lb
    } else {
        i + sr + 1
    }
}

/// The first position in `[j, hi)` holding an unconsumed character of `b`
/// equal to `ac`.
pub open spec fn find_match(ac: char, b: Seq<char>, flags: Seq<bool>, j: int, hi: int) -> Option<
    int,
>
    decreases hi - j,
{
    if j >= hi {
        None
    } else if ac == b[j] && !flags[j] {
        Some(j)
    } else {
        find_match(ac, b, flags, j + 1, hi)
    }
}

pub open spec fn step_flags(a: Seq<char>, b: Seq<char>, i: int, f: Seq<bool>) -> Seq<bool> {
    let sr = search_range(a.len() as int, b.len() as int);
    match find_match(a[i], b, f, lo_bound(i, sr), hi_bound(i, sr, b.len() as int)) {
        Some(j) => f.update(j, true),
        None => f,
    }
}

/// Which characters of `b` are consumed after greedily matching `a[0..i]`.
pub open spec fn flags_after(a: Seq<char>, b: Seq<char>, i: int) -> Seq<bool>
    decreases i,
{
    if i <= 0 {
        Seq::new(b.len(), |k: int| false)
    } else {
        step_flags(a, b, i - 1, flags_after(a, b, i - 1))
    }
}

/// Whether `a[i]` finds a partner, given the flags reached before it.
pub open spec fn a_matched(a: Seq<char>, b: Seq<char>, i: int) -> bool {
    let sr = search_range(a.len() as int, b.len() as int);
    find_match(a[i], b, flags_after(a, b, i), lo_bound(i, sr), hi_bound(i, sr, b.len() as int))
        is Some
}

/// The matched characters of `a[0..i]`, in order.
pub open spec fn a_seq(a: Seq<char>, b: Seq<char>, i: int) -> Seq<char>
    decreases i,
{
    if i <= 0 {
        Seq::empty()
    } else if a_matched(a, b, i - 1) {
        a_seq(a, b, i - 1).push(a[i - 1])
    } else {
        a_seq(a, b, i - 1)
    }
}

/// The characters of `b` from position `q` on whose flag is set, in order.
pub open spec fn flagged_from(b: Seq<char>, f: Seq<bool>, q: int) -> Seq<char>
    decreases b.len() - q,
{
    if q < 0 || q >= b.len() {
        Seq::empty()
    } else if f[q] {
        seq![b[q]] + flagged_from(b, f, q + 1)
    } else {
        flagged_from(b, f, q + 1)
    }
}

pub open spec fn matched_a(a: Seq<char>, b: Seq<char>) -> Seq<char> {
    a_seq(a, b, a.len() as int)
}

pub open spec fn matched_b(a: Seq<char>, b: Seq<char>) -> Seq<char> {
    flagged_from(b, flags_after(a, b, a.len() as int), 0)
}

/// Positions from `r` on where the two matched sequences disagree.
pub open spec fn mism_from(x: Seq<char>, y: Seq<char>, r: int) -> int
    decreases x.len() - r,
{
    if r < 0 || r >= x.len() || r >= y.len() {
        0
    } else {
        (if x[r] != y[r] {
            1int
        } else {
            0int
        }) + mism_from(x, y, r + 1)
    }
}

pub open spec fn jaro_matches(a: Seq<char>, b: Seq<char>) -> int {
    matched_a(a, b).len() as int
}

pub open spec fn jaro_trans(a: Seq<char>, b: Seq<char>) -> int {
    mism_from(matched_a(a, b), matched_b(a, b), 0) / 2
}

/// Numerator of the exact Jaro similarity.
pub open spec fn jaro_num(a: Seq<char>, b: Seq<char>) -> int {
    let la = a.len() as int;
    let lb = b.len() as int;
    if la == 0 && lb == 0 {
        1
    } else if la == 0 || lb == 0 {
        0
    } else {
        let m = jaro_matches(a, b);
        if m == 0 {
            0
        } else {
            let t = jaro_trans(a, b);
            m * m * lb + m * m * la + (m - t) * la * lb
        }
    }
}

/// Denominator of the exact Jaro similarity.
pub open spec fn jaro_den(a: Seq<char>, b: Seq<char>) -> int {
    let la = a.len() as int;
    let lb = b.len() as int;
    if la == 0 || lb == 0 {
        1
    } else {
        let m = jaro_matches(a, b);
        if m == 0 {
            1
        } else {
            3 * la * lb * m
        }
    }
}

/// Whether similarity `n1/d1` is strictly greater than `n2/d2`.
pub open spec fn sim_gt_spec(n1: int, d1: int, n2: int, d2: int) -> bool {
    n1 * d2 > n2 * d1
}

/// Whether similarity `num/den` strictly exceeds the acceptance
/// threshold 4/5.
pub open spec fn sim_over_threshold_spec(num: int, den: int) -> bool {
    5 * num > 4 * den
}

/// Computes the exact Jaro similarity of two names as a fraction.
pub fn jaro_fraction(a: &Vec<char>, b: &Vec<char>) -> (r: (u128, u128))
    requires
        a@.len() <= MAX_NAME_LEN,
        b@.len() <= MAX_NAME_LEN,
    ensures
        r.0 == jaro_num(a@, b@),
        r.1 == jaro_den(a@, b@),
        r.0 < 0x4000_0000_0000_0000u128,
        1 <= r.1 < 0x4000_0000_0000_0000u128,
{
    let la: usize = a.len();
    let lb: usize = b.len();
    if la == 0 && lb == 0 {
        return (1, 1);
    }
    if la == 0 || lb == 0 {
        return (0, 1);
    }
    let mx: usize = if la >= lb {
        la
    } else {
        lb
    };
    let sr: usize = if mx / 2 >= 1 {
        mx / 2 - 1
    } else {
        0
    };
    assert(sr == search_range(la as int, lb as int));

    let mut flags: Vec<bool> = Vec::new();
    while flags.len() < lb
        invariant
            flags@.len() <= lb,
            forall|k: int| 0 <= k < flags@.len() ==> flags@[k] == false,
        decreases lb - flags@.len(),
    {
        flags.push(false);
    }
    proof {
        assert(flags@ =~= flags_after(a@, b@, 0));
    }

    let mut aflags: Vec<bool> = Vec::new();
    let mut i: usize = 0;
    while i < la
        invariant
            i <= la,
            la == a@.len(),
            lb == b@.len(),
            1 <= la <= MAX_NAME_LEN,
            1 <= lb <= MAX_NAME_LEN,
            sr == search_range(la as int, lb as int),
            sr <= MAX_NAME_LEN,
            flags@.len() == lb,
            flags@ == flags_after(a@, b@, i as int),
            aflags@.len() == i,
            forall|k: int| 0 <= k < i ==> aflags@[k] == a_matched(a@, b@, k),
        decreases la - i,
    {
        let lo: usize = if i > sr {
            i - sr
        } else {
            0
        };
        let hi: usize = if lb <= i + sr + 1 {
            lb
        } else {
            i + sr + 1
        };
        assert(lo == lo_bound(i as int, sr as int));
        assert(hi == hi_bound(i as int, sr as int, lb as int));
        let ac = a[i];
        let ghost fm = find_match(ac, b@, flags@, lo as int, hi as int);
        let mut found: Option<usize> = None;
        if lo < hi {
            let mut j: usize = lo;
            while j < hi
                invariant
                    lo <= j <= hi,
                    hi <= lb,
                    lb == b@.len(),
                    flags@.len() == lb,
                    found is None ==> fm == find_match(ac, b@, flags@, j as int, hi as int),
                    found is Some ==> j == hi,
                    found is Some ==> fm == Some(found->0 as int) && found->0 < lb
                        && !flags@[found->0 as int],
                decreases hi - j,
            {
                if ac == b[j] && !flags[j] {
                    assert(find_match(ac, b@, flags@, j as int, hi as int) == Some(j as int));
                    found = Some(j);
                    j = hi;
                } else {
                    assert(find_match(ac, b@, flags@, j as int, hi as int) == find_match(
                        ac,
                        b@,
                        flags@,
                        j + 1,
                        hi as int,
                    ));
                    j += 1;
                }
            }
            proof {
                if found is None {
                    assert(fm == find_match(ac, b@, flags@, j as int, hi as int));
                    assert(fm is None);
                }
            }
        } else {
            proof {
                assert(fm is None);
            }
        }
        match found {
            Some(j2) => {
                flags.set(j2, true);
                aflags.push(true);
            },
            None => {
                aflags.push(false);
            },
        }
        proof {
            assert(a_matched(a@, b@, i as int) == (fm is Some));
            assert(flags@ == step_flags(a@, b@, i as int, flags_after(a@, b@, i as int)));
            assert(flags@ == flags_after(a@, b@, i + 1));
        }
        i += 1;
    }

    // collect the matched characters of a, in order
    let mut am: Vec<char> = Vec::new();
    let mut k: usize = 0;
    while k < la
        invariant
            k <= la,
            la == a@.len(),
            aflags@.len() == la,
            forall|x: int| 0 <= x < la ==> aflags@[x] == a_matched(a@, b@, x),
            am@ == a_seq(a@, b@, k as int),
            am@.len() <= k,
        decreases la - k,
    {
        if aflags[k] {
            am.push(a[k]);
        }
        k += 1;
    }
    proof {
        assert(am@ == matched_a(a@, b@));
    }

    // collect the matched characters of b, in order
    let ghost bm = matched_b(a@, b@);
    let mut bmv: Vec<char> = Vec::new();
    let mut q: usize = 0;
    while q < lb
        invariant
            q <= lb,
            lb == b@.len(),
            flags@.len() == lb,
            flags@ == flags_after(a@, b@, la as int),
            bmv@ + flagged_from(b@, flags@, q as int) == bm,
            bmv@.len() <= q,
        decreases lb - q,
    {
        proof {
            if flags@[q as int] {
                assert(flagged_from(b@, flags@, q as int) == seq![b@[q as int]] + flagged_from(
                    b@,
                    flags@,
                    q + 1,
                ));
            } else {
                assert(flagged_from(b@, flags@, q as int) == flagged_from(b@, flags@, q + 1));
            }
        }
        if flags[q] {
            bmv.push(b[q]);
            proof {
                assert(bmv@ + flagged_from(b@, flags@, q + 1) =~= bm);
            }
        }
        q += 1;
    }
    proof {
        assert(flagged_from(b@, flags@, lb as int) =~= Seq::<char>::empty());
        assert(bmv@ =~= bm);
    }

    let m: usize = am.len();
    if m == 0 {
        return (0, 1);
    }

    // count the positions where the two matched sequences disagree
    let ghost aa = am@;
    let ghost bb = bmv@;
    let mn: usize = if am.len() <= bmv.len() {
        am.len()
    } else {
        bmv.len()
    };
    let mut cnt: usize = 0;
    let mut r: usize = 0;
    while r < mn
        invariant
            r <= mn,
            cnt <= r,
            mn <= am@.len(),
            mn <= bmv@.len(),
            am@ == aa,
            bmv@ == bb,
            mism_from(aa, bb, 0) == cnt + mism_from(aa, bb, r as int),
        decreases mn - r,
    {
        if am[r] != bmv[r] {
            cnt += 1;
        }
        r += 1;
    }
    proof {
        assert(mism_from(aa, bb, mn as int) == 0);
    }
    let t: usize = cnt / 2;

    let m_u: u128 = m as u128;
    let t_u: u128 = t as u128;
    let la_u: u128 = la as u128;
    let lb_u: u128 = lb as u128;
    assert(m <= la && m <= MAX_NAME_LEN);
    assert(t_u <= m_u);
    assert(m_u * m_u * lb_u <= 0x100000 * 0x100000 * 0x100000) by (nonlinear_arith)
        requires
            m_u <= 0x100000,
            lb_u <= 0x100000,
    ;
    assert(m_u * m_u * la_u <= 0x100000 * 0x100000 * 0x100000) by (nonlinear_arith)
        requires
            m_u <= 0x100000,
            la_u <= 0x100000,
    ;
    assert((m_u - t_u) * la_u * lb_u <= 0x100000 * 0x100000 * 0x100000) by (nonlinear_arith)
        requires
            t_u <= m_u,
            m_u <= 0x100000,
            la_u <= 0x100000,
            lb_u <= 0x100000,
    ;
    assert(m_u * m_u <= 0x100000 * 0x100000) by (nonlinear_arith)
        requires
            m_u <= 0x100000,
    ;
    assert((m_u - t_u) * la_u <= 0x100000 * 0x100000) by (nonlinear_arith)
        requires
            t_u <= m_u,
            m_u <= 0x100000,
            la_u <= 0x100000,
    ;
    assert(la_u * lb_u <= 0x100000 * 0x100000) by (nonlinear_arith)
        requires
            la_u <= 0x100000,
            lb_u <= 0x100000,
    ;
    assert(3 * la_u * lb_u <= 3 * 0x100000 * 0x100000) by (nonlinear_arith)
        requires
            la_u <= 0x100000,
            lb_u <= 0x100000,
    ;
    assert(1 <= 3 * la_u * lb_u * m_u <= 3 * 0x100000 * 0x100000 * 0x100000) by (nonlinear_arith)
        requires
            1 <= la_u <= 0x100000,
            1 <= lb_u <= 0x100000,
            1 <= m_u <= 0x100000,
    ;
    let num: u128 = m_u * m_u * lb_u + m_u * m_u * la_u + (m_u - t_u) * la_u * lb_u;
    let den: u128 = 3 * la_u * lb_u * m_u;
    (num, den)
}

/// Whether similarity `num/den` strictly exceeds 4/5, the matcher's
/// acceptance threshold.
pub fn sim_over_threshold(num: u128, den: u128) -> (r: bool)
    requires
        num < 0x4000_0000_0000_0000u128,
        den < 0x4000_0000_0000_0000u128,
    ensures
        r == sim_over_threshold_spec(num as int, den as int),
{
    5 * num > 4 * den
}

/// Whether similarity `n1/d1` is strictly greater than `n2/d2`.
pub fn sim_gt(n1: u128, d1: u128, n2: u128, d2: u128) -> (r: bool)
    requires
        n1 < 0x4000_0000_0000_0000u128,
        d1 < 0x4000_0000_0000_0000u128,
        n2 < 0x4000_0000_0000_0000u128,
        d2 < 0x4000_0000_0000_0000u128,
    ensures
        r == sim_gt_spec(n1 as int, d1 as int, n2 as int, d2 as int),
{
    proof {
        assert(n1 * d2 < 0x4000_0000_0000_0000 * 0x4000_0000_0000_0000) by (nonlinear_arith)
            requires
                n1 < 0x4000_0000_0000_0000u128,
                d2 < 0x4000_0000_0000_0000u128,
        ;
        assert(n2 * d1 < 0x4000_0000_0000_0000 * 0x4000_0000_0000_0000) by (nonlinear_arith)
            requires
                n2 < 0x4000_0000_0000_0000u128,
                d1 < 0x4000_0000_0000_0000u128,
        ;
    }
    n1 * d2 > n2 * d1
}

} // verus!
