//! Laws of the comparison: properties that hold of `spec_compare` for all
//! inputs, proved once and for all.
//!
//! The helper lemmas walk the scan across a region of known shape (an equal
//! region, a digit run) and record which phase it ends in; the public lemmas
//! combine them into the statements a user of the library can rely on.

use vstd::prelude::*;

use crate::scan::Phase;
use crate::scan::ScanError;
use crate::scan::ScanOutcome;
use crate::scan::digits_range;
use crate::scan::eq_range;
use crate::scan::is_digit;
use crate::scan::lemma_step_inv;
use crate::scan::min_len;
use crate::scan::phase_inv;
use crate::scan::scan_from;
use crate::scan::spec_compare;
use crate::scan::step;

verus! {

/// The transition on a pair of equal characters, which never fails.
spec fn step_eq(ph: Phase, c: char) -> Phase {
    match ph {
        Phase::Prefix { prefix_len } => {
            if is_digit(c) {
                Phase::Numeric { prefix_len, numeric_len: 1, mismatch: false }
            } else {
                Phase::Prefix { prefix_len: prefix_len + 1 }
            }
        },
        Phase::Numeric { prefix_len, numeric_len, mismatch } => {
            if is_digit(c) {
                Phase::Numeric { prefix_len, numeric_len: numeric_len + 1, mismatch }
            } else if mismatch {
                Phase::Suffix { prefix_len, numeric_len, suffix_start: prefix_len + numeric_len }
            } else {
                Phase::Prefix { prefix_len: prefix_len + numeric_len + 1 }
            }
        },
        Phase::Suffix { .. } => ph,
    }
}

/// The phase after scanning the equal region `[i, j)` of `a`.
spec fn run_equal(a: Seq<char>, i: int, j: int, ph: Phase) -> Phase
    decreases j - i,
{
    if i >= j {
        ph
    } else {
        run_equal(a, i + 1, j, step_eq(ph, a[i]))
    }
}

/// Across a region where the two inputs agree, the scan cannot fail and its
/// phase evolves as `run_equal` says.
proof fn lemma_run_equal(a: Seq<char>, b: Seq<char>, i: int, j: int, ph: Phase)
    requires
        0 <= i <= j <= min_len(a, b),
        eq_range(a, b, i, j),
    ensures
        scan_from(a, b, i, ph) == scan_from(a, b, j, run_equal(a, i, j, ph)),
    decreases j - i,
{
    if i < j {
        assert(step(ph, a[i], b[i]) == Ok::<Phase, ScanError>(step_eq(ph, a[i])));
        lemma_run_equal(a, b, i + 1, j, step_eq(ph, a[i]));
    }
}

/// Phases that can still fold back into the prefix: the prefix phase itself,
/// or a digit run that has not disagreed.
spec fn prefix_class(ph: Phase, i: int) -> bool {
    ||| (ph matches Phase::Prefix { prefix_len } && prefix_len == i)
    ||| (ph matches Phase::Numeric { prefix_len, numeric_len, mismatch } && !mismatch
        && prefix_len + numeric_len == i && numeric_len >= 1)
}

/// Scanning an equal region keeps the scanner in the prefix class, and an
/// equal region ending in a non-digit always leaves it in the prefix phase.
proof fn lemma_run_equal_class(a: Seq<char>, i: int, j: int, ph: Phase)
    requires
        0 <= i <= j,
        prefix_class(ph, i),
    ensures
        prefix_class(run_equal(a, i, j, ph), j),
        j > i && !is_digit(a[j - 1]) ==> run_equal(a, i, j, ph) == (Phase::Prefix {
            prefix_len: j as nat,
        }),
    decreases j - i,
{
    if i < j {
        assert(prefix_class(step_eq(ph, a[i]), i + 1));
        lemma_run_equal_class(a, i + 1, j, step_eq(ph, a[i]));
    }
}

/// Once in the suffix phase, an equal region changes nothing.
proof fn lemma_run_equal_suffix(a: Seq<char>, i: int, j: int, ph: Phase)
    requires
        ph is Suffix,
        i <= j,
    ensures
        run_equal(a, i, j, ph) == ph,
    decreases j - i,
{
    if i < j {
        lemma_run_equal_suffix(a, i + 1, j, ph);
    }
}

/// The scan treats its two inputs symmetrically.
proof fn lemma_scan_swap(a: Seq<char>, b: Seq<char>, i: int, ph: Phase)
    ensures
        scan_from(a, b, i, ph) == scan_from(b, a, i, ph),
    decreases min_len(a, b) - i,
{
    assert(min_len(a, b) == min_len(b, a));
    if 0 <= i < min_len(a, b) {
        assert(step(ph, a[i], b[i]) == step(ph, b[i], a[i]));
        match step(ph, a[i], b[i]) {
            Ok(ph2) => {
                lemma_scan_swap(a, b, i + 1, ph2);
            },
            Err(_) => {},
        }
    }
}

/// Whatever the scan accepts satisfies the phase meaning over the whole
/// paired region.
proof fn lemma_scan_ok_props(a: Seq<char>, b: Seq<char>, i: int, ph: Phase)
    requires
        0 <= i <= min_len(a, b),
        phase_inv(a, b, i, ph),
    ensures
        scan_from(a, b, i, ph) matches Ok(phf) ==> phf is Suffix && phase_inv(
            a,
            b,
            min_len(a, b),
            phf,
        ),
    decreases min_len(a, b) - i,
{
    if i < min_len(a, b) {
        match step(ph, a[i], b[i]) {
            Ok(ph2) => {
                lemma_step_inv(a, b, i, ph);
                lemma_scan_ok_props(a, b, i + 1, ph2);
            },
            Err(_) => {},
        }
    }
}

/// Swapping the two input filenames yields the same outcome: the same error,
/// or the same prefix length, digit width and suffix offset.
pub proof fn lemma_swap_outcome(a: Seq<char>, b: Seq<char>)
    ensures
        spec_compare(a, b) == spec_compare(b, a),
{
    lemma_scan_swap(a, b, 0, Phase::Prefix { prefix_len: 0 });
}

/// For inputs of equal length, swapping the two filenames yields the very
/// same comparison: the prefix, suffix and padding substrings agree, because
/// they are determined by the shared structure of the pair.
pub proof fn lemma_comparison_symmetric(a: Seq<char>, b: Seq<char>)
    requires
        a.len() == b.len(),
    ensures
        spec_compare(a, b) == spec_compare(b, a),
        spec_compare(a, b) matches Ok(o) ==> {
            &&& o.suffix_start <= a.len()
            &&& a.subrange(0, o.prefix_len as int) == b.subrange(0, o.prefix_len as int)
            &&& a.subrange(o.suffix_start as int, a.len() as int) == b.subrange(
                o.suffix_start as int,
                b.len() as int,
            )
        },
{
    lemma_swap_outcome(a, b);
    let init = Phase::Prefix { prefix_len: 0 };
    lemma_scan_ok_props(a, b, 0, init);
    if spec_compare(a, b) is Ok {
        let o = spec_compare(a, b)->Ok_0;
        let phf = scan_from(a, b, 0, init)->Ok_0;
        assert(phase_inv(a, b, min_len(a, b), phf));
        assert(a.subrange(0, o.prefix_len as int) =~= b.subrange(0, o.prefix_len as int));
        assert(a.subrange(o.suffix_start as int, a.len() as int) =~= b.subrange(
            o.suffix_start as int,
            b.len() as int,
        ));
    }
}

/// Two filenames with no difference anywhere in their paired region never
/// produce a pattern: the scan runs out of pairs and reports truncation.
pub proof fn lemma_identical_inputs_truncated(a: Seq<char>, b: Seq<char>)
    requires
        eq_range(a, b, 0, min_len(a, b)),
    ensures
        spec_compare(a, b) == Err::<ScanOutcome, ScanError>(ScanError::TruncatedInput),
{
    let init = Phase::Prefix { prefix_len: 0 };
    lemma_run_equal(a, b, 0, min_len(a, b), init);
    lemma_run_equal_class(a, 0, min_len(a, b), init);
}

/// Across a region where both inputs hold digits, the scan stays in the
/// numeric phase, counting the digits and recording whether any pair of them
/// disagreed.
proof fn lemma_run_digits(a: Seq<char>, b: Seq<char>, p: int, i: int, j: int, n: nat, m: bool)
    requires
        0 <= p <= i <= j <= min_len(a, b),
        digits_range(a, b, i, j),
        n >= 1,
    ensures
        scan_from(
            a,
            b,
            i,
            Phase::Numeric { prefix_len: p as nat, numeric_len: n, mismatch: m },
        ) == scan_from(
            a,
            b,
            j,
            Phase::Numeric {
                prefix_len: p as nat,
                numeric_len: (n + j - i) as nat,
                mismatch: m || exists|t: int| i <= t < j && a[t] != b[t],
            },
        ),
    decreases j - i,
{
    if i < j {
        let m2 = m || a[i] != b[i];
        let ph = Phase::Numeric { prefix_len: p as nat, numeric_len: n, mismatch: m };
        assert(step(ph, a[i], b[i]) == Ok::<Phase, ScanError>(
            Phase::Numeric { prefix_len: p as nat, numeric_len: (n + 1) as nat, mismatch: m2 },
        ));
        lemma_run_digits(a, b, p, i + 1, j, (n + 1) as nat, m2);
        let e_wide = exists|t: int| i <= t < j && a[t] != b[t];
        let e_rest = exists|t: int| i + 1 <= t < j && a[t] != b[t];
        if e_rest {
            let t0 = choose|t: int| i + 1 <= t < j && a[t] != b[t];
            assert(i <= t0 < j && a[t0] != b[t0]);
        }
        if a[i] != b[i] {
            assert(i <= i < j && a[i] != b[i]);
        }
        if e_wide && a[i] == b[i] {
            let t0 = choose|t: int| i <= t < j && a[t] != b[t];
            assert(i + 1 <= t0 < j && a[t0] != b[t0]);
        }
        assert((m2 || e_rest) == (m || e_wide));
    }
}

/// A differing pair that is not two digits makes the scan fail, whatever
/// phase it reaches that pair in, and never by truncation.
proof fn lemma_scan_err_at(a: Seq<char>, b: Seq<char>, i: int, t: int, ph: Phase)
    requires
        0 <= i <= t < min_len(a, b),
        a[t] != b[t],
        !(is_digit(a[t]) && is_digit(b[t])),
    ensures
        scan_from(a, b, i, ph) matches Err(e) && e != ScanError::TruncatedInput,
    decreases t - i,
{
    if i == t {
        assert(step(ph, a[i], b[i]) is Err);
    } else {
        match step(ph, a[i], b[i]) {
            Ok(ph2) => {
                lemma_scan_err_at(a, b, i + 1, t, ph2);
            },
            Err(_) => {},
        }
    }
}

/// Two filenames that differ at a position where not both characters are
/// digits never produce a pattern: one of the three mismatch errors is
/// reported.
pub proof fn lemma_nondigit_difference_fails(a: Seq<char>, b: Seq<char>, t: int)
    requires
        0 <= t < min_len(a, b),
        a[t] != b[t],
        !(is_digit(a[t]) && is_digit(b[t])),
    ensures
        spec_compare(a, b) matches Err(e) && e != ScanError::TruncatedInput,
{
    lemma_scan_err_at(a, b, 0, t, Phase::Prefix { prefix_len: 0 });
}

/// A first difference that is not two digits and does not immediately follow
/// a digit is still inside the literal prefix, so the failure is a prefix
/// mismatch.
pub proof fn lemma_prefix_difference(a: Seq<char>, b: Seq<char>, t: int)
    requires
        0 <= t < min_len(a, b),
        eq_range(a, b, 0, t),
        a[t] != b[t],
        !(is_digit(a[t]) && is_digit(b[t])),
        t == 0 || !is_digit(a[t - 1]),
    ensures
        spec_compare(a, b) == Err::<ScanOutcome, ScanError>(ScanError::PrefixMismatch),
{
    let init = Phase::Prefix { prefix_len: 0 };
    lemma_run_equal(a, b, 0, t, init);
    lemma_run_equal_class(a, 0, t, init);
    let ph = run_equal(a, 0, t, init);
    assert(ph == Phase::Prefix { prefix_len: t as nat });
    assert(step(ph, a[t], b[t]) == Err::<Phase, ScanError>(ScanError::PrefixMismatch));
}

/// Two sequences of digits of the same length that are not equal disagree at
/// some position.
proof fn lemma_unequal_seqs_differ(d1: Seq<char>, d2: Seq<char>)
    requires
        d1.len() == d2.len(),
        d1 != d2,
    ensures
        exists|u: int| 0 <= u < d1.len() && d1[u] != d2[u],
{
    if forall|u: int| 0 <= u < d1.len() ==> d1[u] == d2[u] {
        assert(d1 =~= d2);
    }
}

/// Scans a pair of the shape `p + d1 + rest_a` vs `p + d2 + rest_b` up to the
/// point where the varying run has just been recognised: the character after
/// the run is equal on both sides and not a digit, so the scan stands in the
/// suffix phase right behind it.
proof fn lemma_scan_to_suffix(a: Seq<char>, b: Seq<char>, pl: int, dl: int)
    requires
        0 <= pl,
        1 <= dl,
        pl + dl + 1 <= min_len(a, b),
        eq_range(a, b, 0, pl),
        pl == 0 || !is_digit(a[pl - 1]),
        digits_range(a, b, pl, pl + dl),
        exists|u: int| pl <= u < pl + dl && a[u] != b[u],
        pl + dl < min_len(a, b) ==> a[pl + dl] == b[pl + dl] && !is_digit(a[pl + dl]),
    ensures
        scan_from(a, b, 0, Phase::Prefix { prefix_len: 0 }) == scan_from(
            a,
            b,
            pl + dl + 1,
            Phase::Suffix {
                prefix_len: pl as nat,
                numeric_len: dl as nat,
                suffix_start: (pl + dl) as nat,
            },
        ),
{
    let init = Phase::Prefix { prefix_len: 0 };
    lemma_run_equal(a, b, 0, pl, init);
    lemma_run_equal_class(a, 0, pl, init);
    let ph1 = run_equal(a, 0, pl, init);
    assert(ph1 == Phase::Prefix { prefix_len: pl as nat });
    let m0 = a[pl] != b[pl];
    let ph2 = Phase::Numeric { prefix_len: pl as nat, numeric_len: 1, mismatch: m0 };
    assert(step(ph1, a[pl], b[pl]) == Ok::<Phase, ScanError>(ph2));
    lemma_run_digits(a, b, pl, pl + 1, pl + dl, 1, m0);
    let m1 = m0 || exists|t: int| pl + 1 <= t < pl + dl && a[t] != b[t];
    assert(m1) by {
        let u = choose|u: int| pl <= u < pl + dl && a[u] != b[u];
        if u != pl {
            assert(pl + 1 <= u < pl + dl && a[u] != b[u]);
        }
    };
    let ph3 = Phase::Numeric { prefix_len: pl as nat, numeric_len: dl as nat, mismatch: true };
    assert(scan_from(a, b, pl + 1, ph2) == scan_from(a, b, pl + dl, ph3));
    let phs = Phase::Suffix {
        prefix_len: pl as nat,
        numeric_len: dl as nat,
        suffix_start: (pl + dl) as nat,
    };
    assert(step(ph3, a[pl + dl], b[pl + dl]) == Ok::<Phase, ScanError>(phs));
}

/// The one law of successful comparisons: for any pair of filenames of the
/// shape `prefix + digits + suffix` where only the two equal-width digit runs
/// differ — the shared prefix may itself contain digit runs, as long as it
/// does not end in one — the comparison succeeds and reports exactly that
/// prefix, that suffix, and the width of the run.
pub proof fn lemma_single_varying_run(p: Seq<char>, d1: Seq<char>, d2: Seq<char>, s: Seq<char>)
    requires
        d1.len() == d2.len(),
        d1.len() >= 1,
        digits_range(d1, d2, 0, d1.len() as int),
        d1 != d2,
        p.len() == 0 || !is_digit(p[p.len() - 1]),
        s.len() >= 1,
        !is_digit(s[0]),
    ensures
        spec_compare(p + d1 + s, p + d2 + s) == Ok::<ScanOutcome, ScanError>(
            ScanOutcome {
                prefix_len: p.len(),
                numeric_len: d1.len(),
                suffix_start: p.len() + d1.len(),
            },
        ),
        (p + d1 + s).subrange(0, p.len() as int) == p,
        (p + d1 + s).subrange((p.len() + d1.len()) as int, (p + d1 + s).len() as int) == s,
{
    let a = p + d1 + s;
    let b = p + d2 + s;
    let pl = p.len() as int;
    let dl = d1.len() as int;
    let n = min_len(a, b);
    assert(a.len() == pl + dl + s.len());
    assert(b.len() == a.len());
    assert(n == a.len());
    assert(forall|t: int| 0 <= t < pl ==> a[t] == p[t] && b[t] == p[t]);
    assert(forall|t: int| pl <= t < pl + dl ==> a[t] == d1[t - pl] && b[t] == d2[t - pl]);
    assert(forall|t: int| pl + dl <= t < n ==> a[t] == s[t - pl - dl] && b[t] == s[t - pl - dl]);
    lemma_unequal_seqs_differ(d1, d2);
    assert(exists|u: int| pl <= u < pl + dl && a[u] != b[u]) by {
        let u0 = choose|u: int| 0 <= u < d1.len() && d1[u] != d2[u];
        assert(pl <= u0 + pl < pl + dl && a[u0 + pl] != b[u0 + pl]);
    };
    lemma_scan_to_suffix(a, b, pl, dl);
    let phs = Phase::Suffix {
        prefix_len: pl as nat,
        numeric_len: dl as nat,
        suffix_start: (pl + dl) as nat,
    };
    lemma_run_equal(a, b, pl + dl + 1, n, phs);
    lemma_run_equal_suffix(a, pl + dl + 1, n, phs);
    assert(a.subrange(0, pl) =~= p);
    assert(a.subrange(pl + dl, a.len() as int) =~= s);
}

/// For the same shape of pair, but with suffixes that agree on their first
/// character and later differ, the comparison fails with a suffix mismatch:
/// the difference sits after the varying run was located.  `t` is the first
/// position where the two suffixes differ.
pub proof fn lemma_suffix_difference(
    p: Seq<char>,
    d1: Seq<char>,
    d2: Seq<char>,
    s1: Seq<char>,
    s2: Seq<char>,
    t: int,
)
    requires
        d1.len() == d2.len(),
        d1.len() >= 1,
        digits_range(d1, d2, 0, d1.len() as int),
        d1 != d2,
        p.len() == 0 || !is_digit(p[p.len() - 1]),
        s1.len() >= 1,
        s2.len() >= 1,
        s1[0] == s2[0],
        !is_digit(s1[0]),
        1 <= t < min_len(s1, s2),
        eq_range(s1, s2, 0, t),
        s1[t] != s2[t],
    ensures
        spec_compare(p + d1 + s1, p + d2 + s2) == Err::<ScanOutcome, ScanError>(
            ScanError::SuffixMismatch,
        ),
{
    let a = p + d1 + s1;
    let b = p + d2 + s2;
    let pl = p.len() as int;
    let dl = d1.len() as int;
    let n = min_len(a, b);
    assert(a.len() == pl + dl + s1.len());
    assert(b.len() == pl + dl + s2.len());
    assert(n == pl + dl + min_len(s1, s2));
    assert(forall|t0: int| 0 <= t0 < pl ==> a[t0] == p[t0] && b[t0] == p[t0]);
    assert(forall|t0: int| pl <= t0 < pl + dl ==> a[t0] == d1[t0 - pl] && b[t0] == d2[t0 - pl]);
    assert(forall|t0: int|
        pl + dl <= t0 < a.len() ==> a[t0] == s1[t0 - pl - dl]);
    assert(forall|t0: int|
        pl + dl <= t0 < b.len() ==> b[t0] == s2[t0 - pl - dl]);
    lemma_unequal_seqs_differ(d1, d2);
    assert(exists|u: int| pl <= u < pl + dl && a[u] != b[u]) by {
        let u0 = choose|u: int| 0 <= u < d1.len() && d1[u] != d2[u];
        assert(pl <= u0 + pl < pl + dl && a[u0 + pl] != b[u0 + pl]);
    };
    lemma_scan_to_suffix(a, b, pl, dl);
    let phs = Phase::Suffix {
        prefix_len: pl as nat,
        numeric_len: dl as nat,
        suffix_start: (pl + dl) as nat,
    };
    lemma_run_equal(a, b, pl + dl + 1, pl + dl + t, phs);
    lemma_run_equal_suffix(a, pl + dl + 1, pl + dl + t, phs);
    assert(a[pl + dl + t] != b[pl + dl + t]);
    assert(step(phs, a[pl + dl + t], b[pl + dl + t]) == Err::<Phase, ScanError>(
        ScanError::SuffixMismatch,
    ));
}

} // verus!

