//! The mathematical model of the pairwise filename scan.
//!
//! Two filenames are walked in lock-step, one character pair at a time.  The
//! scan is a small state machine with three phases: reading the shared
//! prefix, reading a candidate digit run, and validating the shared suffix.
//! `spec_compare` folds the machine over the paired characters and is the
//! specification that the executable code in `compare` is proved against.

use vstd::prelude::*;

verus! {

/// A decimal digit, as the scanners classify characters.
pub open spec fn is_digit(c: char) -> bool {
    48 <= c as u32 && c as u32 <= 57
}

/// The ways a single comparison of two filenames can fail.
#[derive(Clone, Copy, Debug, PartialEq, Eq, Structural)]
pub enum ScanError {
    /// Corresponding non-digit characters differ outside any digit run.
    PrefixMismatch,
    /// Corresponding characters differ inside a digit run without both being digits.
    NumericMismatch,
    /// Corresponding characters differ after the varying digit run was located.
    SuffixMismatch,
    /// The character pairs ran out before a varying digit run was found.
    TruncatedInput,
}

/// The phase of the scan, with the counters each phase carries.
///
/// Lengths count characters (Unicode scalar values), matching the lock-step
/// pairing of the two inputs.
pub ghost enum Phase {
    /// Inside the shared literal prefix; `prefix_len` characters confirmed.
    Prefix { prefix_len: nat },
    /// Inside a candidate digit run; `mismatch` records whether the two
    /// inputs ever disagreed on a digit of this run.
    Numeric { prefix_len: nat, numeric_len: nat, mismatch: bool },
    /// The varying run was found; `suffix_start` is where the suffix begins.
    Suffix { prefix_len: nat, numeric_len: nat, suffix_start: nat },
}

/// One transition of the scan on the character pair `(l, r)`.
pub open spec fn step(ph: Phase, l: char, r: char) -> Result<Phase, ScanError> {
    match ph {
        Phase::Prefix { prefix_len } => {
            if l == r {
                if is_digit(l) {
                    Ok(Phase::Numeric { prefix_len, numeric_len: 1, mismatch: false })
                } else {
                    Ok(Phase::Prefix { prefix_len: prefix_len + 1 })
                }
            } else if is_digit(l) && is_digit(r) {
                Ok(Phase::Numeric { prefix_len, numeric_len: 1, mismatch: true })
            } else {
                Err(ScanError::PrefixMismatch)
            }
        },
        Phase::Numeric { prefix_len, numeric_len, mismatch } => {
            if l == r {
                if is_digit(l) {
                    Ok(Phase::Numeric { prefix_len, numeric_len: numeric_len + 1, mismatch })
                } else if mismatch {
                    // The run that just ended is the varying index; the
                    // terminating character starts the suffix.
                    Ok(
                        Phase::Suffix {
                            prefix_len,
                            numeric_len,
                            suffix_start: prefix_len + numeric_len,
                        },
                    )
                } else {
                    // The run never disagreed: it is literal text, folded
                    // into the prefix together with the terminating character.
                    Ok(Phase::Prefix { prefix_len: prefix_len + numeric_len + 1 })
                }
            } else if is_digit(l) && is_digit(r) {
                Ok(Phase::Numeric { prefix_len, numeric_len: numeric_len + 1, mismatch: true })
            } else {
                Err(ScanError::NumericMismatch)
            }
        },
        Phase::Suffix { .. } => {
            if l == r {
                Ok(ph)
            } else {
                Err(ScanError::SuffixMismatch)
            }
        },
    }
}

/// Length of the paired region: the shorter input's length.
pub open spec fn min_len(a: Seq<char>, b: Seq<char>) -> int {
    if a.len() <= b.len() {
        a.len() as int
    } else {
        b.len() as int
    }
}

/// Runs the scan from position `i` in phase `ph` to the end of the paired
/// region.  Running out of pairs anywhere but in the suffix phase means no
/// varying digit run was ever found.
pub open spec fn scan_from(a: Seq<char>, b: Seq<char>, i: int, ph: Phase) -> Result<
    Phase,
    ScanError,
>
    decreases min_len(a, b) - i,
{
    if i < 0 || i >= min_len(a, b) {
        match ph {
            Phase::Suffix { .. } => Ok(ph),
            _ => Err(ScanError::TruncatedInput),
        }
    } else {
        match step(ph, a[i], b[i]) {
            Ok(ph2) => scan_from(a, b, i + 1, ph2),
            Err(e) => Err(e),
        }
    }
}

/// What a successful scan reports: character offsets into the inputs.
pub ghost struct ScanOutcome {
    /// Characters of shared literal prefix before the varying run.
    pub prefix_len: nat,
    /// Digits in the varying run.
    pub numeric_len: nat,
    /// Offset where the shared suffix begins: `prefix_len + numeric_len`.
    pub suffix_start: nat,
}

/// The comparison of two filenames: the whole scan, from the start in the
/// prefix phase.
pub open spec fn spec_compare(a: Seq<char>, b: Seq<char>) -> Result<ScanOutcome, ScanError> {
    match scan_from(a, b, 0, Phase::Prefix { prefix_len: 0 }) {
        Ok(ph) => match ph {
            Phase::Suffix { prefix_len, numeric_len, suffix_start } => Ok(
                ScanOutcome { prefix_len, numeric_len, suffix_start },
            ),
            // Unreachable: `scan_from` only accepts in the suffix phase.
            _ => Err(ScanError::TruncatedInput),
        },
        Err(e) => Err(e),
    }
}

/// The two inputs agree on every position in `[i, j)`.
pub open spec fn eq_range(a: Seq<char>, b: Seq<char>, i: int, j: int) -> bool {
    forall|t: int| i <= t < j ==> a[t] == b[t]
}

/// Both inputs hold digits on every position in `[i, j)`.
pub open spec fn digits_range(a: Seq<char>, b: Seq<char>, i: int, j: int) -> bool {
    forall|t: int| i <= t < j ==> is_digit(a[t]) && is_digit(b[t])
}

/// What each phase means about the region `[0, i)` already consumed.
pub open spec fn phase_inv(a: Seq<char>, b: Seq<char>, i: int, ph: Phase) -> bool {
    match ph {
        Phase::Prefix { prefix_len } => {
            &&& prefix_len == i
            &&& eq_range(a, b, 0, i)
        },
        Phase::Numeric { prefix_len, numeric_len, mismatch } => {
            &&& prefix_len + numeric_len == i
            &&& numeric_len >= 1
            &&& eq_range(a, b, 0, prefix_len as int)
            &&& digits_range(a, b, prefix_len as int, i)
            &&& (mismatch <==> exists|t: int| prefix_len <= t < i && a[t] != b[t])
        },
        Phase::Suffix { prefix_len, numeric_len, suffix_start } => {
            &&& suffix_start == prefix_len + numeric_len
            &&& numeric_len >= 1
            &&& suffix_start <= i
            &&& eq_range(a, b, 0, prefix_len as int)
            &&& digits_range(a, b, prefix_len as int, suffix_start as int)
            &&& (exists|t: int| prefix_len <= t < suffix_start && a[t] != b[t])
            &&& eq_range(a, b, suffix_start as int, i)
        },
    }
}

/// A successful transition preserves the phase meaning.
pub proof fn lemma_step_inv(a: Seq<char>, b: Seq<char>, i: int, ph: Phase)
    requires
        0 <= i < min_len(a, b),
        phase_inv(a, b, i, ph),
        step(ph, a[i], b[i]) is Ok,
    ensures
        phase_inv(a, b, i + 1, step(ph, a[i], b[i])->Ok_0),
{
    let ph2 = step(ph, a[i], b[i])->Ok_0;
    match ph {
        Phase::Prefix { prefix_len } => {
            if a[i] == b[i] && is_digit(a[i]) {
                assert(forall|t: int|
                    prefix_len <= t < i + 1 ==> a[t] == b[t]);
            }
        },
        Phase::Numeric { prefix_len, numeric_len, mismatch } => {
            let p = prefix_len as int;
            if a[i] == b[i] {
                if is_digit(a[i]) {
                    if mismatch {
                        let t0 = choose|t: int| p <= t < i && a[t] != b[t];
                        assert(p <= t0 < i + 1 && a[t0] != b[t0]);
                    } else {
                        assert(forall|t: int| p <= t < i + 1 ==> a[t] == b[t]);
                    }
                } else if mismatch {
                    let t0 = choose|t: int| p <= t < i && a[t] != b[t];
                    assert(p <= t0 < i && a[t0] != b[t0]);
                } else {
                    // Folding the run into the prefix: everything up to and
                    // including the terminating character is equal.
                    assert(forall|t: int| 0 <= t < i + 1 ==> a[t] == b[t]);
                }
            } else {
                assert(a[i] != b[i]);
                assert(p <= i < i + 1);
            }
        },
        Phase::Suffix { prefix_len, numeric_len, suffix_start } => {},
    }
}

} // verus!
