//! The executable comparison: a typestate scanner walked over two filenames.
//!
//! Each phase of the scan is its own state type (`Prefix`, `Numerics`,
//! `Suffix`), and each transition consumes the old state value and returns
//! the next one, so stale phase data can never be reused.  Every transition
//! is proved to agree with `scan::step`, and the driving loop in
//! `compare_paths` is proved to compute exactly `scan::spec_compare`.

use vstd::prelude::*;
use vstd::string::StrSliceExecFns;

use crate::scan::Phase;
use crate::scan::ScanError;
use crate::scan::ScanOutcome;
use crate::scan::is_digit;
use crate::scan::min_len;
use crate::scan::phase_inv;
use crate::scan::scan_from;
use crate::scan::spec_compare;
use crate::scan::lemma_step_inv;
use crate::pattern::Comparison;

verus! {

/// Typestate: scanning the shared literal prefix.
#[derive(Debug)]
pub struct Prefix {
    /// Characters of shared prefix confirmed so far.
    pub prefix_length: usize,
}

/// Typestate: counting a candidate run of digit characters.
#[derive(Debug)]
pub struct Numerics {
    pub prefix_length: usize,
    /// Digits consumed in the current candidate run.
    pub numeric_length: usize,
    /// Whether the two filenames ever disagreed on a digit of this run.
    pub encountered_mismatch: bool,
}

/// Typestate: the varying run was located; the rest must match exactly.
#[derive(Debug)]
pub struct Suffix {
    pub prefix_length: usize,
    pub numeric_length: usize,
    /// Character offset where the shared suffix begins; always
    /// `prefix_length + numeric_length`.
    pub suffix_start: usize,
}

/// The scanner, carrying exactly one phase's state.
#[derive(Debug)]
pub struct CompareState<STATE> {
    pub state: STATE,
}

/// A transition that either stays in the current phase or moves to the next.
pub enum Either<Current, Next> {
    Left(CompareState<Current>),
    Right(CompareState<Next>),
}

/// A transition with two possible successor phases.
pub enum EitherT<Current, RightOne, RightTwo> {
    Continue(CompareState<Current>),
    RightOne(CompareState<RightOne>),
    RightTwo(CompareState<RightTwo>),
}

impl CompareState<Prefix> {
    /// The phase this state stands for.
    pub open spec fn phase(self) -> Phase {
        Phase::Prefix { prefix_len: self.state.prefix_length as nat }
    }
}

impl CompareState<Numerics> {
    pub open spec fn phase(self) -> Phase {
        Phase::Numeric {
            prefix_len: self.state.prefix_length as nat,
            numeric_len: self.state.numeric_length as nat,
            mismatch: self.state.encountered_mismatch,
        }
    }
}

impl CompareState<Suffix> {
    pub open spec fn phase(self) -> Phase {
        Phase::Suffix {
            prefix_len: self.state.prefix_length as nat,
            numeric_len: self.state.numeric_length as nat,
            suffix_start: self.state.suffix_start as nat,
        }
    }
}

/// The phase of a prefix-scanner transition result.
pub open spec fn either_phase(e: Either<Prefix, Numerics>) -> Phase {
    match e {
        Either::Left(p) => p.phase(),
        Either::Right(n) => n.phase(),
    }
}

/// The phase of a numeric-scanner transition result.
pub open spec fn either_t_phase(e: EitherT<Numerics, Prefix, Suffix>) -> Phase {
    match e {
        EitherT::Continue(n) => n.phase(),
        EitherT::RightOne(p) => p.phase(),
        EitherT::RightTwo(s) => s.phase(),
    }
}

/// Whether `c` is one of the ten decimal digit characters.
pub fn is_ascii_digit_char(c: char) -> (r: bool)
    ensures
        r == is_digit(c),
{
    let v = c as u32;
    48 <= v && v <= 57
}

impl CompareState<Prefix> {
    /// One prefix-phase transition on the character pair `(l, r)`.
    pub fn prefix_match(self, l: char, r: char) -> (res: Result<
        Either<Prefix, Numerics>,
        ScanError,
    >)
        requires
            self.state.prefix_length < usize::MAX,
        ensures
            match res {
                Ok(e) => crate::scan::step(self.phase(), l, r) == Ok::<Phase, ScanError>(
                    either_phase(e),
                ),
                Err(err) => crate::scan::step(self.phase(), l, r) == Err::<Phase, ScanError>(err),
            },
    {
        if l == r {
            if is_ascii_digit_char(l) {
                // Equal digits: a candidate run begins, nothing mismatched yet.
                let state = CompareState {
                    state: Numerics {
                        prefix_length: self.state.prefix_length,
                        numeric_length: 1,
                        encountered_mismatch: false,
                    },
                };
                Ok(Either::Right(state))
            } else {
                // Equal literal characters: still in the prefix.
                let state = CompareState {
                    state: Prefix { prefix_length: self.state.prefix_length + 1 },
                };
                Ok(Either::Left(state))
            }
        } else {
            if is_ascii_digit_char(l) && is_ascii_digit_char(r) {
                // Differing digits: the varying run starts right here.
                let state = CompareState {
                    state: Numerics {
                        prefix_length: self.state.prefix_length,
                        numeric_length: 1,
                        encountered_mismatch: true,
                    },
                };
                Ok(Either::Right(state))
            } else {
                Err(ScanError::PrefixMismatch)
            }
        }
    }
}

impl CompareState<Numerics> {
    /// One numeric-phase transition on the character pair `(l, r)`.
    pub fn read_numeric(self, l: char, r: char) -> (res: Result<
        EitherT<Numerics, Prefix, Suffix>,
        ScanError,
    >)
        requires
            self.state.numeric_length < usize::MAX,
            self.state.prefix_length + self.state.numeric_length + 1 <= usize::MAX,
        ensures
            match res {
                Ok(e) => crate::scan::step(self.phase(), l, r) == Ok::<Phase, ScanError>(
                    either_t_phase(e),
                ),
                Err(err) => crate::scan::step(self.phase(), l, r) == Err::<Phase, ScanError>(err),
            },
    {
        if l == r {
            if is_ascii_digit_char(l) {
                // Equal digits: the run goes on.
                let state = CompareState {
                    state: Numerics {
                        prefix_length: self.state.prefix_length,
                        numeric_length: self.state.numeric_length + 1,
                        encountered_mismatch: self.state.encountered_mismatch,
                    },
                };
                Ok(EitherT::Continue(state))
            } else if self.state.encountered_mismatch {
                // The run disagreed somewhere: it is the varying index, and
                // this terminating character begins the suffix.
                let state = CompareState {
                    state: Suffix {
                        prefix_length: self.state.prefix_length,
                        numeric_length: self.state.numeric_length,
                        suffix_start: self.state.prefix_length + self.state.numeric_length,
                    },
                };
                Ok(EitherT::RightTwo(state))
            } else {
                // The run never disagreed: fold it, and the terminating
                // character, back into the literal prefix.
                let state = CompareState {
                    state: Prefix {
                        prefix_length: self.state.prefix_length + self.state.numeric_length + 1,
                    },
                };
                Ok(EitherT::RightOne(state))
            }
        } else {
            if is_ascii_digit_char(l) && is_ascii_digit_char(r) {
                // Differing digits: still a digit run, now known to vary.
                let state = CompareState {
                    state: Numerics {
                        prefix_length: self.state.prefix_length,
                        numeric_length: self.state.numeric_length + 1,
                        encountered_mismatch: true,
                    },
                };
                Ok(EitherT::Continue(state))
            } else {
                Err(ScanError::NumericMismatch)
            }
        }
    }
}

impl CompareState<Suffix> {
    /// One suffix-phase check on the character pair `(l, r)`.
    pub fn suffix_match(&mut self, l: char, r: char) -> (res: Result<(), ScanError>)
        ensures
            *final(self) == *old(self),
            match res {
                Ok(_) => crate::scan::step(old(self).phase(), l, r) == Ok::<Phase, ScanError>(
                    old(self).phase(),
                ),
                Err(err) => crate::scan::step(old(self).phase(), l, r) == Err::<
                    Phase,
                    ScanError,
                >(err),
            },
    {
        if l == r {
            Ok(())
        } else {
            Err(ScanError::SuffixMismatch)
        }
    }
}

/// The scanner in whichever phase it currently holds.
enum Driver {
    InPrefix(CompareState<Prefix>),
    InNumeric(CompareState<Numerics>),
    AtSuffix(CompareState<Suffix>),
}

/// The phase a driver value stands for.
spec fn driver_phase(d: Driver) -> Phase {
    match d {
        Driver::InPrefix(p) => p.phase(),
        Driver::InNumeric(n) => n.phase(),
        Driver::AtSuffix(s) => s.phase(),
    }
}

/// Compares two filenames and reports the shared prefix, the shared suffix,
/// and the digit width of the single varying decimal run between them.
///
/// The result is exactly what the scan model `spec_compare` yields on the
/// two character sequences; the prefix and suffix are slices of `one`.
pub fn compare_paths<'a>(one: &'a str, two: &str) -> (r: Result<Comparison<'a>, ScanError>)
    ensures
        match r {
            Ok(c) => {
                &&& spec_compare(one@, two@) matches Ok(o)
                &&& c.prefix@ == one@.subrange(0, o.prefix_len as int)
                &&& c.zero_padding == o.numeric_len
                &&& c.suffix@ == one@.subrange(o.suffix_start as int, one@.len() as int)
                &&& o.suffix_start == o.prefix_len + o.numeric_len
                &&& o.suffix_start <= min_len(one@, two@)
                &&& c.zero_padding >= 1
                &&& crate::scan::eq_range(one@, two@, 0, o.prefix_len as int)
                &&& crate::scan::digits_range(one@, two@, o.prefix_len as int, o.suffix_start as int)
                &&& exists|t: int| o.prefix_len <= t < o.suffix_start && one@[t] != two@[t]
                &&& crate::scan::eq_range(one@, two@, o.suffix_start as int, min_len(one@, two@))
            },
            Err(e) => spec_compare(one@, two@) == Err::<ScanOutcome, ScanError>(e),
        },
{
    let one_len = one.unicode_len();
    let two_len = two.unicode_len();
    let min: usize = if one_len <= two_len {
        one_len
    } else {
        two_len
    };
    let ghost a = one@;
    let ghost b = two@;
    assert(min == min_len(a, b));

    let mut st = Driver::InPrefix(CompareState { state: Prefix { prefix_length: 0 } });
    let mut i: usize = 0;
    while i < min
        invariant
            a == one@,
            b == two@,
            one_len == a.len(),
            min == min_len(a, b),
            i <= min,
            phase_inv(a, b, i as int, driver_phase(st)),
            scan_from(a, b, i as int, driver_phase(st)) == scan_from(
                a,
                b,
                0,
                Phase::Prefix { prefix_len: 0 },
            ),
        decreases min - i,
    {
        let l = one.get_char(i);
        let r = two.get_char(i);
        match st {
            Driver::InPrefix(p) => {
                let ghost ph0 = p.phase();
                match p.prefix_match(l, r) {
                    Ok(next) => {
                        proof {
                            lemma_step_inv(a, b, i as int, ph0);
                        }
                        st = match next {
                            Either::Left(p2) => Driver::InPrefix(p2),
                            Either::Right(n2) => Driver::InNumeric(n2),
                        };
                    },
                    Err(e) => {
                        return Err(e);
                    },
                }
            },
            Driver::InNumeric(n) => {
                let ghost ph0 = n.phase();
                match n.read_numeric(l, r) {
                    Ok(next) => {
                        proof {
                            lemma_step_inv(a, b, i as int, ph0);
                        }
                        st = match next {
                            EitherT::Continue(n2) => Driver::InNumeric(n2),
                            EitherT::RightOne(p2) => Driver::InPrefix(p2),
                            EitherT::RightTwo(s2) => Driver::AtSuffix(s2),
                        };
                    },
                    Err(e) => {
                        return Err(e);
                    },
                }
            },
            Driver::AtSuffix(mut s) => {
                let ghost ph0 = s.phase();
                match s.suffix_match(l, r) {
                    Ok(_) => {
                        proof {
                            lemma_step_inv(a, b, i as int, ph0);
                        }
                        st = Driver::AtSuffix(s);
                    },
                    Err(e) => {
                        return Err(e);
                    },
                }
            },
        }
        i = i + 1;
    }
    match st {
        Driver::AtSuffix(s) => {
            let prefix = one.substring_char(0, s.state.prefix_length);
            let suffix = one.substring_char(s.state.suffix_start, one_len);
            Ok(Comparison { prefix, zero_padding: s.state.numeric_length, suffix })
        },
        Driver::InPrefix(_) => Err(ScanError::TruncatedInput),
        Driver::InNumeric(_) => Err(ScanError::TruncatedInput),
    }
}

} // verus!
