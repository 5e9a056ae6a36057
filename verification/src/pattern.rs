//! The inferred pattern and its placeholder rendering.
//!
//! A successful comparison yields a `Comparison`: the shared prefix, the
//! shared suffix, and the digit width of the varying index.  Its
//! `ffmpeg_filename` method renders the printf-style placeholder
//! `{prefix}%0{width}d{suffix}` that a frame-sequence encoder consumes.

use vstd::prelude::*;
use vstd::string::StringExecFns;

use crate::scan::ScanError;
use crate::scan::ScanOutcome;
use crate::scan::spec_compare;

verus! {

/// The result of comparing two filenames of one numbered sequence.
///
/// `prefix` and `suffix` borrow from the first input filename;
/// `zero_padding` is the number of decimal digits in the varying index and
/// is at least one for every successful comparison.
#[derive(Debug, PartialEq, Eq)]
pub struct Comparison<'a> {
    pub prefix: &'a str,
    pub zero_padding: usize,
    pub suffix: &'a str,
}

/// The decimal digit character for a value below ten.
pub open spec fn digit_char(d: nat) -> char {
    if d == 0 {
        '0'
    } else if d == 1 {
        '1'
    } else if d == 2 {
        '2'
    } else if d == 3 {
        '3'
    } else if d == 4 {
        '4'
    } else if d == 5 {
        '5'
    } else if d == 6 {
        '6'
    } else if d == 7 {
        '7'
    } else if d == 8 {
        '8'
    } else {
        '9'
    }
}

/// The decimal notation of `n`, without leading zeros.
pub open spec fn spec_decimal(n: nat) -> Seq<char>
    decreases n,
{
    if n < 10 {
        seq![digit_char(n)]
    } else {
        spec_decimal(n / 10) + seq![digit_char(n % 10)]
    }
}

/// The placeholder string a pattern renders to: the prefix, a zero-padded
/// decimal marker of the given width, and the suffix.
pub open spec fn spec_placeholder(prefix: Seq<char>, width: nat, suffix: Seq<char>) -> Seq<char> {
    prefix + seq!['%', '0'] + spec_decimal(width) + seq!['d'] + suffix
}

/// The one-character string for a decimal digit value.
fn digit_str(d: usize) -> (r: &'static str)
    requires
        d < 10,
    ensures
        r@ == seq![digit_char(d as nat)],
{
    if d == 0 {
        proof {
            reveal_strlit("0");
            assert("0"@ =~= seq![digit_char(0)]);
        }
        "0"
    } else if d == 1 {
        proof {
            reveal_strlit("1");
            assert("1"@ =~= seq![digit_char(1)]);
        }
        "1"
    } else if d == 2 {
        proof {
            reveal_strlit("2");
            assert("2"@ =~= seq![digit_char(2)]);
        }
        "2"
    } else if d == 3 {
        proof {
            reveal_strlit("3");
            assert("3"@ =~= seq![digit_char(3)]);
        }
        "3"
    } else if d == 4 {
        proof {
            reveal_strlit("4");
            assert("4"@ =~= seq![digit_char(4)]);
        }
        "4"
    } else if d == 5 {
        proof {
            reveal_strlit("5");
            assert("5"@ =~= seq![digit_char(5)]);
        }
        "5"
    } else if d == 6 {
        proof {
            reveal_strlit("6");
            assert("6"@ =~= seq![digit_char(6)]);
        }
        "6"
    } else if d == 7 {
        proof {
            reveal_strlit("7");
            assert("7"@ =~= seq![digit_char(7)]);
        }
        "7"
    } else if d == 8 {
        proof {
            reveal_strlit("8");
            assert("8"@ =~= seq![digit_char(8)]);
        }
        "8"
    } else {
        proof {
            reveal_strlit("9");
            assert("9"@ =~= seq![digit_char(d as nat)]);
        }
        "9"
    }
}

/// Appends the decimal notation of `n` to `out`.
fn push_decimal(n: usize, out: &mut String)
    ensures
        final(out)@ == old(out)@ + spec_decimal(n as nat),
    decreases n,
{
    if n < 10 {
        let s = digit_str(n);
        out.append(s);
    } else {
        assert(n / 10 < n && n / 10 >= 1) by (nonlinear_arith)
            requires
                n >= 10,
        ;
        let ghost before = out@;
        push_decimal(n / 10, out);
        let s = digit_str(n % 10);
        out.append(s);
        proof {
            assert(out@ =~= before + spec_decimal(n as nat));
        }
    }
}

impl<'a> Comparison<'a> {
    /// Renders the placeholder string `{prefix}%0{zero_padding}d{suffix}`
    /// handed to the external frame-sequence encoder.
    pub fn ffmpeg_filename(&self) -> (r: String)
        ensures
            r@ == spec_placeholder(self.prefix@, self.zero_padding as nat, self.suffix@),
    {
        proof {
            reveal_strlit("%0");
            reveal_strlit("d");
        }
        let mut out = String::from_str(self.prefix);
        out.append("%0");
        push_decimal(self.zero_padding, &mut out);
        out.append("d");
        out.append(self.suffix);
        proof {
            assert("%0"@ =~= seq!['%', '0']);
            assert("d"@ =~= seq!['d']);
            assert(out@ =~= spec_placeholder(
                self.prefix@,
                self.zero_padding as nat,
                self.suffix@,
            ));
        }
        out
    }
}

/// Compares two filenames and, on success, renders the placeholder string
/// for the sequence they belong to; any comparison failure is passed on.
pub fn generic_runner(first_name: &str, second_name: &str) -> (r: Result<String, ScanError>)
    ensures
        match r {
            Ok(s) => {
                &&& spec_compare(first_name@, second_name@) matches Ok(o)
                &&& s@ == spec_placeholder(
                    first_name@.subrange(0, o.prefix_len as int),
                    o.numeric_len,
                    first_name@.subrange(o.suffix_start as int, first_name@.len() as int),
                )
            },
            Err(e) => spec_compare(first_name@, second_name@) == Err::<ScanOutcome, ScanError>(e),
        },
{
    match crate::compare::compare_paths(first_name, second_name) {
        Ok(c) => Ok(c.ffmpeg_filename()),
        Err(e) => Err(e),
    }
}

} // verus!
