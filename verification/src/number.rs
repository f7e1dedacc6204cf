//! The number scanner: decodes the maximal leading run of decimal digits.

use vstd::prelude::*;
use vstd::string::StrSliceExecFns;
use crate::chars::digit_of;
use crate::chars::digit_value;
use crate::chars::is_digit;
use crate::chars::is_digit_char;
use crate::error::DecodeError;

verus! {

/// Length of the maximal leading run of decimal digit characters.
pub open spec fn digit_run_len(s: Seq<char>) -> nat
    decreases s.len(),
{
    if s.len() == 0 || !is_digit_char(s[0]) {
        0
    } else {
        (1 + digit_run_len(s.skip(1))) as nat
    }
}

/// The value of a sequence of decimal digit characters, most significant
/// first.
pub open spec fn digits_val(s: Seq<char>) -> nat
    decreases s.len(),
{
    if s.len() == 0 {
        0
    } else {
        10 * digits_val(s.drop_last()) + digit_of(s.last())
    }
}

/// What `parse_number` yields for a given width: the value of the maximal
/// leading digit run together with the remainder, `BadNumber` when the run
/// is empty or its value exceeds `bound`.
pub open spec fn spec_parse_number(s: Seq<char>, bound: nat) -> Result<
    (nat, Seq<char>),
    DecodeError,
> {
    let n = digit_run_len(s);
    if n == 0 {
        Err(DecodeError::BadNumber)
    } else if digits_val(s.take(n as int)) > bound {
        Err(DecodeError::BadNumber)
    } else {
        Ok((digits_val(s.take(n as int)), s.skip(n as int)))
    }
}

/// The maximal digit run consists of digits and ends at the first non-digit
/// (or at the end of the text).
pub proof fn lemma_digit_run_len(s: Seq<char>)
    ensures
        digit_run_len(s) <= s.len(),
        forall|i: int| 0 <= i < digit_run_len(s) ==> is_digit_char(#[trigger] s[i]),
        digit_run_len(s) < s.len() ==> !is_digit_char(s[digit_run_len(s) as int]),
    decreases s.len(),
{
    if s.len() == 0 || !is_digit_char(s[0]) {
    } else {
        let t = s.skip(1);
        lemma_digit_run_len(t);
        assert forall|i: int| 0 <= i < digit_run_len(s) implies is_digit_char(
            #[trigger] s[i],
        ) by {
            if i > 0 {
                assert(t[i - 1] == s[i]);
            }
        }
        if digit_run_len(s) < s.len() {
            assert(t[digit_run_len(t) as int] == s[digit_run_len(s) as int]);
        }
    }
}

/// Any index with the same characterization equals `digit_run_len`.
pub proof fn lemma_digit_run_len_is(s: Seq<char>, n: int)
    requires
        0 <= n <= s.len(),
        forall|i: int| 0 <= i < n ==> is_digit_char(#[trigger] s[i]),
        n == s.len() || !is_digit_char(s[n]),
    ensures
        digit_run_len(s) == n,
    decreases s.len(),
{
    if s.len() == 0 {
    } else if !is_digit_char(s[0]) {
        assert(n == 0);
    } else {
        let t = s.skip(1);
        assert forall|i: int| 0 <= i < n - 1 implies is_digit_char(#[trigger] t[i]) by {
            assert(t[i] == s[i + 1]);
        }
        if n < s.len() {
            assert(t[n - 1] == s[n]);
        }
        lemma_digit_run_len_is(t, n - 1);
    }
}

/// Extending a digit prefix by one character multiplies its value by ten and
/// adds the new digit.
pub proof fn lemma_digits_val_step(s: Seq<char>, i: int)
    requires
        0 <= i < s.len(),
    ensures
        digits_val(s.take(i + 1)) == 10 * digits_val(s.take(i)) + digit_of(s[i]),
{
    assert(s.take(i + 1).drop_last() =~= s.take(i));
    assert(s.take(i + 1).last() == s[i]);
}

/// Decodes the maximal leading run of decimal digits as an unsigned 64-bit
/// value; fails with `BadNumber` when the run is empty or the value does not
/// fit.  A leading `-` is never accepted.
pub fn parse_number<'a>(string: &'a str) -> (r: Result<(u64, &'a str), DecodeError>)
    ensures
        match r {
            Ok((value, rest)) => spec_parse_number(string@, u64::MAX as nat) == Ok::<
                (nat, Seq<char>),
                DecodeError,
            >((value as nat, rest@)),
            Err(e) => spec_parse_number(string@, u64::MAX as nat) == Err::<
                (nat, Seq<char>),
                DecodeError,
            >(e),
        },
{
    let len = string.unicode_len();
    let mut i: usize = 0;
    let mut value: u64 = 0;
    let mut overflow: bool = false;
    loop
        invariant
            i <= len,
            len == string@.len(),
            forall|j: int| 0 <= j < i ==> is_digit_char(#[trigger] string@[j]),
            !overflow ==> value == digits_val(string@.take(i as int)),
            overflow ==> digits_val(string@.take(i as int)) > u64::MAX,
        ensures
            i <= len,
            len == string@.len(),
            forall|j: int| 0 <= j < i ==> is_digit_char(#[trigger] string@[j]),
            i == len || !is_digit_char(string@[i as int]),
            !overflow ==> value == digits_val(string@.take(i as int)),
            overflow ==> digits_val(string@.take(i as int)) > u64::MAX,
        decreases len - i,
    {
        if i == len {
            break ;
        }
        let c = string.get_char(i);
        if !is_digit(c) {
            break ;
        }
        let d = digit_value(c);
        proof {
            lemma_digits_val_step(string@, i as int);
        }
        if !overflow {
            if value > (u64::MAX - d) / 10 {
                proof {
                    assert(10 * (value as nat) + (d as nat) > u64::MAX) by (nonlinear_arith)
                        requires
                            value as nat > (u64::MAX as nat - d as nat) / 10,
                            d < 10,
                    ;
                }
                overflow = true;
            } else {
                proof {
                    assert(10 * (value as nat) + (d as nat) <= u64::MAX) by (nonlinear_arith)
                        requires
                            value as nat <= (u64::MAX as nat - d as nat) / 10,
                            d < 10,
                    ;
                }
                value = value * 10 + d;
            }
        } else {
            proof {
                let prev = digits_val(string@.take(i as int));
                assert(10 * prev + digit_of(string@[i as int]) >= prev);
            }
        }
        i = i + 1;
    }
    proof {
        lemma_digit_run_len_is(string@, i as int);
    }
    if i == 0 || overflow {
        Err(DecodeError::BadNumber)
    } else {
        Ok((value, string.substring_char(i, len)))
    }
}

/// Decodes a decimal number that must fit a signed 32-bit identifier; the
/// scanner itself never accepts a sign, so the result is non-negative.
pub fn parse_number_i32<'a>(string: &'a str) -> (r: Result<(i32, &'a str), DecodeError>)
    ensures
        match r {
            Ok((value, rest)) => value >= 0 && spec_parse_number(string@, i32::MAX as nat) == Ok::<
                (nat, Seq<char>),
                DecodeError,
            >((value as nat, rest@)),
            Err(e) => spec_parse_number(string@, i32::MAX as nat) == Err::<
                (nat, Seq<char>),
                DecodeError,
            >(e),
        },
{
    match parse_number(string) {
        Ok((value, rest)) => {
            if value > i32::MAX as u64 {
                Err(DecodeError::BadNumber)
            } else {
                Ok((value as i32, rest))
            }
        },
        Err(e) => Err(e),
    }
}

/// Decodes a decimal number that must fit `usize`, the width used for field
/// lengths.
pub fn parse_number_usize<'a>(string: &'a str) -> (r: Result<(usize, &'a str), DecodeError>)
    ensures
        match r {
            Ok((value, rest)) => spec_parse_number(string@, usize::MAX as nat) == Ok::<
                (nat, Seq<char>),
                DecodeError,
            >((value as nat, rest@)),
            Err(e) => spec_parse_number(string@, usize::MAX as nat) == Err::<
                (nat, Seq<char>),
                DecodeError,
            >(e),
        },
{
    match parse_number(string) {
        Ok((value, rest)) => {
            if value > usize::MAX as u64 {
                Err(DecodeError::BadNumber)
            } else {
                Ok((value as usize, rest))
            }
        },
        Err(e) => Err(e),
    }
}

} // verus!
