//! Cursor primitives: stateless scanners over the remaining unconsumed text.
//!
//! Each primitive takes the current remainder and returns the consumed piece
//! together with the new remainder, both as zero-copy views into the same
//! text.  Character positions are counted in code points, not bytes.

use vstd::prelude::*;
use vstd::string::StrSliceExecFns;
use crate::chars::is_space_char;
use crate::chars::is_space;
use crate::error::DecodeError;

verus! {

/// Length of the maximal leading run of non-whitespace characters.
pub open spec fn non_ws_len(s: Seq<char>) -> nat
    decreases s.len(),
{
    if s.len() == 0 || is_space_char(s[0]) {
        0
    } else {
        (1 + non_ws_len(s.skip(1))) as nat
    }
}

/// Length of the maximal leading run of characters other than `sep`.
pub open spec fn until_len(s: Seq<char>, sep: char) -> nat
    decreases s.len(),
{
    if s.len() == 0 || s[0] == sep {
        0
    } else {
        (1 + until_len(s.skip(1), sep)) as nat
    }
}

/// What `pop_separator` yields: the remainder after the single mandatory
/// occurrence of `sep`, or `BadSeparator` when the text does not start with
/// exactly one `sep`.
pub open spec fn spec_pop_separator(s: Seq<char>, sep: char) -> Result<Seq<char>, DecodeError> {
    if s.len() >= 1 && s[0] == sep && (s.len() == 1 || s[1] != sep) {
        Ok(s.skip(1))
    } else {
        Err(DecodeError::BadSeparator)
    }
}

/// The maximal non-whitespace prefix is whitespace-free and ends at the
/// first whitespace character (or at the end of the text).
pub proof fn lemma_non_ws_len(s: Seq<char>)
    ensures
        non_ws_len(s) <= s.len(),
        forall|i: int| 0 <= i < non_ws_len(s) ==> !is_space_char(#[trigger] s[i]),
        non_ws_len(s) < s.len() ==> is_space_char(s[non_ws_len(s) as int]),
    decreases s.len(),
{
    if s.len() == 0 || is_space_char(s[0]) {
    } else {
        let t = s.skip(1);
        lemma_non_ws_len(t);
        assert forall|i: int| 0 <= i < non_ws_len(s) implies !is_space_char(#[trigger] s[i]) by {
            if i > 0 {
                assert(t[i - 1] == s[i]);
            }
        }
        if non_ws_len(s) < s.len() {
            assert(t[non_ws_len(t) as int] == s[non_ws_len(s) as int]);
        }
    }
}

/// Any index with the same characterization equals `non_ws_len`.
pub proof fn lemma_non_ws_len_is(s: Seq<char>, n: int)
    requires
        0 <= n <= s.len(),
        forall|i: int| 0 <= i < n ==> !is_space_char(#[trigger] s[i]),
        n == s.len() || is_space_char(s[n]),
    ensures
        non_ws_len(s) == n,
    decreases s.len(),
{
    if s.len() == 0 {
    } else if is_space_char(s[0]) {
        assert(n == 0);
    } else {
        let t = s.skip(1);
        assert forall|i: int| 0 <= i < n - 1 implies !is_space_char(#[trigger] t[i]) by {
            assert(t[i] == s[i + 1]);
        }
        if n < s.len() {
            assert(t[n - 1] == s[n]);
        }
        lemma_non_ws_len_is(t, n - 1);
    }
}

/// The maximal `sep`-free prefix contains no `sep` and ends at the first
/// `sep` (or at the end of the text).
pub proof fn lemma_until_len(s: Seq<char>, sep: char)
    ensures
        until_len(s, sep) <= s.len(),
        forall|i: int| 0 <= i < until_len(s, sep) ==> #[trigger] s[i] != sep,
        until_len(s, sep) < s.len() ==> s[until_len(s, sep) as int] == sep,
    decreases s.len(),
{
    if s.len() == 0 || s[0] == sep {
    } else {
        let t = s.skip(1);
        lemma_until_len(t, sep);
        assert forall|i: int| 0 <= i < until_len(s, sep) implies #[trigger] s[i] != sep by {
            if i > 0 {
                assert(t[i - 1] == s[i]);
            }
        }
        if until_len(s, sep) < s.len() {
            assert(t[until_len(t, sep) as int] == s[until_len(s, sep) as int]);
        }
    }
}

/// Any index with the same characterization equals `until_len`.
pub proof fn lemma_until_len_is(s: Seq<char>, sep: char, n: int)
    requires
        0 <= n <= s.len(),
        forall|i: int| 0 <= i < n ==> #[trigger] s[i] != sep,
        n == s.len() || s[n] == sep,
    ensures
        until_len(s, sep) == n,
    decreases s.len(),
{
    if s.len() == 0 {
    } else if s[0] == sep {
        assert(n == 0);
    } else {
        let t = s.skip(1);
        assert forall|i: int| 0 <= i < n - 1 implies #[trigger] t[i] != sep by {
            assert(t[i] == s[i + 1]);
        }
        if n < s.len() {
            assert(t[n - 1] == s[n]);
        }
        lemma_until_len_is(t, sep, n - 1);
    }
}

/// Splits off the maximal leading run of non-whitespace characters.
/// Always succeeds; an empty head is valid.
pub fn take_until_whitespace<'a>(string: &'a str) -> (r: Result<(&'a str, &'a str), DecodeError>)
    ensures
        r matches Ok((head, rest)) && head@ == string@.take(non_ws_len(string@) as int)
            && rest@ == string@.skip(non_ws_len(string@) as int),
{
    let len = string.unicode_len();
    let mut i: usize = 0;
    loop
        invariant
            i <= len,
            len == string@.len(),
            forall|j: int| 0 <= j < i ==> !is_space_char(#[trigger] string@[j]),
        ensures
            i <= len,
            len == string@.len(),
            forall|j: int| 0 <= j < i ==> !is_space_char(#[trigger] string@[j]),
            i == len || is_space_char(string@[i as int]),
        decreases len - i,
    {
        if i == len {
            break ;
        }
        let c = string.get_char(i);
        if is_space(c) {
            break ;
        }
        i = i + 1;
    }
    proof {
        lemma_non_ws_len_is(string@, i as int);
    }
    Ok((string.substring_char(0, i), string.substring_char(i, len)))
}

/// Splits off the maximal leading run of characters other than `character`.
/// Always succeeds; an empty head is valid.
pub fn take_until<'a>(string: &'a str, character: char) -> (r: Result<(&'a str, &'a str), DecodeError>)
    ensures
        r matches Ok((head, rest)) && head@ == string@.take(until_len(string@, character) as int)
            && rest@ == string@.skip(until_len(string@, character) as int),
{
    let len = string.unicode_len();
    let mut i: usize = 0;
    loop
        invariant
            i <= len,
            len == string@.len(),
            forall|j: int| 0 <= j < i ==> #[trigger] string@[j] != character,
        ensures
            i <= len,
            len == string@.len(),
            forall|j: int| 0 <= j < i ==> #[trigger] string@[j] != character,
            i == len || string@[i as int] == character,
        decreases len - i,
    {
        if i == len {
            break ;
        }
        let c = string.get_char(i);
        if c == character {
            break ;
        }
        i = i + 1;
    }
    proof {
        lemma_until_len_is(string@, character, i as int);
    }
    Ok((string.substring_char(0, i), string.substring_char(i, len)))
}

/// Splits off exactly the first `n` characters; fails with
/// `NotEnoughCharacters` when fewer than `n` remain.
pub fn take_n_characters<'a>(string: &'a str, n: usize) -> (r: Result<(&'a str, &'a str), DecodeError>)
    ensures
        match r {
            Ok((head, rest)) => n <= string@.len() && head@ == string@.take(n as int)
                && rest@ == string@.skip(n as int),
            Err(e) => n > string@.len() && e == DecodeError::NotEnoughCharacters,
        },
{
    let len = string.unicode_len();
    if len < n {
        Err(DecodeError::NotEnoughCharacters)
    } else {
        Ok((string.substring_char(0, n), string.substring_char(n, len)))
    }
}

/// Consumes exactly one occurrence of `separator`; fails with `BadSeparator`
/// on empty input, a different first character, or a doubled separator.
pub fn pop_separator<'a>(string: &'a str, separator: char) -> (r: Result<&'a str, DecodeError>)
    ensures
        match r {
            Ok(rest) => spec_pop_separator(string@, separator) == Ok::<Seq<char>, DecodeError>(
                rest@,
            ),
            Err(e) => spec_pop_separator(string@, separator) == Err::<Seq<char>, DecodeError>(e),
        },
        r is Err <==> !(string@.len() >= 1 && string@[0] == separator && (string@.len() == 1
            || string@[1] != separator)),
{
    let len = string.unicode_len();
    if len == 0 {
        return Err(DecodeError::BadSeparator);
    }
    if string.get_char(0) != separator {
        return Err(DecodeError::BadSeparator);
    }
    if len >= 2 && string.get_char(1) == separator {
        return Err(DecodeError::BadSeparator);
    }
    Ok(string.substring_char(1, len))
}

} // verus!
