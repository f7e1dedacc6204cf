//! The list decoder: a count prefix followed by that many length-prefixed
//! fields, shared by the "state" and "arguments" lists.

use vstd::prelude::*;
use crate::cursor::pop_separator;
use crate::cursor::spec_pop_separator;
use crate::cursor::take_n_characters;
use crate::error::DecodeError;
use crate::model::lemma_views_of_push;
use crate::model::views_of;
use crate::number::parse_number_i32;
use crate::number::parse_number_usize;
use crate::number::spec_parse_number;

verus! {

/// What decoding one `<length>:<content>` field yields: the field's
/// characters and the remainder, or the first failure.
pub open spec fn spec_parse_field(s: Seq<char>) -> Result<(Seq<char>, Seq<char>), DecodeError> {
    match spec_parse_number(s, usize::MAX as nat) {
        Err(e) => Err(e),
        Ok((len, r1)) => match spec_pop_separator(r1, ':') {
            Err(e) => Err(e),
            Ok(r2) => if len <= r2.len() {
                Ok((r2.take(len as int), r2.skip(len as int)))
            } else {
                Err(DecodeError::NotEnoughCharacters)
            },
        },
    }
}

/// What decoding exactly `n` consecutive fields yields: the ordered field
/// contents and the remainder, or the first failure.
pub open spec fn spec_parse_fields(s: Seq<char>, n: nat) -> Result<
    (Seq<Seq<char>>, Seq<char>),
    DecodeError,
>
    decreases n,
{
    if n == 0 {
        Ok((Seq::empty(), s))
    } else {
        match spec_parse_field(s) {
            Err(e) => Err(e),
            Ok((f, r)) => match spec_parse_fields(r, (n - 1) as nat) {
                Err(e) => Err(e),
                Ok((fs, r2)) => Ok((seq![f] + fs, r2)),
            },
        }
    }
}

/// What decoding a full `<count>:<field>...` list yields.
pub open spec fn spec_parse_list(s: Seq<char>) -> Result<
    (Seq<Seq<char>>, Seq<char>),
    DecodeError,
> {
    match spec_parse_number(s, i32::MAX as nat) {
        Err(e) => Err(e),
        Ok((count, r1)) => match spec_pop_separator(r1, ':') {
            Err(e) => Err(e),
            Ok(r2) => spec_parse_fields(r2, count),
        },
    }
}

/// Decoding `n` consecutive fields yields exactly `n` field values.
pub proof fn lemma_fields_count(s: Seq<char>, n: nat)
    ensures
        spec_parse_fields(s, n) matches Ok((fs, rest)) ==> fs.len() == n,
    decreases n,
{
    if n > 0 {
        match spec_parse_field(s) {
            Ok((f, r)) => {
                lemma_fields_count(r, (n - 1) as nat);
            },
            Err(_) => {},
        }
    }
}

/// A decoded field holds exactly as many characters as its length prefix
/// declared: no truncation, no over-read.
pub proof fn lemma_field_length(s: Seq<char>)
    ensures
        match (spec_parse_field(s), spec_parse_number(s, usize::MAX as nat)) {
            (Ok((f, rest)), Ok((declared, after))) => f.len() == declared,
            _ => true,
        },
{
}

/// A decoded list holds exactly as many fields as its count prefix declared.
pub proof fn lemma_list_count(s: Seq<char>)
    ensures
        match (spec_parse_list(s), spec_parse_number(s, i32::MAX as nat)) {
            (Ok((fs, rest)), Ok((declared, after))) => fs.len() == declared,
            _ => true,
        },
{
    match spec_parse_number(s, i32::MAX as nat) {
        Ok((declared, r1)) => match spec_pop_separator(r1, ':') {
            Ok(r2) => {
                lemma_fields_count(r2, declared);
            },
            Err(_) => {},
        },
        Err(_) => {},
    }
}

/// Decodes a count-prefixed sequence of length-prefixed fields and returns
/// the ordered field values with the remaining unconsumed text.  Field
/// contents are opaque: any characters, including separators, are taken
/// verbatim under the declared length.
pub fn parse_state<'a>(line: &'a str) -> (r: Result<(Vec<&'a str>, &'a str), DecodeError>)
    ensures
        match r {
            Ok((fields, rest)) => spec_parse_list(line@) == Ok::<
                (Seq<Seq<char>>, Seq<char>),
                DecodeError,
            >((views_of(fields@), rest@)),
            Err(e) => spec_parse_list(line@) == Err::<(Seq<Seq<char>>, Seq<char>), DecodeError>(e),
        },
{
    let (count, after_count) = match parse_number_i32(line) {
        Ok(v) => v,
        Err(e) => {
            return Err(e);
        },
    };
    let top = match pop_separator(after_count, ':') {
        Ok(v) => v,
        Err(e) => {
            return Err(e);
        },
    };
    let mut fields: Vec<&'a str> = Vec::new();
    let mut remaining: &'a str = top;
    let mut i: i32 = 0;
    while i < count
        invariant
            0 <= i <= count,
            spec_parse_list(line@) == (match spec_parse_fields(remaining@, (count - i) as nat) {
                Ok((fs, r2)) => Ok::<(Seq<Seq<char>>, Seq<char>), DecodeError>(
                    (views_of(fields@) + fs, r2),
                ),
                Err(e) => Err::<(Seq<Seq<char>>, Seq<char>), DecodeError>(e),
            }),
        decreases count - i,
    {
        let (field_len, r1) = match parse_number_usize(remaining) {
            Ok(v) => v,
            Err(e) => {
                return Err(e);
            },
        };
        let r2 = match pop_separator(r1, ':') {
            Ok(v) => v,
            Err(e) => {
                return Err(e);
            },
        };
        let (field, r3) = match take_n_characters(r2, field_len) {
            Ok(v) => v,
            Err(e) => {
                return Err(e);
            },
        };
        proof {
            let ghost fs_old = views_of(fields@);
            lemma_views_of_push(fields@, field);
            assert(spec_parse_field(remaining@) == Ok::<(Seq<char>, Seq<char>), DecodeError>(
                (field@, r3@),
            ));
            if let Ok((fs, r2g)) = spec_parse_fields(r3@, (count - i - 1) as nat) {
                assert(fs_old + (seq![field@] + fs) =~= fs_old.push(field@) + fs);
            }
        }
        fields.push(field);
        remaining = r3;
        i = i + 1;
    }
    proof {
        assert(views_of(fields@) + Seq::<Seq<char>>::empty() =~= views_of(fields@));
    }
    Ok((fields, remaining))
}

} // verus!
