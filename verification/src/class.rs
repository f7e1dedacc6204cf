//! The class-name decoder: a whitespace-delimited token that is either a
//! bare class name or `ParentClass:ParentId:ClassName`.

use vstd::prelude::*;
use vstd::string::StrSliceExecFns;
use crate::cursor::non_ws_len;
use crate::cursor::pop_separator;
use crate::cursor::spec_pop_separator;
use crate::cursor::take_until;
use crate::cursor::take_until_whitespace;
use crate::cursor::until_len;
use crate::error::DecodeError;
use crate::model::ClassModel;
use crate::model::ClassNameInfo;
use crate::number::spec_parse_number;
use crate::number::parse_number_i32;

verus! {

/// What decoding the class-name token at the head of `s` yields: the token
/// is the maximal non-whitespace prefix; without a `:` it is a bare class
/// name, otherwise it must read `ParentClass:ParentId:ClassName`.  The
/// remainder starts at the token's trailing whitespace boundary.
pub open spec fn spec_parse_class(s: Seq<char>) -> Result<(ClassModel, Seq<char>), DecodeError> {
    let n = non_ws_len(s) as int;
    let token = s.take(n);
    let rest = s.skip(n);
    let k = until_len(token, ':') as int;
    if k == token.len() {
        Ok(
            (
                ClassModel {
                    class_name: token,
                    parent_id: None,
                    parent_class_name: None,
                },
                rest,
            ),
        )
    } else {
        let parent_class = token.take(k);
        match spec_pop_separator(token.skip(k), ':') {
            Err(e) => Err(e),
            Ok(r2) => match spec_parse_number(r2, i32::MAX as nat) {
                Err(e) => Err(e),
                Ok((parent_id, r3)) => match spec_pop_separator(r3, ':') {
                    Err(e) => Err(e),
                    Ok(r4) => Ok(
                        (
                            ClassModel {
                                class_name: r4.take(non_ws_len(r4) as int),
                                parent_id: Some(parent_id as int),
                                parent_class_name: Some(parent_class),
                            },
                            rest,
                        ),
                    ),
                },
            },
        }
    }
}

/// A decoded class-name token has a parent identifier exactly when it has a
/// parent class name, and exactly when the token contains a `:`.
pub proof fn lemma_class_parent_consistency(s: Seq<char>)
    ensures
        match spec_parse_class(s) {
            Ok((info, _)) => {
                let token = s.take(non_ws_len(s) as int);
                &&& (info.parent_id is Some <==> info.parent_class_name is Some)
                &&& (info.parent_id is Some <==> until_len(token, ':') < token.len())
            },
            Err(_) => true,
        },
{
    crate::cursor::lemma_non_ws_len(s);
    crate::cursor::lemma_until_len(s.take(non_ws_len(s) as int), ':');
}

/// Decodes the whitespace-delimited class-name token at the head of `line`,
/// returning the class name with the optional parent identifier and parent
/// class name, plus the rest of the line from the token's boundary on.
pub fn parse_class_name<'a>(line: &'a str) -> (r: Result<(ClassNameInfo<'a>, &'a str), DecodeError>)
    ensures
        match r {
            Ok((info, rest)) => spec_parse_class(line@) == Ok::<
                (ClassModel, Seq<char>),
                DecodeError,
            >((info@, rest@)),
            Err(e) => spec_parse_class(line@) == Err::<(ClassModel, Seq<char>), DecodeError>(e),
        },
{
    let (token, rest_of_string) = match take_until_whitespace(line) {
        Ok(v) => v,
        Err(e) => {
            return Err(e);
        },
    };
    let (parent_class, tail) = match take_until(token, ':') {
        Ok(v) => v,
        Err(e) => {
            return Err(e);
        },
    };
    if tail.unicode_len() == 0 {
        proof {
            crate::cursor::lemma_until_len(token@, ':');
            assert(token@.take(until_len(token@, ':') as int) =~= token@);
        }
        return Ok(
            (
                ClassNameInfo {
                    class_name: token,
                    parent_id: None,
                    parent_class_name: None,
                },
                rest_of_string,
            ),
        );
    }
    let rest_of_class_name = match pop_separator(tail, ':') {
        Ok(v) => v,
        Err(e) => {
            return Err(e);
        },
    };
    let (parent_id, rest_of_class_name) = match parse_number_i32(rest_of_class_name) {
        Ok(v) => v,
        Err(e) => {
            return Err(e);
        },
    };
    let rest_of_class_name = match pop_separator(rest_of_class_name, ':') {
        Ok(v) => v,
        Err(e) => {
            return Err(e);
        },
    };
    let (class_name, _) = match take_until_whitespace(rest_of_class_name) {
        Ok(v) => v,
        Err(e) => {
            return Err(e);
        },
    };
    Ok(
        (
            ClassNameInfo {
                class_name,
                parent_id: Some(parent_id),
                parent_class_name: Some(parent_class),
            },
            rest_of_string,
        ),
    )
}

} // verus!
