//! The line decoder: consumes the fixed grammar strictly left to right and
//! folds the pieces into one `DecodedRecord`.

use vstd::prelude::*;
use crate::class::parse_class_name;
use crate::class::spec_parse_class;
use crate::cursor::non_ws_len;
use crate::cursor::pop_separator;
use crate::cursor::spec_pop_separator;
use crate::cursor::take_until_whitespace;
use crate::error::DecodeError;
use crate::list::parse_state;
use crate::list::spec_parse_list;
use crate::model::DecodedRecord;
use crate::model::RecordModel;
use crate::number::parse_number;
use crate::number::parse_number_i32;
use crate::number::spec_parse_number;

verus! {

/// The grammar phases of one line, up to but not including the final
/// emptiness check: the decoded record together with whatever text remains
/// after the argument list.
pub open spec fn spec_parse_line_body(s: Seq<char>) -> Result<
    (RecordModel, Seq<char>),
    DecodeError,
> {
    match spec_parse_number(s, u64::MAX as nat) {
        Err(e) => Err(e),
        Ok((_ignored, r1)) => match spec_pop_separator(r1, ' ') {
            Err(e) => Err(e),
            Ok(r2) => match spec_parse_number(r2, i32::MAX as nat) {
                Err(e) => Err(e),
                Ok((id, r3)) => match spec_pop_separator(r3, ' ') {
                    Err(e) => Err(e),
                    Ok(r4) => match spec_parse_class(r4) {
                        Err(e) => Err(e),
                        Ok((class_info, r5)) => match spec_pop_separator(r5, ' ') {
                            Err(e) => Err(e),
                            Ok(r6) => {
                                let function_name = r6.take(non_ws_len(r6) as int);
                                let r7 = r6.skip(non_ws_len(r6) as int);
                                match spec_pop_separator(r7, ' ') {
                                    Err(e) => Err(e),
                                    Ok(r8) => match spec_parse_list(r8) {
                                        Err(e) => Err(e),
                                        Ok((state_fields, r9)) => match spec_pop_separator(
                                            r9,
                                            ' ',
                                        ) {
                                            Err(e) => Err(e),
                                            Ok(r10) => match spec_parse_list(r10) {
                                                Err(e) => Err(e),
                                                Ok((arg_fields, r11)) => Ok(
                                                    (
                                                        RecordModel {
                                                            id: id as int,
                                                            parent_id: class_info.parent_id,
                                                            parent_class_name:
                                                                class_info.parent_class_name,
                                                            class_name: class_info.class_name,
                                                            function_name,
                                                            state_fields,
                                                            arg_fields,
                                                        },
                                                        r11,
                                                    ),
                                                ),
                                            },
                                        },
                                    },
                                }
                            },
                        },
                    },
                },
            },
        },
    }
}

/// What decoding one full line yields: the record when the grammar consumes
/// the line exactly; `BadLine` when text is left over after the grammar; the
/// first scanner failure otherwise.
pub open spec fn spec_parse_line(s: Seq<char>) -> Result<RecordModel, DecodeError> {
    match spec_parse_line_body(s) {
        Err(e) => Err(e),
        Ok((record, rest)) => if rest.len() == 0 {
            Ok(record)
        } else {
            Err(DecodeError::BadLine)
        },
    }
}

/// A successful decode leaves exactly zero unconsumed characters: whenever
/// the grammar phases succeed with a non-empty remainder, the decode as a
/// whole is a failure, never a truncated success.
pub proof fn lemma_decode_consumes_all(s: Seq<char>)
    ensures
        spec_parse_line(s) is Ok ==> (spec_parse_line_body(s) matches Ok((record, rest))
            && rest.len() == 0 && spec_parse_line(s) == Ok::<RecordModel, DecodeError>(record)),
{
}

/// A decoded record carries a parent identifier exactly when it carries a
/// parent class name: both present or both absent, never one without the
/// other.
pub proof fn lemma_parent_fields_consistent(s: Seq<char>)
    ensures
        spec_parse_line(s) matches Ok(record) ==> (record.parent_id is Some
            <==> record.parent_class_name is Some),
{
    match spec_parse_number(s, u64::MAX as nat) {
        Ok((_ignored, r1)) => match spec_pop_separator(r1, ' ') {
            Ok(r2) => match spec_parse_number(r2, i32::MAX as nat) {
                Ok((_id, r3)) => match spec_pop_separator(r3, ' ') {
                    Ok(r4) => {
                        crate::class::lemma_class_parent_consistency(r4);
                    },
                    Err(_) => {},
                },
                Err(_) => {},
            },
            Err(_) => {},
        },
        Err(_) => {},
    }
}

/// Decodes one line into a record, consuming the grammar strictly left to
/// right: an ignored leading number, the record identifier, the class-name
/// token, the function name, the state list and the argument list, each pair
/// separated by a single space.  Any text left after the grammar makes the
/// whole line fail with `BadLine`; no partial record is ever returned.
pub fn parse<'a>(line: &'a str) -> (r: Result<DecodedRecord<'a>, DecodeError>)
    ensures
        match r {
            Ok(record) => spec_parse_line(line@) == Ok::<RecordModel, DecodeError>(record@),
            Err(e) => spec_parse_line(line@) == Err::<RecordModel, DecodeError>(e),
        },
{
    let (_ignored, line1) = match parse_number(line) {
        Ok(v) => v,
        Err(e) => {
            return Err(e);
        },
    };
    let line2 = match pop_separator(line1, ' ') {
        Ok(v) => v,
        Err(e) => {
            return Err(e);
        },
    };
    let (id, line3) = match parse_number_i32(line2) {
        Ok(v) => v,
        Err(e) => {
            return Err(e);
        },
    };
    let line4 = match pop_separator(line3, ' ') {
        Ok(v) => v,
        Err(e) => {
            return Err(e);
        },
    };
    let (class_info, line5) = match parse_class_name(line4) {
        Ok(v) => v,
        Err(e) => {
            return Err(e);
        },
    };
    let line6 = match pop_separator(line5, ' ') {
        Ok(v) => v,
        Err(e) => {
            return Err(e);
        },
    };
    let (function_name, line7) = match take_until_whitespace(line6) {
        Ok(v) => v,
        Err(e) => {
            return Err(e);
        },
    };
    let line8 = match pop_separator(line7, ' ') {
        Ok(v) => v,
        Err(e) => {
            return Err(e);
        },
    };
    let (state_fields, line9) = match parse_state(line8) {
        Ok(v) => v,
        Err(e) => {
            return Err(e);
        },
    };
    let line10 = match pop_separator(line9, ' ') {
        Ok(v) => v,
        Err(e) => {
            return Err(e);
        },
    };
    let (arg_fields, line11) = match parse_state(line10) {
        Ok(v) => v,
        Err(e) => {
            return Err(e);
        },
    };
    if line11.unicode_len() != 0 {
        return Err(DecodeError::BadLine);
    }
    Ok(
        DecodedRecord {
            id,
            parent_id: class_info.parent_id,
            parent_class_name: class_info.parent_class_name,
            class_name: class_info.class_name,
            function_name,
            state_fields,
            arg_fields,
        },
    )
}

} // verus!
