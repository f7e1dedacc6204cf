//! The wire-format encoder, at the specification level, and the round-trip
//! law: decoding an encoded record reproduces the record exactly.

use vstd::prelude::*;
use crate::chars::digit_char;
use crate::chars::digit_of;
use crate::chars::is_digit_char;
use crate::chars::is_space_char;
use crate::chars::lemma_digit_char;
use crate::cursor::lemma_non_ws_len_is;
use crate::cursor::lemma_until_len_is;
use crate::cursor::spec_pop_separator;
use crate::error::DecodeError;
use crate::list::spec_parse_field;
use crate::list::spec_parse_fields;
use crate::list::spec_parse_list;
use crate::model::ClassModel;
use crate::model::RecordModel;
use crate::number::digits_val;
use crate::number::lemma_digit_run_len_is;
use crate::number::spec_parse_number;
use crate::class::spec_parse_class;
use crate::line::spec_parse_line;

verus! {

/// The decimal digits of `n`, most significant first, without leading
/// zeros (a single `0` for zero).
pub open spec fn encode_number(n: nat) -> Seq<char>
    decreases n,
{
    if n < 10 {
        seq![digit_char(n)]
    } else {
        encode_number(n / 10).push(digit_char(n % 10))
    }
}

/// One length-prefixed field: `<length>:<content>`.
pub open spec fn encode_field(f: Seq<char>) -> Seq<char> {
    encode_number(f.len()) + (seq![':'] + f)
}

/// Consecutive length-prefixed fields, with nothing between them.
pub open spec fn encode_fields(fs: Seq<Seq<char>>) -> Seq<char>
    decreases fs.len(),
{
    if fs.len() == 0 {
        Seq::empty()
    } else {
        encode_field(fs.first()) + encode_fields(fs.drop_first())
    }
}

/// A full list: `<count>:` then the fields.
pub open spec fn encode_list(fs: Seq<Seq<char>>) -> Seq<char> {
    encode_number(fs.len()) + (seq![':'] + encode_fields(fs))
}

/// The class-name token: bare, or `ParentClass:ParentId:ClassName`.
pub open spec fn encode_class(c: ClassModel) -> Seq<char> {
    match (c.parent_id, c.parent_class_name) {
        (Some(pid), Some(pc)) => pc + (seq![':'] + (encode_number(pid as nat) + (seq![':']
            + c.class_name))),
        _ => c.class_name,
    }
}

/// The class-name portion of a record's model.
pub open spec fn class_model_of(r: RecordModel) -> ClassModel {
    ClassModel {
        class_name: r.class_name,
        parent_id: r.parent_id,
        parent_class_name: r.parent_class_name,
    }
}

/// One whole line: the ignored leading number, then identifier, class-name
/// token, function name, state list and argument list, space-separated.
pub open spec fn encode_record(ignored: nat, r: RecordModel) -> Seq<char> {
    encode_number(ignored) + (seq![' '] + (encode_number(r.id as nat) + (seq![' '] + (encode_class(
        class_model_of(r),
    ) + (seq![' '] + (r.function_name + (seq![' '] + (encode_list(r.state_fields) + (seq![' ']
        + encode_list(r.arg_fields))))))))))
}

/// No character of `s` is whitespace.
pub open spec fn has_no_ws(s: Seq<char>) -> bool {
    forall|i: int| 0 <= i < s.len() ==> !is_space_char(#[trigger] s[i])
}

/// No character of `s` is a colon.
pub open spec fn has_no_colon(s: Seq<char>) -> bool {
    forall|i: int| 0 <= i < s.len() ==> #[trigger] s[i] != ':'
}

/// A field value the wire format can carry faithfully: its length fits the
/// length prefix, and it does not begin with the `:` that ends the length
/// prefix (a leading `:` would read as a doubled separator).
pub open spec fn field_ok(f: Seq<char>) -> bool {
    f.len() <= usize::MAX && (f.len() == 0 || f[0] != ':')
}

/// Every field of the list is encodable.
pub open spec fn fields_ok(fs: Seq<Seq<char>>) -> bool {
    forall|i: int| 0 <= i < fs.len() ==> field_ok(#[trigger] fs[i])
}

/// A class-name model the token form can carry faithfully.  A bare name must
/// be non-empty and free of whitespace and `:`; a composed form needs an
/// identifier in range, a whitespace- and colon-free parent name, and a
/// whitespace-free class name that does not begin with `:`.
pub open spec fn class_ok(c: ClassModel) -> bool {
    match (c.parent_id, c.parent_class_name) {
        (None, None) => c.class_name.len() > 0 && has_no_ws(c.class_name) && has_no_colon(
            c.class_name,
        ),
        (Some(pid), Some(pc)) => 0 <= pid <= i32::MAX && has_no_ws(pc) && has_no_colon(pc)
            && has_no_ws(c.class_name) && (c.class_name.len() == 0 || c.class_name[0] != ':'),
        _ => false,
    }
}

/// A record the wire format can carry faithfully: identifier and list counts
/// in range (the number scanner accepts no sign, so identifiers are
/// non-negative), a non-empty whitespace-free function name, an encodable
/// class-name model, and encodable fields.
pub open spec fn record_ok(r: RecordModel) -> bool {
    0 <= r.id <= i32::MAX && r.function_name.len() > 0 && has_no_ws(r.function_name) && class_ok(
        class_model_of(r),
    ) && fields_ok(r.state_fields) && r.state_fields.len() <= i32::MAX && fields_ok(r.arg_fields)
        && r.arg_fields.len() <= i32::MAX
}

/// The digits of `n` are decimal digits and decode back to `n`.
pub proof fn lemma_encode_number(n: nat)
    ensures
        encode_number(n).len() >= 1,
        forall|i: int|
            0 <= i < encode_number(n).len() ==> is_digit_char(#[trigger] encode_number(n)[i]),
        digits_val(encode_number(n)) == n,
    decreases n,
{
    if n < 10 {
        lemma_digit_char(n);
        assert(encode_number(n).drop_last() =~= Seq::empty());
        assert(digits_val(encode_number(n)) == 10 * digits_val(Seq::<char>::empty()) + digit_of(
            digit_char(n),
        ));
    } else {
        lemma_encode_number(n / 10);
        lemma_digit_char(n % 10);
        let enc = encode_number(n / 10);
        let c = digit_char(n % 10);
        assert(enc.push(c).drop_last() =~= enc);
        assert(enc.push(c).last() == c);
        assert(digits_val(enc.push(c)) == 10 * digits_val(enc) + digit_of(c));
        assert forall|i: int| 0 <= i < encode_number(n).len() implies is_digit_char(
            #[trigger] encode_number(n)[i],
        ) by {
            if i < enc.len() {
                assert(encode_number(n)[i] == enc[i]);
            }
        }
        assert(n == 10 * (n / 10) + n % 10) by (nonlinear_arith);
    }
}

/// Parsing a number at the head of `encode_number(n) + rest` consumes
/// exactly the digits of `n` and yields `n`, provided the remainder does not
/// begin with another digit.
pub proof fn lemma_parse_encoded_number(n: nat, bound: nat, rest: Seq<char>)
    requires
        n <= bound,
        rest.len() == 0 || !is_digit_char(rest[0]),
    ensures
        spec_parse_number(encode_number(n) + rest, bound) == Ok::<(nat, Seq<char>), DecodeError>(
            (n, rest),
        ),
{
    let enc = encode_number(n);
    lemma_encode_number(n);
    let s = enc + rest;
    assert forall|i: int| 0 <= i < enc.len() implies is_digit_char(#[trigger] s[i]) by {
        assert(s[i] == enc[i]);
    }
    if enc.len() < s.len() {
        assert(s[enc.len() as int] == rest[0]);
    }
    lemma_digit_run_len_is(s, enc.len() as int);
    assert(s.take(enc.len() as int) =~= enc);
    assert(s.skip(enc.len() as int) =~= rest);
}

/// Popping `sep` from `sep + rest` yields `rest`, provided `rest` does not
/// begin with a second `sep`.
pub proof fn lemma_pop_encoded_separator(sep: char, rest: Seq<char>)
    requires
        rest.len() == 0 || rest[0] != sep,
    ensures
        spec_pop_separator(seq![sep] + rest, sep) == Ok::<Seq<char>, DecodeError>(rest),
{
    let s = seq![sep] + rest;
    assert(s[0] == sep);
    if s.len() > 1 {
        assert(s[1] == rest[0]);
    }
    assert(s.skip(1) =~= rest);
}

/// A non-empty encoded field sequence begins with a length digit.
pub proof fn lemma_encode_fields_head(fs: Seq<Seq<char>>)
    requires
        fs.len() > 0,
    ensures
        encode_fields(fs).len() > 0,
        is_digit_char(encode_fields(fs)[0]),
{
    lemma_encode_number(fs.first().len());
    assert(encode_fields(fs)[0] == encode_field(fs.first())[0]);
    assert(encode_field(fs.first())[0] == encode_number(fs.first().len())[0]);
}

/// Parsing `fs.len()` fields at the head of `encode_fields(fs) + rest`
/// yields exactly `fs` and leaves `rest`, provided the remainder does not
/// begin with a `:`.
#[verifier::rlimit(30)]
pub proof fn lemma_parse_encoded_fields(fs: Seq<Seq<char>>, rest: Seq<char>)
    requires
        fields_ok(fs),
        rest.len() == 0 || rest[0] != ':',
    ensures
        spec_parse_fields(encode_fields(fs) + rest, fs.len()) == Ok::<
            (Seq<Seq<char>>, Seq<char>),
            DecodeError,
        >((fs, rest)),
    decreases fs.len(),
{
    if fs.len() == 0 {
        assert(encode_fields(fs) + rest =~= rest);
        assert(spec_parse_fields(rest, 0) == Ok::<(Seq<Seq<char>>, Seq<char>), DecodeError>(
            (Seq::empty(), rest),
        ));
        assert(fs =~= Seq::<Seq<char>>::empty());
    } else {
        let f = fs.first();
        let tail = fs.drop_first();
        let rest1 = encode_fields(tail) + rest;
        let s = encode_fields(fs) + rest;
        let num = encode_number(f.len());
        vstd::seq_lib::lemma_concat_associative(num + (seq![':'] + f), encode_fields(tail), rest);
        vstd::seq_lib::lemma_concat_associative(num, seq![':'] + f, rest1);
        vstd::seq_lib::lemma_concat_associative(seq![':'], f, rest1);
        assert(s == num + (seq![':'] + (f + rest1)));
        lemma_parse_encoded_number(f.len(), usize::MAX as nat, seq![':'] + (f + rest1));
        if f.len() > 0 {
            assert((f + rest1)[0] == f[0]);
        } else if tail.len() > 0 {
            lemma_encode_fields_head(tail);
            assert((f + rest1)[0] == rest1[0]);
            assert(rest1[0] == encode_fields(tail)[0]);
        } else {
            assert(f + rest1 =~= rest);
        }
        lemma_pop_encoded_separator(':', f + rest1);
        assert((f + rest1).take(f.len() as int) =~= f);
        assert((f + rest1).skip(f.len() as int) =~= rest1);
        assert(spec_parse_field(s) == Ok::<(Seq<char>, Seq<char>), DecodeError>((f, rest1)));
        assert forall|i: int| 0 <= i < tail.len() implies field_ok(#[trigger] tail[i]) by {
            assert(tail[i] == fs[i + 1]);
        }
        lemma_parse_encoded_fields(tail, rest);
        assert(seq![f] + tail =~= fs);
    }
}

/// Parsing a full list at the head of `encode_list(fs) + rest` yields `fs`
/// and leaves `rest`, provided the remainder does not begin with a `:`.
pub proof fn lemma_parse_encoded_list(fs: Seq<Seq<char>>, rest: Seq<char>)
    requires
        fields_ok(fs),
        fs.len() <= i32::MAX,
        rest.len() == 0 || rest[0] != ':',
    ensures
        spec_parse_list(encode_list(fs) + rest) == Ok::<(Seq<Seq<char>>, Seq<char>), DecodeError>(
            (fs, rest),
        ),
{
    let body = encode_fields(fs) + rest;
    let s = encode_list(fs) + rest;
    assert(s =~= encode_number(fs.len()) + (seq![':'] + body));
    lemma_parse_encoded_number(fs.len(), i32::MAX as nat, seq![':'] + body);
    if fs.len() > 0 {
        lemma_encode_fields_head(fs);
        assert(body[0] == encode_fields(fs)[0]);
    } else {
        assert(body =~= rest);
    }
    lemma_pop_encoded_separator(':', body);
    lemma_parse_encoded_fields(fs, rest);
}

/// A `count = 0` prefix decodes to the empty list and consumes exactly its
/// own `0:`, leaving the remainder untouched, whatever it holds — as long as
/// it does not begin with a stray `:`, which would read as a doubled
/// separator.
pub proof fn lemma_empty_list(rest: Seq<char>)
    requires
        rest.len() == 0 || rest[0] != ':',
    ensures
        spec_parse_list(seq!['0', ':'] + rest) == Ok::<(Seq<Seq<char>>, Seq<char>), DecodeError>(
            (Seq::empty(), rest),
        ),
{
    lemma_parse_encoded_list(Seq::empty(), rest);
    assert(encode_list(Seq::<Seq<char>>::empty()) + rest =~= seq!['0', ':'] + rest);
}

/// An encodable class token is non-empty and does not begin with whitespace.
pub proof fn lemma_encode_class_head(c: ClassModel)
    requires
        class_ok(c),
    ensures
        encode_class(c).len() > 0,
        !is_space_char(encode_class(c)[0]),
{
    match (c.parent_id, c.parent_class_name) {
        (Some(pid), Some(pc)) => {
            if pc.len() > 0 {
                assert(encode_class(c)[0] == pc[0]);
            } else {
                assert(encode_class(c)[0] == ':');
            }
        },
        _ => {},
    }
}

/// Parsing a class-name token at the head of `encode_class(c) + rest`
/// reproduces `c` and leaves `rest`, which must begin with the whitespace
/// that delimits the token (or be empty).
pub proof fn lemma_parse_encoded_class(c: ClassModel, rest: Seq<char>)
    requires
        class_ok(c),
        rest.len() == 0 || is_space_char(rest[0]),
    ensures
        spec_parse_class(encode_class(c) + rest) == Ok::<(ClassModel, Seq<char>), DecodeError>(
            (c, rest),
        ),
{
    let token = encode_class(c);
    let s = token + rest;
    match (c.parent_id, c.parent_class_name) {
        (None, None) => {
            assert forall|i: int| 0 <= i < token.len() implies !is_space_char(
                #[trigger] s[i],
            ) by {
                assert(s[i] == token[i]);
            }
            if token.len() < s.len() {
                assert(s[token.len() as int] == rest[0]);
            }
            lemma_non_ws_len_is(s, token.len() as int);
            assert(s.take(token.len() as int) =~= token);
            assert(s.skip(token.len() as int) =~= rest);
            assert forall|i: int| 0 <= i < token.len() implies #[trigger] token[i] != ':' by {}
            lemma_until_len_is(token, ':', token.len() as int);
            assert(spec_parse_class(s) matches Ok((info, r)) && info =~= c && r == rest);
        },
        (Some(pid), Some(pc)) => {
            let num = encode_number(pid as nat);
            lemma_encode_number(pid as nat);
            let after_pc = seq![':'] + (num + (seq![':'] + c.class_name));
            assert(token =~= pc + after_pc);
            assert forall|i: int| 0 <= i < token.len() implies !is_space_char(
                #[trigger] token[i],
            ) by {
                if i < pc.len() {
                    assert(token[i] == pc[i]);
                } else {
                    let j = i - pc.len();
                    assert(token[i] == after_pc[j]);
                    if j == 0 {
                    } else if j <= num.len() {
                        assert(after_pc[j] == num[j - 1]);
                    } else if j == num.len() + 1 {
                        assert(after_pc[j] == ':');
                    } else {
                        assert(after_pc[j] == c.class_name[j - num.len() - 2]);
                    }
                }
            }
            assert forall|i: int| 0 <= i < token.len() implies !is_space_char(
                #[trigger] s[i],
            ) by {
                assert(s[i] == token[i]);
            }
            if token.len() < s.len() {
                assert(s[token.len() as int] == rest[0]);
            }
            lemma_non_ws_len_is(s, token.len() as int);
            assert(s.take(token.len() as int) =~= token);
            assert(s.skip(token.len() as int) =~= rest);
            assert forall|i: int| 0 <= i < pc.len() implies #[trigger] token[i] != ':' by {
                assert(token[i] == pc[i]);
            }
            assert(token[pc.len() as int] == after_pc[0]);
            lemma_until_len_is(token, ':', pc.len() as int);
            assert(token.take(pc.len() as int) =~= pc);
            assert(token.skip(pc.len() as int) =~= after_pc);
            let after_colon = num + (seq![':'] + c.class_name);
            assert(after_colon[0] == num[0]);
            lemma_pop_encoded_separator(':', after_colon);
            lemma_parse_encoded_number(pid as nat, i32::MAX as nat, seq![':'] + c.class_name);
            lemma_pop_encoded_separator(':', c.class_name);
            lemma_non_ws_len_is(c.class_name, c.class_name.len() as int);
            assert(c.class_name.take(c.class_name.len() as int) =~= c.class_name);
            assert(spec_parse_class(s) matches Ok((info, r)) && info =~= c && r == rest);
        },
        _ => {},
    }
}

/// Round trip: encoding any encodable record with the wire grammar and
/// decoding the result reproduces the record exactly — the same identifier,
/// parent information, class and function names, and the same state and
/// argument field sequences in the same order — whatever ignored leading
/// number the line carries.
pub proof fn lemma_round_trip(ignored: nat, r: RecordModel)
    requires
        ignored <= u64::MAX,
        record_ok(r),
    ensures
        spec_parse_line(encode_record(ignored, r)) == Ok::<RecordModel, DecodeError>(r),
{
    let c = class_model_of(r);
    let s8 = encode_list(r.state_fields) + (seq![' '] + encode_list(r.arg_fields));
    let s7 = seq![' '] + s8;
    let s6 = r.function_name + s7;
    let s5 = seq![' '] + s6;
    let s4 = encode_class(c) + s5;
    let s3 = seq![' '] + s4;
    let s2 = encode_number(r.id as nat) + s3;
    let s1 = seq![' '] + s2;
    let s = encode_record(ignored, r);
    assert(s =~= encode_number(ignored) + s1);
    lemma_encode_number(r.id as nat);
    assert(s1[0] == ' ' && s2[0] == encode_number(r.id as nat)[0]);
    lemma_parse_encoded_number(ignored, u64::MAX as nat, s1);
    lemma_pop_encoded_separator(' ', s2);
    lemma_encode_class_head(c);
    assert(s4[0] == encode_class(c)[0]);
    lemma_parse_encoded_number(r.id as nat, i32::MAX as nat, s3);
    lemma_pop_encoded_separator(' ', s4);
    lemma_parse_encoded_class(c, s5);
    assert(s6[0] == r.function_name[0]);
    lemma_pop_encoded_separator(' ', s6);
    assert forall|i: int| 0 <= i < r.function_name.len() implies !is_space_char(
        #[trigger] s6[i],
    ) by {
        assert(s6[i] == r.function_name[i]);
    }
    assert(s6[r.function_name.len() as int] == s7[0]);
    lemma_non_ws_len_is(s6, r.function_name.len() as int);
    assert(s6.take(r.function_name.len() as int) =~= r.function_name);
    assert(s6.skip(r.function_name.len() as int) =~= s7);
    lemma_encode_number(r.state_fields.len());
    assert(s8[0] == encode_list(r.state_fields)[0]);
    assert(encode_list(r.state_fields)[0] == encode_number(r.state_fields.len())[0]);
    lemma_pop_encoded_separator(' ', s8);
    lemma_parse_encoded_list(r.state_fields, seq![' '] + encode_list(r.arg_fields));
    lemma_encode_number(r.arg_fields.len());
    assert((seq![' '] + encode_list(r.arg_fields))[0] == ' ');
    lemma_pop_encoded_separator(' ', encode_list(r.arg_fields));
    assert(encode_list(r.arg_fields) =~= encode_list(r.arg_fields) + Seq::<char>::empty());
    lemma_parse_encoded_list(r.arg_fields, Seq::empty());
    assert(spec_parse_line(s) matches Ok(dec) && dec =~= r);
}

} // verus!
