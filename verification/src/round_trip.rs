//! Round trips: what is written is read back as the same value.
//!
//! Each lemma takes a writer of this crate and the reader that is its
//! counterpart and shows that the reader, set on a text that begins with
//! what the writer wrote, takes exactly that text and yields the value
//! that was written.

use std::collections::HashMap;
use vstd::prelude::*;
use vstd::std_specs::hash::obeys_key_model;
use crate::buildable::TextBuildable;
use crate::composite::{
    insertion, insertions, lists_entries, mapping_literal, option_literal, result_literal,
    sequence_items, sequence_literal,
};
use crate::decimal::{
    all_digits, decimal_digits, digit_prefix_len, is_digit, lemma_decimal_digits_are_digits, lemma_decimal_value_of_digits,
    lemma_digit_prefix, signed_decimal,
};
use crate::fractional::{
    is_decimal_number, is_unsigned_decimal, pointed, precision_suffix, Precision,
};
use crate::literal::{
    bool_literal, escape, escape_char, int_literal, int_suffix, str_literal, string_literal,
    IntKind,
};
use crate::reading::{
    round_trips, precision_marked, read_fractional, unsigned_decimal_len, Reader, as_characters, as_itself, as_mapping, as_option, as_result, as_sequence, bool_reader, escaped_by, fits, injective, int_reader, kind_marked, labelled, map_model, mapping_closing, mapping_opening, mapping_reader, never_opens_with, option_reader, read_bool, read_fields, read_insertions, read_int, read_items, read_quoted, read_str, read_string, reads_back, record_reader, replay, result_reader, sequence_reader, starts_with, string_reader,
};
use crate::record::{
    field_labels, RecordShape, brace_free, entry_pattern, fill, generated_output, record_entries, record_literal,
    record_pattern,
};

verus! {

/// A text that begins with the suffix of an integer type is marked with
/// that type and no other.
pub proof fn lemma_kind_marked(kind: IntKind, rest: Seq<char>)
    ensures
        kind_marked(int_suffix(kind) + rest) == Some(kind),
        int_suffix(kind).len() > 0,
        int_suffix(kind)[0] == '_',
{
    reveal_strlit("_i8");
    reveal_strlit("_i16");
    reveal_strlit("_i32");
    reveal_strlit("_i64");
    reveal_strlit("_u8");
    reveal_strlit("_u16");
    reveal_strlit("_u32");
    reveal_strlit("_u64");
    let text = int_suffix(kind) + rest;
    assert(text.take(int_suffix(kind).len() as int) == int_suffix(kind));
    assert(text[1] == int_suffix(kind)[1]);
    assert(text[2] == int_suffix(kind)[2]);
    assert forall|other: IntKind| other != kind implies !starts_with(text, int_suffix(other)) by {
        if starts_with(text, int_suffix(other)) {
            let head = text.take(int_suffix(other).len() as int);
            assert(head[1] == text[1]);
            assert(head[2] == text[2]);
        }
    }
}

/// An integer of any of the eight integer types, written as its literal,
/// is read back as the same number of the same type, whatever follows the
/// literal.
pub proof fn lemma_int_literal_reads_back(v: int, kind: IntKind, rest: Seq<char>)
    requires
        fits(v, kind),
    ensures
        read_int(int_literal(v, kind) + rest) == Some(
            ((kind, v), int_literal(v, kind).len()),
        ),
{
    let magnitude: nat = if v < 0 {
        (-v) as nat
    } else {
        v as nat
    };
    let digits = decimal_digits(magnitude);
    let suffix = int_suffix(kind);
    let text = int_literal(v, kind) + rest;
    lemma_decimal_digits_are_digits(magnitude);
    lemma_decimal_value_of_digits(magnitude);
    lemma_kind_marked(kind, rest);
    lemma_digit_prefix(digits, suffix + rest);
    assert(is_digit(digits[0]));
    let sign_len: nat = if v < 0 {
        1
    } else {
        0
    };
    assert(text[0] == signed_decimal(v)[0]);
    assert((text.len() > 0 && text[0] == '-') == (v < 0));
    let unsigned = text.skip(sign_len as int);
    assert(unsigned == digits + (suffix + rest));
    assert(unsigned.skip(digits.len() as int) == suffix + rest);
    assert(unsigned.take(digits.len() as int) == digits);
}

/// A number in decimal notation without a sign, followed by something
/// that is neither a digit nor a point, is exactly the number that the
/// text begins with.
pub proof fn lemma_unsigned_decimal_prefix(number: Seq<char>, tail: Seq<char>)
    requires
        is_unsigned_decimal(number),
        tail.len() > 0,
        !is_digit(tail[0]),
        tail[0] != '.',
    ensures
        number.len() > 0,
        unsigned_decimal_len(number + tail) == number.len(),
{
    let text = number + tail;
    if number.len() > 0 && all_digits(number) {
        lemma_digit_prefix(number, tail);
        assert(text.skip(number.len() as int) == tail);
    } else {
        let p = choose|p: int|
            0 < p < number.len() - 1 && #[trigger] number[p] == '.' && all_digits(number.take(p))
                && all_digits(number.skip(p + 1));
        let before = number.take(p);
        let after = number.skip(p + 1);
        let from_point = seq!['.'] + after + tail;
        assert(text == before + from_point);
        assert(from_point[0] == '.');
        lemma_digit_prefix(before, from_point);
        assert(digit_prefix_len(text) == p);
        assert(text.skip(p) == from_point);
        assert(from_point.skip(1) == after + tail);
        lemma_digit_prefix(after, tail);
        assert(digit_prefix_len(from_point.skip(1)) == after.len());
    }
}

/// A number in decimal notation, written with a decimal point, is still
/// a number in decimal notation, and it holds a point.
pub proof fn lemma_pointed_is_decimal(number: Seq<char>)
    requires
        is_decimal_number(number),
    ensures
        is_decimal_number(pointed(number)),
        pointed(number).contains('.'),
{
    reveal_strlit(".0");
    if !number.contains('.') {
        let whole = pointed(number);
        let negative = number.len() > 0 && number[0] == '-';
        let sign_len: int = if negative {
            1
        } else {
            0
        };
        let body = number.skip(sign_len);
        assert(number.skip(0) == number);
        assert(is_unsigned_decimal(body));
        assert(body.len() > 0 && all_digits(body)) by {
            if !(body.len() > 0 && all_digits(body)) {
                let p = choose|p: int|
                    0 < p < body.len() - 1 && #[trigger] body[p] == '.' && all_digits(
                        body.take(p),
                    ) && all_digits(body.skip(p + 1));
                assert(number[p + sign_len] == '.');
            }
        }
        let pointed_body = whole.skip(sign_len);
        assert(pointed_body == body + ".0"@);
        let p = body.len() as int;
        assert(pointed_body[p] == '.');
        assert(pointed_body.take(p) == body);
        assert(pointed_body.skip(p + 1) == seq!['0']);
        assert(is_unsigned_decimal(pointed_body));
        assert(whole[0] == number[0]);
        assert(whole[number.len() as int] == '.');
    }
}

/// A number in decimal notation, marked with a precision, is read back as
/// the same notation with the same precision, whatever follows the
/// literal.
proof fn lemma_marked_number_reads_back(number: Seq<char>, precision: Precision, rest: Seq<char>)
    requires
        is_decimal_number(number),
    ensures
        read_fractional(number + precision_suffix(precision) + rest) == Some(
            ((precision, number), (number + precision_suffix(precision)).len()),
        ),
{
    reveal_strlit("_f32");
    reveal_strlit("_f64");
    let suffix = precision_suffix(precision);
    let tail = suffix + rest;
    let text = number + suffix + rest;
    assert(tail[0] == '_');
    assert(tail.take(4) == suffix);
    assert(precision_marked(tail) == Some(precision)) by {
        if precision is Double && starts_with(tail, "_f32"@) {
            assert(tail.take(4)[2] == tail[2]);
        }
    }
    let negative = number.len() > 0 && number[0] == '-';
    let sign_len: nat = if negative {
        1
    } else {
        0
    };
    let body = number.skip(sign_len as int);
    assert(number.skip(0) == number);
    lemma_unsigned_decimal_prefix(body, tail);
    assert(text[0] == number[0]);
    assert(text.skip(sign_len as int) == body + tail);
    assert(text.take(number.len() as int) == number);
    assert(text.skip(number.len() as int) == tail);
}

/// A finite number with a fractional part, written as its literal, is read
/// back as the same number, in the decimal notation in which it was
/// written, at the same precision, whatever follows the literal. The
/// literal holds a decimal point, also where the number is whole.
pub proof fn lemma_fractional_literal_reads_back(
    number: Seq<char>,
    precision: Precision,
    rest: Seq<char>,
)
    requires
        is_decimal_number(number),
    ensures
        pointed(number).contains('.'),
        read_fractional(pointed(number) + precision_suffix(precision) + rest) == Some(
            (
                (precision, pointed(number)),
                (pointed(number) + precision_suffix(precision)).len(),
            ),
        ),
{
    lemma_pointed_is_decimal(number);
    lemma_marked_number_reads_back(pointed(number), precision, rest);
}

/// A truth value, written as its literal, is read back as the same truth
/// value, whatever follows the literal.
pub proof fn lemma_bool_literal_reads_back(b: bool, rest: Seq<char>)
    ensures
        read_bool(bool_literal(b) + rest) == Some((b, bool_literal(b).len())),
{
    reveal_strlit("true");
    reveal_strlit("false");
    let text = bool_literal(b) + rest;
    assert(text.take(bool_literal(b).len() as int) == bool_literal(b));
    if !b {
        if starts_with(text, "true"@) {
            assert(text.take(4)[0] == text[0]);
        }
    }
}

/// The escaped form of a text is the escaped form of its first character
/// followed by the escaped form of the rest.
pub proof fn lemma_escape_front(s: Seq<char>)
    requires
        s.len() > 0,
    ensures
        escape(s) == escape_char(s[0]) + escape(s.skip(1)),
    decreases s.len(),
{
    if s.len() == 1 {
        assert(s.drop_last() == Seq::<char>::empty());
        assert(s.skip(1) == Seq::<char>::empty());
        assert(escape(Seq::<char>::empty()) == Seq::<char>::empty());
        assert(escape(s) == escape_char(s[0]));
    } else {
        lemma_escape_front(s.drop_last());
        assert(s.skip(1).drop_last() == s.drop_last().skip(1));
        assert(escape(s.skip(1)) == escape(s.drop_last().skip(1)) + escape_char(s.last()));
        assert(escape(s) == escape_char(s[0]) + escape(s.drop_last().skip(1)) + escape_char(
            s.last(),
        ));
    }
}

/// The escaped form of a text, followed by a quotation mark, is read as
/// that text.
pub proof fn lemma_quoted_reads_back(s: Seq<char>, rest: Seq<char>)
    ensures
        read_quoted(escape(s) + seq!['"'] + rest) == Some((s, escape(s).len() + 1)),
    decreases s.len(),
{
    let text = escape(s) + seq!['"'] + rest;
    if s.len() == 0 {
        assert(text[0] == '"');
    } else {
        lemma_escape_front(s);
        lemma_quoted_reads_back(s.skip(1), rest);
        let first = escape_char(s[0]);
        let tail = escape(s.skip(1)) + seq!['"'] + rest;
        assert(text == first + tail);
        assert(text[0] == first[0]);
        if first.len() == 2 {
            assert(text[1] == first[1]);
            assert(text.skip(2) == tail);
            assert(escaped_by(text[1]) == Some(s[0]));
        } else {
            assert(text.skip(1) == tail);
        }
        assert(seq![s[0]] + s.skip(1) == s);
    }
}

/// A borrowed piece of text, written as its literal, is read back as the
/// same text, whatever follows the literal.
pub proof fn lemma_str_literal_reads_back(s: Seq<char>, rest: Seq<char>)
    ensures
        read_str(str_literal(s) + rest) == Some((s, str_literal(s).len())),
{
    let text = str_literal(s) + rest;
    lemma_quoted_reads_back(s, rest);
    assert(text.skip(1) == escape(s) + seq!['"'] + rest);
}

/// An owned string, written as its literal, is read back as the same text,
/// whatever follows the literal.
pub proof fn lemma_string_literal_reads_back(s: Seq<char>, rest: Seq<char>)
    ensures
        read_string(string_literal(s) + rest) == Some((s, string_literal(s).len())),
{
    reveal_strlit(".to_string()");
    let text = string_literal(s) + rest;
    let call = ".to_string()"@;
    lemma_str_literal_reads_back(s, call + rest);
    assert(text == str_literal(s) + (call + rest));
    assert(text.skip(str_literal(s).len() as int) == call + rest);
    assert((call + rest).take(12) == call);
}

/// Every integer type is read back: what an integer is written as is read
/// as the same number, marked with the same type.
proof fn lemma_integers_read_back()
    ensures
        reads_back::<i8, int>(int_reader(IntKind::I8), |v: i8| v as int),
        reads_back::<i16, int>(int_reader(IntKind::I16), |v: i16| v as int),
        reads_back::<i32, int>(int_reader(IntKind::I32), |v: i32| v as int),
        reads_back::<i64, int>(int_reader(IntKind::I64), |v: i64| v as int),
        reads_back::<u8, int>(int_reader(IntKind::U8), |v: u8| v as int),
        reads_back::<u16, int>(int_reader(IntKind::U16), |v: u16| v as int),
        reads_back::<u32, int>(int_reader(IntKind::U32), |v: u32| v as int),
        reads_back::<u64, int>(int_reader(IntKind::U64), |v: u64| v as int),
{
    assert forall|v: int, kind: IntKind, rest: Seq<char>| fits(v, kind) implies #[trigger] read_int(
        int_literal(v, kind) + rest,
    ) == Some(((kind, v), int_literal(v, kind).len())) by {
        lemma_int_literal_reads_back(v, kind, rest);
    }
}

/// Truth values are read back.
proof fn lemma_bools_read_back()
    ensures
        reads_back::<bool, bool>(bool_reader(), as_itself()),
{
    assert forall|b: bool, rest: Seq<char>| #[trigger]
        read_bool(bool_literal(b) + rest) == Some((b, bool_literal(b).len())) by {
        lemma_bool_literal_reads_back(b, rest);
    }
}

/// Owned strings are read back, character for character.
proof fn lemma_strings_read_back()
    ensures
        reads_back::<String, Seq<char>>(string_reader(), as_characters()),
{
    assert forall|s: Seq<char>, rest: Seq<char>| #[trigger]
        read_string(string_literal(s) + rest) == Some((s, string_literal(s).len())) by {
        lemma_string_literal_reads_back(s, rest);
    }
}

/// An optional value is read back wherever its content is: a present value
/// as a present value with equal content, an absent one as absent.
proof fn lemma_options_read_back<T: TextBuildable, M>(read: Reader<M>, model: spec_fn(T) -> M)
    requires
        reads_back::<T, M>(read, model),
    ensures
        reads_back::<Option<T>, Option<M>>(option_reader(read), as_option(model)),
{
    reveal_strlit("None");
    reveal_strlit("Some(");
    reveal_strlit(")");
    assert forall|value: Option<T>, text: Seq<char>, rest: Seq<char>|
        #![trigger value.reifies_as(text), option_reader(read)(text + rest)]
        value.reifies_as(text) implies option_reader(read)(text + rest) == Some(
        (as_option(model)(value), text.len()),
    ) by {
        let whole = text + rest;
        match value {
            None => {
                assert(whole.take(4) == "None"@);
            },
            Some(inner) => {
                let inner_text = choose|inner_text: Seq<char>| #[trigger]
                    inner.reifies_as(inner_text) && text == option_literal(Some(inner_text));
                let after = ")"@ + rest;
                assert(whole.take(5) == "Some("@);
                if starts_with(whole, "None"@) {
                    assert(whole.take(4)[0] == whole[0]);
                }
                assert(whole.skip(5) == inner_text + after);
                assert(read(inner_text + after) == Some((model(inner), inner_text.len())));
                assert(whole.skip(5 + inner_text.len() as int) == after);
                assert(after.take(1) == ")"@);
            },
        }
    }
}

/// A fallible result is read back wherever both of its payloads are:
/// success as success and failure as failure, with equal payload.
proof fn lemma_results_read_back<T: TextBuildable, E: TextBuildable, M, N>(
    read: Reader<M>,
    model: spec_fn(T) -> M,
    read_error: Reader<N>,
    error_model: spec_fn(E) -> N,
)
    requires
        reads_back::<T, M>(read, model),
        reads_back::<E, N>(read_error, error_model),
    ensures
        reads_back::<Result<T, E>, Result<M, N>>(
            result_reader(read, read_error),
            as_result(model, error_model),
        ),
{
    reveal_strlit("Ok(");
    reveal_strlit("Err(");
    reveal_strlit(")");
    assert forall|value: Result<T, E>, text: Seq<char>, rest: Seq<char>|
        #![trigger value.reifies_as(text), result_reader(read, read_error)(text + rest)]
        value.reifies_as(text) implies result_reader(read, read_error)(text + rest) == Some(
        (as_result(model, error_model)(value), text.len()),
    ) by {
        let whole = text + rest;
        let after = ")"@ + rest;
        assert(after.take(1) == ")"@);
        match value {
            Ok(inner) => {
                let inner_text = choose|inner_text: Seq<char>| #[trigger]
                    inner.reifies_as(inner_text) && text == result_literal(Ok(inner_text));
                assert(whole.take(3) == "Ok("@);
                assert(whole.skip(3) == inner_text + after);
                assert(read(inner_text + after) == Some((model(inner), inner_text.len())));
                assert(whole.skip(3 + inner_text.len() as int) == after);
            },
            Err(inner) => {
                let inner_text = choose|inner_text: Seq<char>| #[trigger]
                    inner.reifies_as(inner_text) && text == result_literal(Err(inner_text));
                assert(whole.take(4) == "Err("@);
                if starts_with(whole, "Ok("@) {
                    assert(whole.take(3)[0] == whole[0]);
                }
                assert(whole.skip(4) == inner_text + after);
                assert(read_error(inner_text + after) == Some(
                    (error_model(inner), inner_text.len()),
                ));
                assert(whole.skip(4 + inner_text.len() as int) == after);
            },
        }
    }
}

/// No integer, truth value or string is written as a text that begins
/// with a closing bracket.
proof fn lemma_primitives_never_open_with_bracket()
    ensures
        never_opens_with::<i8>(']'),
        never_opens_with::<i16>(']'),
        never_opens_with::<i32>(']'),
        never_opens_with::<i64>(']'),
        never_opens_with::<u8>(']'),
        never_opens_with::<u16>(']'),
        never_opens_with::<u32>(']'),
        never_opens_with::<u64>(']'),
        never_opens_with::<bool>(']'),
        never_opens_with::<String>(']'),
{
    reveal_strlit("true");
    reveal_strlit("false");
    assert forall|v: int, kind: IntKind| #![trigger int_literal(v, kind)]
        int_literal(v, kind).len() > 0 && int_literal(v, kind)[0] != ']' by {
        let magnitude: nat = if v < 0 {
            (-v) as nat
        } else {
            v as nat
        };
        lemma_decimal_digits_are_digits(magnitude);
        assert(is_digit(decimal_digits(magnitude)[0]));
        assert(int_literal(v, kind)[0] == signed_decimal(v)[0]);
    }
    assert forall|s: Seq<char>| #![trigger string_literal(s)]
        string_literal(s).len() > 0 && string_literal(s)[0] != ']' by {
        assert(string_literal(s)[0] == '"');
    }
}

/// No optional value, fallible result, sequence or mapping is written as a
/// text that begins with a closing bracket, whatever it holds.
proof fn lemma_containers_never_open_with_bracket<
    T: TextBuildable,
    E: TextBuildable,
    K: TextBuildable,
    V: TextBuildable,
>()
    ensures
        never_opens_with::<Option<T>>(']'),
        never_opens_with::<Result<T, E>>(']'),
        never_opens_with::<Vec<T>>(']'),
        never_opens_with::<HashMap<K, V>>(']'),
{
    reveal_strlit("None");
    reveal_strlit("Some(");
    reveal_strlit("Ok(");
    reveal_strlit("Err(");
    reveal_strlit("vec![\n");
    reveal_strlit("{\n");
    assert forall|value: Option<T>, text: Seq<char>| #[trigger]
        value.reifies_as(text) implies text.len() > 0 && text[0] != ']' by {
        if value is Some {
            assert(text[0] == "Some("@[0]);
        }
    }
    assert forall|value: Result<T, E>, text: Seq<char>| #[trigger]
        value.reifies_as(text) implies text.len() > 0 && text[0] != ']' by {
        if value is Ok {
            assert(text[0] == "Ok("@[0]);
        } else {
            assert(text[0] == "Err("@[0]);
        }
    }
    assert forall|value: Vec<T>, text: Seq<char>| #[trigger]
        value.reifies_as(text) implies text.len() > 0 && text[0] != ']' by {
        assert(text[0] == "vec![\n"@[0]);
    }
    assert forall|value: HashMap<K, V>, text: Seq<char>| #[trigger]
        value.reifies_as(text) implies text.len() > 0 && text[0] != ']' by {
        assert(text[0] == "{\n"@[0]);
    }
}

/// The elements of a sequence literal are the first element, a comma and a
/// line break, and the elements that follow.
pub proof fn lemma_sequence_items_front(texts: Seq<Seq<char>>)
    requires
        texts.len() > 0,
    ensures
        sequence_items(texts) == texts[0] + ",\n"@ + sequence_items(texts.skip(1)),
    decreases texts.len(),
{
    if texts.len() == 1 {
        assert(texts.drop_last() == Seq::<Seq<char>>::empty());
        assert(texts.skip(1) == Seq::<Seq<char>>::empty());
        assert(sequence_items(Seq::<Seq<char>>::empty()) == Seq::<char>::empty());
        assert(sequence_items(texts) == texts[0] + ",\n"@);
    } else {
        lemma_sequence_items_front(texts.drop_last());
        assert(texts.skip(1).drop_last() == texts.drop_last().skip(1));
        assert(sequence_items(texts.skip(1)) == sequence_items(texts.drop_last().skip(1))
            + texts.last() + ",\n"@);
        assert(sequence_items(texts) == texts[0] + ",\n"@ + sequence_items(
            texts.drop_last().skip(1),
        ) + texts.last() + ",\n"@);
    }
}

/// The elements of a sequence literal, followed by the closing bracket,
/// are read back one by one.
proof fn lemma_items_read_back<T: TextBuildable, M>(
    read: Reader<M>,
    model: spec_fn(T) -> M,
    values: Seq<T>,
    texts: Seq<Seq<char>>,
    tail: Seq<char>,
)
    requires
        reads_back::<T, M>(read, model),
        never_opens_with::<T>(']'),
        values.len() == texts.len(),
        forall|i: int| 0 <= i < texts.len() ==> #[trigger] values[i].reifies_as(texts[i]),
        starts_with(tail, "]"@),
    ensures
        read_items(read, sequence_items(texts) + tail) == Some(
            (values.map_values(model), sequence_items(texts).len()),
        ),
    decreases texts.len(),
{
    reveal_strlit("]");
    reveal_strlit(",\n");
    let whole = sequence_items(texts) + tail;
    if texts.len() == 0 {
        assert(whole == tail);
        assert(values.map_values(model) == Seq::<M>::empty());
    } else {
        lemma_sequence_items_front(texts);
        let later = sequence_items(texts.skip(1)) + tail;
        let after = ",\n"@ + later;
        assert(whole == texts[0] + after);
        assert(values[0].reifies_as(texts[0]));
        assert(whole[0] == texts[0][0]);
        if starts_with(whole, "]"@) {
            assert(whole.take(1)[0] == whole[0]);
        }
        assert(read(texts[0] + after) == Some((model(values[0]), texts[0].len())));
        assert(whole.skip(texts[0].len() as int) == after);
        assert(after.take(2) == ",\n"@);
        assert(whole.skip((texts[0].len() + 2) as int) == later);
        assert forall|i: int| 0 <= i < texts.skip(1).len() implies #[trigger] values.skip(
            1,
        )[i].reifies_as(texts.skip(1)[i]) by {
            assert(values[i + 1].reifies_as(texts[i + 1]));
        }
        lemma_items_read_back(read, model, values.skip(1), texts.skip(1), tail);
        assert(seq![model(values[0])] + values.skip(1).map_values(model) == values.map_values(
            model,
        ));
    }
}

/// A sequence is read back wherever its elements are, element for element
/// and in the same order; the empty sequence is read back as empty.
proof fn lemma_sequences_read_back<T: TextBuildable, M>(read: Reader<M>, model: spec_fn(T) -> M)
    requires
        reads_back::<T, M>(read, model),
        never_opens_with::<T>(']'),
    ensures
        reads_back::<Vec<T>, Seq<M>>(sequence_reader(read), as_sequence(model)),
{
    reveal_strlit("vec![\n");
    reveal_strlit("]");
    assert forall|value: Vec<T>, text: Seq<char>, rest: Seq<char>|
        #![trigger value.reifies_as(text), sequence_reader(read)(text + rest)]
        value.reifies_as(text) implies sequence_reader(read)(text + rest) == Some(
        (as_sequence(model)(value), text.len()),
    ) by {
        let texts = choose|texts: Seq<Seq<char>>|
            {
                &&& texts.len() == value@.len()
                &&& forall|i: int|
                    0 <= i < texts.len() ==> #[trigger] value@[i].reifies_as(texts[i])
                &&& text == sequence_literal(texts)
            };
        let whole = text + rest;
        let tail = "]"@ + rest;
        assert(tail.take(1) == "]"@);
        lemma_items_read_back(read, model, value@, texts, tail);
        assert(whole.take(6) == "vec![\n"@);
        assert(whole.skip(6) == sequence_items(texts) + tail);
        assert(whole.skip(6 + sequence_items(texts).len() as int) == tail);
    }
}

/// The insertion statements of a mapping block are the first statement
/// and the statements that follow.
pub proof fn lemma_insertions_front(texts: Seq<(Seq<char>, Seq<char>)>)
    requires
        texts.len() > 0,
    ensures
        insertions(texts) == insertion(texts[0].0, texts[0].1) + insertions(texts.skip(1)),
    decreases texts.len(),
{
    if texts.len() == 1 {
        assert(texts.drop_last() == Seq::<(Seq<char>, Seq<char>)>::empty());
        assert(texts.skip(1) == Seq::<(Seq<char>, Seq<char>)>::empty());
        assert(insertions(Seq::<(Seq<char>, Seq<char>)>::empty()) == Seq::<char>::empty());
        assert(insertions(texts) == insertion(texts[0].0, texts[0].1));
    } else {
        lemma_insertions_front(texts.drop_last());
        assert(texts.skip(1).drop_last() == texts.drop_last().skip(1));
        assert(insertions(texts.skip(1)) == insertions(texts.drop_last().skip(1)) + insertion(
            texts.last().0,
            texts.last().1,
        ));
        assert(insertions(texts) == insertion(texts[0].0, texts[0].1) + insertions(
            texts.drop_last().skip(1),
        ) + insertion(texts.last().0, texts.last().1));
    }
}

/// The insertion statements of a mapping block, followed by the closing
/// of the block, are read back one by one.
proof fn lemma_insertions_read_back<K: TextBuildable, V: TextBuildable, MK, MV>(
    read_key: Reader<MK>,
    key_model: spec_fn(K) -> MK,
    read_value: Reader<MV>,
    value_model: spec_fn(V) -> MV,
    entries: Seq<(K, V)>,
    texts: Seq<(Seq<char>, Seq<char>)>,
    rest: Seq<char>,
)
    requires
        reads_back::<K, MK>(read_key, key_model),
        reads_back::<V, MV>(read_value, value_model),
        texts.len() == entries.len(),
        forall|i: int|
            0 <= i < entries.len() ==> (#[trigger] entries[i]).0.reifies_as(texts[i].0)
                && entries[i].1.reifies_as(texts[i].1),
    ensures
        read_insertions(read_key, read_value, insertions(texts) + (mapping_closing() + rest))
            == Some(
            (
                Seq::new(
                    entries.len(),
                    |i: int| (key_model(entries[i].0), value_model(entries[i].1)),
                ),
                insertions(texts).len(),
            ),
        ),
    decreases texts.len(),
{
    reveal_strlit("hm.insert(");
    reveal_strlit(", ");
    reveal_strlit(");\n");
    reveal_strlit("hm");
    reveal_strlit("\n}");
    let tail = mapping_closing() + rest;
    let whole = insertions(texts) + tail;
    let pairs = Seq::new(
        entries.len(),
        |i: int| (key_model(entries[i].0), value_model(entries[i].1)),
    );
    if texts.len() == 0 {
        assert(whole == tail);
        if starts_with(whole, "hm.insert("@) {
            assert(whole.take(10)[2] == whole[2]);
        }
        assert(pairs == Seq::<(MK, MV)>::empty());
    } else {
        lemma_insertions_front(texts);
        let key_text = texts[0].0;
        let value_text = texts[0].1;
        let later = insertions(texts.skip(1)) + tail;
        let after_value = ");\n"@ + later;
        let after_key = ", "@ + (value_text + after_value);
        assert(entries[0].0.reifies_as(key_text) && entries[0].1.reifies_as(value_text));
        assert(whole == "hm.insert("@ + (key_text + after_key));
        assert(whole.take(10) == "hm.insert("@);
        assert(whole.skip(10) == key_text + after_key);
        assert(read_key(key_text + after_key) == Some(
            (key_model(entries[0].0), key_text.len()),
        ));
        assert(whole.skip(10 + key_text.len() as int) == after_key);
        assert(after_key.take(2) == ", "@);
        assert(whole.skip((10 + key_text.len() + 2) as int) == value_text + after_value);
        assert(read_value(value_text + after_value) == Some(
            (value_model(entries[0].1), value_text.len()),
        ));
        assert(whole.skip((10 + key_text.len() + 2 + value_text.len()) as int) == after_value);
        assert(after_value.take(3) == ");\n"@);
        assert(whole.skip((10 + key_text.len() + 2 + value_text.len() + 3) as int) == later);
        assert forall|i: int| 0 <= i < entries.skip(1).len() implies (#[trigger] entries.skip(
            1,
        )[i]).0.reifies_as(texts.skip(1)[i].0) && entries.skip(1)[i].1.reifies_as(
            texts.skip(1)[i].1,
        ) by {
            assert(entries[i + 1].0.reifies_as(texts[i + 1].0));
        }
        lemma_insertions_read_back(
            read_key,
            key_model,
            read_value,
            value_model,
            entries.skip(1),
            texts.skip(1),
            rest,
        );
        let later_pairs = Seq::new(
            entries.skip(1).len(),
            |i: int| (key_model(entries.skip(1)[i].0), value_model(entries.skip(1)[i].1)),
        );
        assert(seq![(key_model(entries[0].0), value_model(entries[0].1))] + later_pairs == pairs);
    }
}

/// What inserting entries one after the other comes to, where no key is
/// given two different values: every key that occurs is present, no other
/// is, and each key has the value it occurs with.
pub proof fn lemma_replay_holds_entries<K, V>(entries: Seq<(K, V)>)
    requires
        forall|i: int, j: int|
            0 <= i < entries.len() && 0 <= j < entries.len() && (#[trigger] entries[i]).0 == (
            #[trigger] entries[j]).0 ==> entries[i].1 == entries[j].1,
    ensures
        forall|i: int|
            0 <= i < entries.len() ==> replay(entries).contains_pair(
                (#[trigger] entries[i]).0,
                entries[i].1,
            ),
        forall|k: K| #[trigger]
            replay(entries).contains_key(k) ==> exists|i: int|
                0 <= i < entries.len() && (#[trigger] entries[i]).0 == k,
    decreases entries.len(),
{
    if entries.len() > 0 {
        let earlier = entries.drop_last();
        assert forall|i: int, j: int|
            0 <= i < earlier.len() && 0 <= j < earlier.len() && (#[trigger] earlier[i]).0 == (
            #[trigger] earlier[j]).0 implies earlier[i].1 == earlier[j].1 by {
            assert(entries[i].0 == entries[j].0);
        }
        lemma_replay_holds_entries(earlier);
        assert forall|i: int| 0 <= i < entries.len() implies replay(entries).contains_pair(
            (#[trigger] entries[i]).0,
            entries[i].1,
        ) by {
            if i < entries.len() - 1 {
                assert(replay(earlier).contains_pair(earlier[i].0, earlier[i].1));
                if entries[i].0 == entries.last().0 {
                    assert(entries[i].1 == entries[entries.len() - 1].1);
                }
            }
        }
        assert forall|k: K| #[trigger] replay(entries).contains_key(k) implies exists|i: int|
            0 <= i < entries.len() && (#[trigger] entries[i]).0 == k by {
            if k == entries.last().0 {
                assert(entries[entries.len() - 1].0 == k);
            } else {
                assert(replay(earlier).contains_key(k));
                let i = choose|i: int| 0 <= i < earlier.len() && (#[trigger] earlier[i]).0 == k;
                assert(entries[i].0 == k);
            }
        }
    }
}

/// The order of insertion is immaterial: inserting the entries of a
/// mapping into an empty mapping, each once and in any order, yields the
/// same mapping again.
pub proof fn lemma_insertion_order_is_immaterial<K, V>(map: Map<K, V>, entries: Seq<(K, V)>)
    requires
        lists_entries(map, entries),
    ensures
        replay(entries) == map,
{
    assert forall|i: int| 0 <= i < entries.len() implies map.contains_pair(
        (#[trigger] entries[i]).0,
        entries[i].1,
    ) by {
        assert(entries.to_set().contains(entries[i]));
        assert(map.kv_pairs().contains(entries[i]));
    }
    lemma_replay_holds_entries(entries);
    assert forall|k: K| map.contains_key(k) implies replay(entries).contains_pair(k, map[k]) by {
        assert(map.kv_pairs().contains((k, map[k])));
        assert(entries.to_set().contains((k, map[k])));
        let i = choose|i: int| 0 <= i < entries.len() && entries[i] == (k, map[k]);
        assert(replay(entries).contains_pair(entries[i].0, entries[i].1));
    }
    assert forall|k: K| replay(entries).contains_key(k) implies map.contains_key(k) by {
        let i = choose|i: int| 0 <= i < entries.len() && (#[trigger] entries[i]).0 == k;
        assert(map.contains_pair(entries[i].0, entries[i].1));
    }
    assert(replay(entries) =~= map);
}

/// A mapping is read back wherever its keys and values are: whatever the
/// order in which its entries were written, carrying out the insertions
/// yields a mapping with the same pairs of key and value.
proof fn lemma_mappings_read_back<K: TextBuildable, V: TextBuildable, MK, MV>(
    read_key: Reader<MK>,
    key_model: spec_fn(K) -> MK,
    read_value: Reader<MV>,
    value_model: spec_fn(V) -> MV,
)
    requires
        reads_back::<K, MK>(read_key, key_model),
        reads_back::<V, MV>(read_value, value_model),
        injective(key_model),
        obeys_key_model::<K>(),
    ensures
        reads_back::<HashMap<K, V>, Map<MK, MV>>(
            mapping_reader(read_key, read_value),
            as_mapping(key_model, value_model),
        ),
{
    reveal_strlit("{\n");
    reveal_strlit("let mut hm = std::collections::HashMap::new();\n");
    reveal_strlit("hm");
    reveal_strlit("\n}");
    assert forall|value: HashMap<K, V>, text: Seq<char>, rest: Seq<char>|
        #![trigger value.reifies_as(text), mapping_reader(read_key, read_value)(text + rest)]
        value.reifies_as(text) implies mapping_reader(read_key, read_value)(text + rest) == Some(
        (as_mapping(key_model, value_model)(value), text.len()),
    ) by {
        let (entries, texts) = choose|
            entries: Seq<(K, V)>,
            texts: Seq<(Seq<char>, Seq<char>)>,
        |
            {
                &&& obeys_key_model::<K>() ==> lists_entries(value@, entries)
                &&& texts.len() == entries.len()
                &&& forall|i: int|
                    0 <= i < entries.len() ==> (#[trigger] entries[i]).0.reifies_as(texts[i].0)
                        && entries[i].1.reifies_as(texts[i].1)
                &&& text == mapping_literal(texts)
            };
        let whole = text + rest;
        let tail = mapping_closing() + rest;
        let pairs = Seq::new(
            entries.len(),
            |i: int| (key_model(entries[i].0), value_model(entries[i].1)),
        );
        lemma_insertions_read_back(
            read_key,
            key_model,
            read_value,
            value_model,
            entries,
            texts,
            rest,
        );
        assert(whole == mapping_opening() + (insertions(texts) + tail));
        assert(whole.take(mapping_opening().len() as int) == mapping_opening());
        assert(whole.skip(mapping_opening().len() as int) == insertions(texts) + tail);
        assert(whole.skip((mapping_opening().len() + insertions(texts).len()) as int) == tail);
        assert(tail.take(mapping_closing().len() as int) == mapping_closing());
        lemma_replay_of_models(value@, entries, key_model, value_model);
    }
}

/// Inserting the models of the entries of a mapping, each once and in any
/// order, yields the model of the mapping.
proof fn lemma_replay_of_models<K, V, MK, MV>(
    map: Map<K, V>,
    entries: Seq<(K, V)>,
    key_model: spec_fn(K) -> MK,
    value_model: spec_fn(V) -> MV,
)
    requires
        lists_entries(map, entries),
        injective(key_model),
    ensures
        replay(
            Seq::new(entries.len(), |i: int| (key_model(entries[i].0), value_model(entries[i].1))),
        ) == map_model(map, key_model, value_model),
{
    let pairs = Seq::new(
        entries.len(),
        |i: int| (key_model(entries[i].0), value_model(entries[i].1)),
    );
    let model = map_model(map, key_model, value_model);
    assert forall|i: int| 0 <= i < entries.len() implies map.contains_pair(
        (#[trigger] entries[i]).0,
        entries[i].1,
    ) by {
        assert(entries.to_set().contains(entries[i]));
        assert(map.kv_pairs().contains(entries[i]));
    }
    assert forall|i: int, j: int|
        0 <= i < pairs.len() && 0 <= j < pairs.len() && (#[trigger] pairs[i]).0 == (
        #[trigger] pairs[j]).0 implies pairs[i].1 == pairs[j].1 by {
        assert(key_model(entries[i].0) == key_model(entries[j].0));
        assert(map.contains_pair(entries[i].0, entries[i].1));
        assert(map.contains_pair(entries[j].0, entries[j].1));
    }
    lemma_replay_holds_entries(pairs);
    assert forall|x: MK| model.contains_key(x) implies replay(pairs).contains_pair(
        x,
        model[x],
    ) by {
        let k = choose|k: K| map.contains_key(k) && #[trigger] key_model(k) == x;
        assert(map.kv_pairs().contains((k, map[k])));
        assert(entries.to_set().contains((k, map[k])));
        let i = choose|i: int| 0 <= i < entries.len() && entries[i] == (k, map[k]);
        assert(replay(pairs).contains_pair(pairs[i].0, pairs[i].1));
    }
    assert forall|x: MK| replay(pairs).contains_key(x) implies model.contains_key(x) by {
        let i = choose|i: int| 0 <= i < pairs.len() && (#[trigger] pairs[i]).0 == x;
        assert(map.contains_pair(entries[i].0, entries[i].1));
        assert(key_model(entries[i].0) == x);
    }
    assert(replay(pairs) =~= model);
}

/// The entries of a record literal are the first entry and the entries
/// that follow.
pub proof fn lemma_record_entries_front(entries: Seq<(Seq<char>, Seq<char>)>)
    requires
        entries.len() > 0,
    ensures
        record_entries(entries) == entries[0].0 + ": "@ + entries[0].1 + ", "@ + record_entries(
            entries.skip(1),
        ),
    decreases entries.len(),
{
    if entries.len() == 1 {
        assert(entries.drop_last() == Seq::<(Seq<char>, Seq<char>)>::empty());
        assert(entries.skip(1) == Seq::<(Seq<char>, Seq<char>)>::empty());
        assert(record_entries(Seq::<(Seq<char>, Seq<char>)>::empty()) == Seq::<char>::empty());
        assert(record_entries(entries) == entries[0].0 + ": "@ + entries[0].1 + ", "@);
    } else {
        lemma_record_entries_front(entries.drop_last());
        assert(entries.skip(1).drop_last() == entries.drop_last().skip(1));
        assert(record_entries(entries.skip(1)) == record_entries(entries.drop_last().skip(1))
            + entries.last().0 + ": "@ + entries.last().1 + ", "@);
        assert(record_entries(entries) == entries[0].0 + ": "@ + entries[0].1 + ", "@
            + record_entries(entries.drop_last().skip(1)) + entries.last().0 + ": "@
            + entries.last().1 + ", "@);
    }
}

/// The entries of a record literal are read back field for field.
proof fn lemma_fields_read_back<M>(
    labels: Seq<Seq<char>>,
    readers: Seq<Reader<M>>,
    texts: Seq<Seq<char>>,
    values: Seq<M>,
    rest: Seq<char>,
)
    requires
        readers.len() == labels.len(),
        texts.len() == labels.len(),
        values.len() == labels.len(),
        forall|i: int, tail: Seq<char>|
            0 <= i < labels.len() ==> #[trigger] readers[i](texts[i] + tail) == Some(
                (values[i], texts[i].len()),
            ),
    ensures
        read_fields(labels, readers, record_entries(labelled(labels, texts)) + rest) == Some(
            (values, record_entries(labelled(labels, texts)).len()),
        ),
    decreases labels.len(),
{
    reveal_strlit(": ");
    reveal_strlit(", ");
    let entries = labelled(labels, texts);
    let whole = record_entries(entries) + rest;
    if labels.len() == 0 {
        assert(values == Seq::<M>::empty());
    } else {
        lemma_record_entries_front(entries);
        let opening = labels[0] + ": "@;
        let later = record_entries(entries.skip(1)) + rest;
        let after = ", "@ + later;
        assert(whole == opening + (texts[0] + after));
        assert(whole.take(opening.len() as int) == opening);
        assert(whole.skip(opening.len() as int) == texts[0] + after);
        assert(readers[0](texts[0] + after) == Some((values[0], texts[0].len())));
        assert(whole.skip((opening.len() + texts[0].len()) as int) == after);
        assert(after.take(2) == ", "@);
        assert(whole.skip((opening.len() + texts[0].len() + 2) as int) == later);
        assert(entries.skip(1) == labelled(labels.skip(1), texts.skip(1)));
        assert forall|i: int, tail: Seq<char>| 0 <= i < labels.skip(1).len() implies #[trigger] readers.skip(
            1,
        )[i](texts.skip(1)[i] + tail) == Some((values.skip(1)[i], texts.skip(1)[i].len())) by {
            assert(readers[i + 1](texts[i + 1] + tail) == Some(
                (values[i + 1], texts[i + 1].len()),
            ));
        }
        lemma_fields_read_back(
            labels.skip(1),
            readers.skip(1),
            texts.skip(1),
            values.skip(1),
            rest,
        );
        assert(seq![values[0]] + values.skip(1) == values);
    }
}

/// A record is read back wherever its fields are: the literal written for
/// a record, with one entry per field, is read as the values of exactly
/// those fields, none left out, none twice, in declaration order. The
/// reader of a field may itself be the reader of a record, or of an
/// optional value that holds one.
pub proof fn lemma_record_reads_back<M>(
    name: Seq<char>,
    labels: Seq<Seq<char>>,
    readers: Seq<Reader<M>>,
    texts: Seq<Seq<char>>,
    values: Seq<M>,
    rest: Seq<char>,
)
    requires
        readers.len() == labels.len(),
        texts.len() == labels.len(),
        values.len() == labels.len(),
        forall|i: int, tail: Seq<char>|
            0 <= i < labels.len() ==> #[trigger] readers[i](texts[i] + tail) == Some(
                (values[i], texts[i].len()),
            ),
    ensures
        record_reader(name, labels, readers)(record_literal(name, labelled(labels, texts)) + rest)
            == Some((values, record_literal(name, labelled(labels, texts)).len())),
{
    reveal_strlit(" { ");
    reveal_strlit(" }");
    let entries = labelled(labels, texts);
    let whole = record_literal(name, entries) + rest;
    let opening = name + " { "@;
    let tail = " }"@ + rest;
    lemma_fields_read_back(labels, readers, texts, values, tail);
    assert(whole == opening + (record_entries(entries) + tail));
    assert(whole.take(opening.len() as int) == opening);
    assert(whole.skip(opening.len() as int) == record_entries(entries) + tail);
    assert(whole.skip((opening.len() + record_entries(entries).len()) as int) == tail);
    assert(tail.take(2) == " }"@);
}

/// Every integer type makes the round trip: what an integer is written as
/// is read as the same number, marked with the same type.
pub proof fn lemma_integers_round_trip()
    ensures
        round_trips::<i8, int>(int_reader(IntKind::I8), |v: i8| v as int),
        round_trips::<i16, int>(int_reader(IntKind::I16), |v: i16| v as int),
        round_trips::<i32, int>(int_reader(IntKind::I32), |v: i32| v as int),
        round_trips::<i64, int>(int_reader(IntKind::I64), |v: i64| v as int),
        round_trips::<u8, int>(int_reader(IntKind::U8), |v: u8| v as int),
        round_trips::<u16, int>(int_reader(IntKind::U16), |v: u16| v as int),
        round_trips::<u32, int>(int_reader(IntKind::U32), |v: u32| v as int),
        round_trips::<u64, int>(int_reader(IntKind::U64), |v: u64| v as int),
{
    lemma_integers_read_back();
    lemma_primitives_never_open_with_bracket();
}

/// Truth values make the round trip.
pub proof fn lemma_bools_round_trip()
    ensures
        round_trips::<bool, bool>(bool_reader(), as_itself()),
{
    lemma_bools_read_back();
    lemma_primitives_never_open_with_bracket();
}

/// Owned strings make the round trip, character for character.
pub proof fn lemma_strings_round_trip()
    ensures
        round_trips::<String, Seq<char>>(string_reader(), as_characters()),
{
    lemma_strings_read_back();
    lemma_primitives_never_open_with_bracket();
}

/// Optional values make the round trip wherever their content does: a
/// present value is read back as a present value with equal content, an
/// absent one as absent.
pub proof fn lemma_options_round_trip<T: TextBuildable, M>(read: Reader<M>, model: spec_fn(T) -> M)
    requires
        round_trips::<T, M>(read, model),
    ensures
        round_trips::<Option<T>, Option<M>>(option_reader(read), as_option(model)),
{
    lemma_options_read_back::<T, M>(read, model);
    lemma_containers_never_open_with_bracket::<T, T, T, T>();
}

/// Fallible results make the round trip wherever both of their payloads
/// do: success is read back as success and failure as failure, with equal
/// payload.
pub proof fn lemma_results_round_trip<T: TextBuildable, E: TextBuildable, M, N>(
    read: Reader<M>,
    model: spec_fn(T) -> M,
    read_error: Reader<N>,
    error_model: spec_fn(E) -> N,
)
    requires
        round_trips::<T, M>(read, model),
        round_trips::<E, N>(read_error, error_model),
    ensures
        round_trips::<Result<T, E>, Result<M, N>>(
            result_reader(read, read_error),
            as_result(model, error_model),
        ),
{
    lemma_results_read_back::<T, E, M, N>(read, model, read_error, error_model);
    lemma_containers_never_open_with_bracket::<T, E, T, T>();
}

/// Sequences make the round trip wherever their elements do: a sequence is
/// read back with the same length, element for element and in the same
/// order, nothing dropped and nothing added; the empty sequence is read
/// back as empty.
pub proof fn lemma_sequences_round_trip<T: TextBuildable, M>(
    read: Reader<M>,
    model: spec_fn(T) -> M,
)
    requires
        round_trips::<T, M>(read, model),
    ensures
        round_trips::<Vec<T>, Seq<M>>(sequence_reader(read), as_sequence(model)),
        forall|value: Vec<T>, text: Seq<char>| #[trigger]
            value.reifies_as(text) ==> {
                &&& sequence_reader(read)(text) == Some((as_sequence(model)(value), text.len()))
                &&& as_sequence(model)(value).len() == value@.len()
                &&& forall|i: int|
                    0 <= i < value@.len() ==> as_sequence(model)(value)[i] == model(value@[i])
            },
{
    lemma_sequences_read_back::<T, M>(read, model);
    lemma_containers_never_open_with_bracket::<T, T, T, T>();
    assert forall|value: Vec<T>, text: Seq<char>| #[trigger]
        value.reifies_as(text) implies sequence_reader(read)(text) == Some(
        (as_sequence(model)(value), text.len()),
    ) by {
        assert(text + Seq::<char>::empty() == text);
        assert(sequence_reader(read)(text + Seq::<char>::empty()) == Some(
            (as_sequence(model)(value), text.len()),
        ));
    }
}

/// Mappings make the round trip wherever their keys and values do:
/// whatever the order in which the entries were written, carrying out the
/// insertions yields a mapping with the same pairs of key and value. The
/// keys must be of a type that a hash map can be keyed by, and their model
/// must tell different keys apart, or the pairs could not be told apart
/// either.
pub proof fn lemma_mappings_round_trip<K: TextBuildable, V: TextBuildable, MK, MV>(
    read_key: Reader<MK>,
    key_model: spec_fn(K) -> MK,
    read_value: Reader<MV>,
    value_model: spec_fn(V) -> MV,
)
    requires
        round_trips::<K, MK>(read_key, key_model),
        round_trips::<V, MV>(read_value, value_model),
        injective(key_model),
        obeys_key_model::<K>(),
    ensures
        round_trips::<HashMap<K, V>, Map<MK, MV>>(
            mapping_reader(read_key, read_value),
            as_mapping(key_model, value_model),
        ),
        forall|value: HashMap<K, V>, k: K|
            value@.contains_key(k) ==> #[trigger] map_model(
                value@,
                key_model,
                value_model,
            ).contains_pair(key_model(k), value_model(value@[k])),
        forall|value: HashMap<K, V>, x: MK| #[trigger]
            map_model(value@, key_model, value_model).contains_key(x) ==> exists|k: K|
                value@.contains_key(k) && #[trigger] key_model(k) == x,
{
    lemma_mappings_read_back::<K, V, MK, MV>(read_key, key_model, read_value, value_model);
    lemma_containers_never_open_with_bracket::<K, K, K, V>();
    assert forall|value: HashMap<K, V>, k: K| value@.contains_key(k) implies #[trigger] map_model(
        value@,
        key_model,
        value_model,
    ).contains_pair(key_model(k), value_model(value@[k])) by {
        let x = key_model(k);
        let chosen = choose|c: K| value@.contains_key(c) && #[trigger] key_model(c) == x;
        assert(key_model(chosen) == key_model(k));
    }
}

/// Two mappings that hold the same pairs are read back as equal mappings,
/// though their entries were written in different orders and their texts
/// differ.
pub proof fn lemma_equal_mappings_read_back_equal<K: TextBuildable, V: TextBuildable, MK, MV>(
    first: HashMap<K, V>,
    first_text: Seq<char>,
    second: HashMap<K, V>,
    second_text: Seq<char>,
    read_key: Reader<MK>,
    key_model: spec_fn(K) -> MK,
    read_value: Reader<MV>,
    value_model: spec_fn(V) -> MV,
)
    requires
        round_trips::<K, MK>(read_key, key_model),
        round_trips::<V, MV>(read_value, value_model),
        injective(key_model),
        obeys_key_model::<K>(),
        first@ == second@,
        first.reifies_as(first_text),
        second.reifies_as(second_text),
    ensures
        mapping_reader(read_key, read_value)(first_text) is Some,
        mapping_reader(read_key, read_value)(second_text) is Some,
        (mapping_reader(read_key, read_value)(first_text)->0).0 == (mapping_reader(
            read_key,
            read_value,
        )(second_text)->0).0,
{
    lemma_mappings_read_back::<K, V, MK, MV>(read_key, key_model, read_value, value_model);
    let read = mapping_reader(read_key, read_value);
    assert(first_text + Seq::<char>::empty() == first_text);
    assert(second_text + Seq::<char>::empty() == second_text);
    assert(read(first_text + Seq::<char>::empty()) == Some(
        (as_mapping(key_model, value_model)(first), first_text.len()),
    ));
    assert(read(second_text + Seq::<char>::empty()) == Some(
        (as_mapping(key_model, value_model)(second), second_text.len()),
    ));
}

/// Formatting copies what holds no brace.
pub proof fn lemma_fill_plain(prefix: Seq<char>, rest: Seq<char>, arguments: Seq<Seq<char>>)
    requires
        brace_free(prefix),
    ensures
        fill(prefix + rest, arguments) == prefix + fill(rest, arguments),
    decreases prefix.len(),
{
    let pattern = prefix + rest;
    if prefix.len() == 0 {
        assert(pattern == rest);
    } else {
        assert(pattern[0] == prefix[0]);
        assert(pattern.skip(1) == prefix.skip(1) + rest);
        assert forall|i: int| 0 <= i < prefix.skip(1).len() implies #[trigger] prefix.skip(1)[i]
            != '{' && prefix.skip(1)[i] != '}' by {
            assert(prefix.skip(1)[i] == prefix[i + 1]);
        }
        lemma_fill_plain(prefix.skip(1), rest, arguments);
        assert(seq![prefix[0]] + (prefix.skip(1) + fill(rest, arguments)) == prefix + fill(
            rest,
            arguments,
        ));
    }
}

/// Formatting puts the next argument where a pair of braces stands.
pub proof fn lemma_fill_placeholder(rest: Seq<char>, arguments: Seq<Seq<char>>)
    requires
        arguments.len() > 0,
    ensures
        fill(seq!['{', '}'] + rest, arguments) == arguments[0] + fill(rest, arguments.skip(1)),
{
    let pattern = seq!['{', '}'] + rest;
    assert(pattern.skip(2) == rest);
}

/// Formatting puts one brace where a doubled brace stands.
pub proof fn lemma_fill_doubled_brace(rest: Seq<char>, arguments: Seq<Seq<char>>)
    ensures
        fill(seq!['{', '{'] + rest, arguments) == seq!['{'] + fill(rest, arguments),
        fill(seq!['}', '}'] + rest, arguments) == seq!['}'] + fill(rest, arguments),
{
    assert((seq!['{', '{'] + rest).skip(2) == rest);
    assert((seq!['}', '}'] + rest).skip(2) == rest);
}

/// The pattern of the entries is the pattern of the first entry and the
/// pattern of the entries that follow.
pub proof fn lemma_entry_pattern_front(labels: Seq<Seq<char>>)
    requires
        labels.len() > 0,
    ensures
        entry_pattern(labels) == labels[0] + ": {}, "@ + entry_pattern(labels.skip(1)),
    decreases labels.len(),
{
    if labels.len() == 1 {
        assert(labels.drop_last() == Seq::<Seq<char>>::empty());
        assert(labels.skip(1) == Seq::<Seq<char>>::empty());
        assert(entry_pattern(Seq::<Seq<char>>::empty()) == Seq::<char>::empty());
        assert(entry_pattern(labels) == labels[0] + ": {}, "@);
    } else {
        lemma_entry_pattern_front(labels.drop_last());
        assert(labels.skip(1).drop_last() == labels.drop_last().skip(1));
        assert(entry_pattern(labels.skip(1)) == entry_pattern(labels.drop_last().skip(1))
            + labels.last() + ": {}, "@);
        assert(entry_pattern(labels) == labels[0] + ": {}, "@ + entry_pattern(
            labels.drop_last().skip(1),
        ) + labels.last() + ": {}, "@);
    }
}

/// Filling the pattern of the entries with the texts of the fields gives
/// the entries of the record literal: each label once, in order, each with
/// the text of its own field.
pub proof fn lemma_entries_filled(labels: Seq<Seq<char>>, texts: Seq<Seq<char>>)
    requires
        texts.len() == labels.len(),
        forall|i: int| 0 <= i < labels.len() ==> brace_free(#[trigger] labels[i]),
    ensures
        fill(entry_pattern(labels), texts) == record_entries(labelled(labels, texts)),
    decreases labels.len(),
{
    reveal_strlit(": {}, ");
    reveal_strlit(": ");
    reveal_strlit(", ");
    let entries = labelled(labels, texts);
    if labels.len() == 0 {
        assert(entry_pattern(labels) == Seq::<char>::empty());
        assert(record_entries(entries) == Seq::<char>::empty());
    } else {
        lemma_entry_pattern_front(labels);
        lemma_record_entries_front(entries);
        let later = entry_pattern(labels.skip(1));
        let opening = labels[0] + ": "@;
        let closing = ", "@ + later;
        assert(brace_free(labels[0]));
        assert(brace_free(opening));
        assert(brace_free(", "@));
        assert(entry_pattern(labels) == opening + (seq!['{', '}'] + closing));
        lemma_fill_plain(opening, seq!['{', '}'] + closing, texts);
        lemma_fill_placeholder(closing, texts);
        lemma_fill_plain(", "@, later, texts.skip(1));
        assert forall|i: int| 0 <= i < labels.skip(1).len() implies brace_free(
            #[trigger] labels.skip(1)[i],
        ) by {
            assert(brace_free(labels[i + 1]));
        }
        lemma_entries_filled(labels.skip(1), texts.skip(1));
        assert(entries.skip(1) == labelled(labels.skip(1), texts.skip(1)));
        assert(fill(entry_pattern(labels), texts) == opening + (texts[0] + (", "@ + record_entries(
            entries.skip(1),
        ))));
    }
}

/// Filling the pattern of the record with a name and with entries gives
/// the name, an opening brace, the entries and a closing brace.
pub proof fn lemma_record_pattern_filled(record_name: Seq<char>, inner: Seq<char>)
    ensures
        fill(record_pattern(), seq![record_name, inner]) == record_name + " { "@ + inner + " }"@,
{
    reveal_strlit("{} {{ {} }}");
    reveal_strlit(" { ");
    reveal_strlit(" }");
    let space = seq![' '];
    let nothing = Seq::<Seq<char>>::empty();
    let both = seq![record_name, inner];
    let one = seq![inner];
    let e = space + (seq!['}', '}'] + Seq::<char>::empty());
    let d = seq!['{', '}'] + e;
    let c = space + d;
    let b = seq!['{', '{'] + c;
    let a = space + b;
    assert(record_pattern() == seq!['{', '}'] + a);
    assert(brace_free(space));
    assert(both.skip(1) == one);
    assert(one.skip(1) == nothing);
    lemma_fill_placeholder(a, both);
    lemma_fill_plain(space, b, one);
    lemma_fill_doubled_brace(c, one);
    lemma_fill_plain(space, d, one);
    lemma_fill_placeholder(e, one);
    lemma_fill_plain(space, seq!['}', '}'] + Seq::<char>::empty(), nothing);
    lemma_fill_doubled_brace(Seq::<char>::empty(), nothing);
    assert(fill(Seq::<char>::empty(), nothing) == Seq::<char>::empty());
    assert(fill(record_pattern(), both) == record_name + (space + (seq!['{'] + (space + (inner + (
        space + (seq!['}'] + Seq::<char>::empty())))))));
}

/// The generated implementation writes the record literal: for a record
/// whose labels hold no brace, what it returns is the literal with one
/// entry per field, in declaration order, each field with its own text.
pub proof fn lemma_generated_code_writes_record_literal(
    record_name: Seq<char>,
    labels: Seq<Seq<char>>,
    texts: Seq<Seq<char>>,
)
    requires
        texts.len() == labels.len(),
        forall|i: int| 0 <= i < labels.len() ==> brace_free(#[trigger] labels[i]),
    ensures
        generated_output(record_name, labels, texts) == record_literal(
            record_name,
            labelled(labels, texts),
        ),
{
    lemma_entries_filled(labels, texts);
    lemma_record_pattern_filled(record_name, record_entries(labelled(labels, texts)));
}

/// What the generated implementation of a record returns is read back as
/// the values of its fields wherever the texts of the fields are: every
/// field once, none left out, in declaration order. A field may itself be
/// a record with a generated implementation, or an optional value that
/// holds one.
pub proof fn lemma_generated_record_reads_back<M>(
    record_name: Seq<char>,
    labels: Seq<Seq<char>>,
    readers: Seq<Reader<M>>,
    texts: Seq<Seq<char>>,
    values: Seq<M>,
    rest: Seq<char>,
)
    requires
        readers.len() == labels.len(),
        texts.len() == labels.len(),
        values.len() == labels.len(),
        forall|i: int| 0 <= i < labels.len() ==> brace_free(#[trigger] labels[i]),
        forall|i: int, tail: Seq<char>|
            0 <= i < labels.len() ==> #[trigger] readers[i](texts[i] + tail) == Some(
                (values[i], texts[i].len()),
            ),
    ensures
        record_reader(record_name, labels, readers)(
            generated_output(record_name, labels, texts) + rest,
        ) == Some((values, generated_output(record_name, labels, texts).len())),
{
    lemma_generated_code_writes_record_literal(record_name, labels, texts);
    lemma_record_reads_back(record_name, labels, readers, texts, values, rest);
}

/// The labels of a record with positional fields, or without fields, hold
/// no brace, whatever the description says.
pub proof fn lemma_positions_are_brace_free(shape: RecordShape)
    requires
        !(shape is Named),
    ensures
        forall|i: int|
            0 <= i < field_labels(shape).len() ==> brace_free(#[trigger] field_labels(shape)[i]),
{
    assert forall|i: int| 0 <= i < field_labels(shape).len() implies brace_free(
        #[trigger] field_labels(shape)[i],
    ) by {
        lemma_decimal_digits_are_digits(i as nat);
        let label = decimal_digits(i as nat);
        assert(field_labels(shape)[i] == label);
        assert forall|k: int| 0 <= k < label.len() implies #[trigger] label[k] != '{' && label[k]
            != '}' by {
            assert(is_digit(label[k]));
        }
    }
}

} // verus!
