//! Reading literal text back into the value it denotes.
//!
//! A reader takes one literal off the front of a text and tells which
//! value it denotes and how many characters it took. The readers here are
//! the counterparts of the writers of this crate; that each reads back what
//! its writer wrote is shown in [`crate::round_trip`].

use std::collections::HashMap;
use vstd::prelude::*;
use crate::buildable::TextBuildable;
use crate::decimal::{decimal_value, digit_prefix_len};
use crate::fractional::{precision_suffix, Precision};
use crate::literal::{int_suffix, IntKind};

verus! {

/// A reader takes one literal off the front of a text. It yields what the
/// literal denotes and the number of characters the literal took, or
/// nothing where the text does not begin with a literal it knows.
pub type Reader<M> = spec_fn(Seq<char>) -> Option<(M, nat)>;

/// Whether `read` reads back every value of type `T`: whatever text a value
/// is written as, and whatever follows that text, `read` takes exactly that
/// text off the front and yields the value, seen through `model`.
pub open spec fn reads_back<T: TextBuildable, M>(read: Reader<M>, model: spec_fn(T) -> M) -> bool {
    forall|value: T, text: Seq<char>, rest: Seq<char>|
        #![trigger value.reifies_as(text), read(text + rest)]
        value.reifies_as(text) ==> read(text + rest) == Some((model(value), text.len()))
}

/// The model that takes a value for what it is.
pub open spec fn as_itself<T>() -> spec_fn(T) -> T {
    |value: T| value
}

/// The model that takes a string for its characters.
pub open spec fn as_characters() -> spec_fn(String) -> Seq<char> {
    |value: String| value@
}

/// The model of an optional value, given the model of what it may hold.
pub open spec fn as_option<T, M>(model: spec_fn(T) -> M) -> spec_fn(Option<T>) -> Option<M> {
    |value: Option<T>|
        match value {
            Some(inner) => Some(model(inner)),
            None => None,
        }
}

/// The model of a fallible result, given the models of its two payloads.
pub open spec fn as_result<T, E, M, N>(
    model: spec_fn(T) -> M,
    error_model: spec_fn(E) -> N,
) -> spec_fn(Result<T, E>) -> Result<M, N> {
    |value: Result<T, E>|
        match value {
            Ok(inner) => Ok(model(inner)),
            Err(inner) => Err(error_model(inner)),
        }
}

/// The model of a sequence, given the model of its elements.
pub open spec fn as_sequence<T, M>(model: spec_fn(T) -> M) -> spec_fn(Vec<T>) -> Seq<M> {
    |value: Vec<T>| value@.map_values(model)
}

/// The mapping that holds, for every entry of `map`, the model of its key
/// with the model of its value.
pub open spec fn map_model<K, V, MK, MV>(
    map: Map<K, V>,
    key_model: spec_fn(K) -> MK,
    value_model: spec_fn(V) -> MV,
) -> Map<MK, MV> {
    Map::new(
        |x: MK| exists|k: K| map.contains_key(k) && #[trigger] key_model(k) == x,
        |x: MK| value_model(map[choose|k: K| map.contains_key(k) && #[trigger] key_model(k) == x]),
    )
}

/// The model of a mapping, given the models of its keys and values.
pub open spec fn as_mapping<K, V, MK, MV>(
    key_model: spec_fn(K) -> MK,
    value_model: spec_fn(V) -> MV,
) -> spec_fn(HashMap<K, V>) -> Map<MK, MV> {
    |value: HashMap<K, V>| map_model(value@, key_model, value_model)
}

/// Whether `model` tells any two different values apart.
pub open spec fn injective<K, MK>(model: spec_fn(K) -> MK) -> bool {
    forall|a: K, b: K| #![trigger model(a), model(b)] model(a) == model(b) ==> a == b
}

/// Whether no text that a value of type `T` is written as begins with the
/// character `c`.
pub open spec fn never_opens_with<T: TextBuildable>(c: char) -> bool {
    forall|value: T, text: Seq<char>| #[trigger]
        value.reifies_as(text) ==> text.len() > 0 && text[0] != c
}

/// Whether values of type `T` make the round trip: every text that a value
/// is written as is an expression, in that it does not begin with a closing
/// bracket, and `read` reads it back as the value, seen through `model`.
pub open spec fn round_trips<T: TextBuildable, M>(read: Reader<M>, model: spec_fn(T) -> M) -> bool {
    reads_back::<T, M>(read, model) && never_opens_with::<T>(']')
}

/// The mapping that comes of inserting `entries` one after the other into
/// an empty mapping.
pub open spec fn replay<K, V>(entries: Seq<(K, V)>) -> Map<K, V>
    decreases entries.len(),
{
    if entries.len() == 0 {
        Map::empty()
    } else {
        replay(entries.drop_last()).insert(entries.last().0, entries.last().1)
    }
}

/// Whether `text` begins with `prefix`.
pub open spec fn starts_with(text: Seq<char>, prefix: Seq<char>) -> bool {
    prefix.len() <= text.len() && text.take(prefix.len() as int) == prefix
}

/// Whether values of the given integer type can be negative.
pub open spec fn is_signed(kind: IntKind) -> bool {
    kind is I8 || kind is I16 || kind is I32 || kind is I64
}

/// Whether `v` is a value of the given integer type.
pub open spec fn fits(v: int, kind: IntKind) -> bool {
    match kind {
        IntKind::I8 => i8::MIN <= v <= i8::MAX,
        IntKind::I16 => i16::MIN <= v <= i16::MAX,
        IntKind::I32 => i32::MIN <= v <= i32::MAX,
        IntKind::I64 => i64::MIN <= v <= i64::MAX,
        IntKind::U8 => 0 <= v <= u8::MAX,
        IntKind::U16 => 0 <= v <= u16::MAX,
        IntKind::U32 => 0 <= v <= u32::MAX,
        IntKind::U64 => 0 <= v <= u64::MAX,
    }
}

/// The integer type whose suffix `text` begins with, if any.
pub open spec fn kind_marked(text: Seq<char>) -> Option<IntKind> {
    if starts_with(text, int_suffix(IntKind::I8)) {
        Some(IntKind::I8)
    } else if starts_with(text, int_suffix(IntKind::I16)) {
        Some(IntKind::I16)
    } else if starts_with(text, int_suffix(IntKind::I32)) {
        Some(IntKind::I32)
    } else if starts_with(text, int_suffix(IntKind::I64)) {
        Some(IntKind::I64)
    } else if starts_with(text, int_suffix(IntKind::U8)) {
        Some(IntKind::U8)
    } else if starts_with(text, int_suffix(IntKind::U16)) {
        Some(IntKind::U16)
    } else if starts_with(text, int_suffix(IntKind::U32)) {
        Some(IntKind::U32)
    } else if starts_with(text, int_suffix(IntKind::U64)) {
        Some(IntKind::U64)
    } else {
        None
    }
}

/// Reads an integer literal off the front of `text`: an optional minus
/// sign, digits and the suffix of an integer type that holds the number.
/// Yields the type, the number and the length of the literal.
pub open spec fn read_int(text: Seq<char>) -> Option<((IntKind, int), nat)> {
    let negative = text.len() > 0 && text[0] == '-';
    let sign_len: nat = if negative {
        1
    } else {
        0
    };
    let unsigned = text.skip(sign_len as int);
    let count = digit_prefix_len(unsigned);
    let marked = kind_marked(unsigned.skip(count as int));
    if count == 0 || marked is None {
        None
    } else {
        let kind = marked->0;
        let magnitude = decimal_value(unsigned.take(count as int));
        let value = if negative {
            -magnitude
        } else {
            magnitude as int
        };
        if (negative && !is_signed(kind)) || !fits(value, kind) {
            None
        } else {
            Some(((kind, value), sign_len + count + int_suffix(kind).len()))
        }
    }
}

/// The precision whose suffix `text` begins with, if any.
pub open spec fn precision_marked(text: Seq<char>) -> Option<Precision> {
    if starts_with(text, precision_suffix(Precision::Single)) {
        Some(Precision::Single)
    } else if starts_with(text, precision_suffix(Precision::Double)) {
        Some(Precision::Double)
    } else {
        None
    }
}

/// How many characters the number in decimal notation takes that `text`
/// begins with: digits and, where a point and more digits follow, those
/// too.
pub open spec fn unsigned_decimal_len(text: Seq<char>) -> nat {
    let whole = digit_prefix_len(text);
    let after_whole = text.skip(whole as int);
    let fraction = if after_whole.len() > 0 && after_whole[0] == '.' {
        digit_prefix_len(after_whole.skip(1))
    } else {
        0
    };
    if whole > 0 && fraction > 0 {
        whole + 1 + fraction
    } else {
        whole
    }
}

/// Reads the literal of a number with a fractional part off the front of
/// `text`: an optional minus sign, digits, optionally a point and more
/// digits, and the suffix of a precision. Yields the precision, the number
/// in decimal notation and the length of the literal.
pub open spec fn read_fractional(text: Seq<char>) -> Option<((Precision, Seq<char>), nat)> {
    let sign_len: nat = if text.len() > 0 && text[0] == '-' {
        1
    } else {
        0
    };
    let unsigned_len = unsigned_decimal_len(text.skip(sign_len as int));
    let number_len = sign_len + unsigned_len;
    let marked = precision_marked(text.skip(number_len as int));
    if unsigned_len == 0 || marked is None {
        None
    } else {
        Some(((marked->0, text.take(number_len as int)), number_len + 4))
    }
}

/// Reads a truth value off the front of `text`.
pub open spec fn read_bool(text: Seq<char>) -> Option<(bool, nat)> {
    if starts_with(text, "true"@) {
        Some((true, 4))
    } else if starts_with(text, "false"@) {
        Some((false, 5))
    } else {
        None
    }
}

/// The character that a backslash followed by `mark` stands for.
pub open spec fn escaped_by(mark: char) -> Option<char> {
    if mark == '\\' {
        Some('\\')
    } else if mark == '"' {
        Some('"')
    } else if mark == 'n' {
        Some('\n')
    } else if mark == 'r' {
        Some('\r')
    } else if mark == 't' {
        Some('\t')
    } else if mark == '0' {
        Some('\0')
    } else {
        None
    }
}

/// Reads the inside of a quoted literal up to and including the closing
/// quotation mark. Yields the characters that the literal denotes and the
/// number of characters read.
pub open spec fn read_quoted(text: Seq<char>) -> Option<(Seq<char>, nat)>
    decreases text.len(),
{
    if text.len() == 0 {
        None
    } else if text[0] == '"' {
        Some((Seq::empty(), 1))
    } else if text[0] == '\\' {
        if text.len() < 2 {
            None
        } else {
            match (escaped_by(text[1]), read_quoted(text.skip(2))) {
                (Some(c), Some((tail, used))) => Some((seq![c] + tail, used + 2)),
                _ => None,
            }
        }
    } else {
        match read_quoted(text.skip(1)) {
            Some((tail, used)) => Some((seq![text[0]] + tail, used + 1)),
            None => None,
        }
    }
}

/// Reads the literal of a borrowed piece of text off the front of `text`.
pub open spec fn read_str(text: Seq<char>) -> Option<(Seq<char>, nat)> {
    if text.len() > 0 && text[0] == '"' {
        match read_quoted(text.skip(1)) {
            Some((content, used)) => Some((content, used + 1)),
            None => None,
        }
    } else {
        None
    }
}

/// Reads the literal of an owned string off the front of `text`.
pub open spec fn read_string(text: Seq<char>) -> Option<(Seq<char>, nat)> {
    match read_str(text) {
        Some((content, used)) => if starts_with(text.skip(used as int), ".to_string()"@) {
            Some((content, used + 12))
        } else {
            None
        },
        None => None,
    }
}

/// Reads an optional value off the front of `text`: either the token for
/// no value, or the wrapping constructor around a literal that `read`
/// knows.
pub open spec fn read_option<M>(read: Reader<M>, text: Seq<char>) -> Option<(Option<M>, nat)> {
    if starts_with(text, "None"@) {
        Some((None, 4))
    } else if starts_with(text, "Some("@) {
        match read(text.skip(5)) {
            Some((inner, used)) => if starts_with(text.skip(5 + used as int), ")"@) {
                Some((Some(inner), 5 + used + 1))
            } else {
                None
            },
            None => None,
        }
    } else {
        None
    }
}

/// Reads a fallible result off the front of `text`: the constructor for
/// success around a literal that `read` knows, or the constructor for
/// failure around one that `read_error` knows.
pub open spec fn read_result<M, N>(
    read: Reader<M>,
    read_error: Reader<N>,
    text: Seq<char>,
) -> Option<(Result<M, N>, nat)> {
    if starts_with(text, "Ok("@) {
        match read(text.skip(3)) {
            Some((inner, used)) => if starts_with(text.skip(3 + used as int), ")"@) {
                Some((Ok(inner), 3 + used + 1))
            } else {
                None
            },
            None => None,
        }
    } else if starts_with(text, "Err("@) {
        match read_error(text.skip(4)) {
            Some((inner, used)) => if starts_with(text.skip(4 + used as int), ")"@) {
                Some((Err(inner), 4 + used + 1))
            } else {
                None
            },
            None => None,
        }
    } else {
        None
    }
}

/// Reads the elements of a sequence literal up to, but not including, the
/// closing bracket: literals that `read` knows, each followed by a comma
/// and a line break.
pub open spec fn read_items<M>(read: Reader<M>, text: Seq<char>) -> Option<(Seq<M>, nat)>
    decreases text.len(),
{
    if starts_with(text, "]"@) {
        Some((Seq::empty(), 0))
    } else {
        match read(text) {
            Some((item, used)) => if used + 2 <= text.len() && starts_with(
                text.skip(used as int),
                ",\n"@,
            ) {
                match read_items(read, text.skip((used + 2) as int)) {
                    Some((items, more)) => Some((seq![item] + items, used + 2 + more)),
                    None => None,
                }
            } else {
                None
            },
            None => None,
        }
    }
}

/// Reads a sequence literal off the front of `text`.
pub open spec fn read_sequence<M>(read: Reader<M>, text: Seq<char>) -> Option<(Seq<M>, nat)> {
    if starts_with(text, "vec![\n"@) {
        match read_items(read, text.skip(6)) {
            Some((items, used)) => if starts_with(text.skip(6 + used as int), "]"@) {
                Some((items, 6 + used + 1))
            } else {
                None
            },
            None => None,
        }
    } else {
        None
    }
}

/// Reads insertion statements off the front of `text`, as many as there
/// are. Yields the pairs of key and value in the order of the statements.
pub open spec fn read_insertions<MK, MV>(
    read_key: Reader<MK>,
    read_value: Reader<MV>,
    text: Seq<char>,
) -> Option<(Seq<(MK, MV)>, nat)>
    decreases text.len(),
{
    if starts_with(text, "hm.insert("@) {
        match read_key(text.skip(10)) {
            Some((key, key_len)) => {
                let at_value = 10 + key_len + 2;
                if at_value <= text.len() && starts_with(text.skip(10 + key_len as int), ", "@) {
                    match read_value(text.skip(at_value as int)) {
                        Some((value, value_len)) => {
                            let at_next = at_value + value_len + 3;
                            if at_next <= text.len() && starts_with(
                                text.skip(at_value + value_len as int),
                                ");\n"@,
                            ) {
                                match read_insertions(
                                    read_key,
                                    read_value,
                                    text.skip(at_next as int),
                                ) {
                                    Some((more, more_len)) => Some(
                                        (seq![(key, value)] + more, at_next + more_len),
                                    ),
                                    None => None,
                                }
                            } else {
                                None
                            }
                        },
                        None => None,
                    }
                } else {
                    None
                }
            },
            None => None,
        }
    } else {
        Some((Seq::empty(), 0))
    }
}

/// The text that a mapping block opens with.
pub open spec fn mapping_opening() -> Seq<char> {
    "{\n"@ + "let mut hm = std::collections::HashMap::new();\n"@
}

/// The text that a mapping block closes with.
pub open spec fn mapping_closing() -> Seq<char> {
    "hm"@ + "\n}"@
}

/// Reads a mapping block off the front of `text` and carries out its
/// insertions, in the order in which they stand.
pub open spec fn read_mapping<MK, MV>(
    read_key: Reader<MK>,
    read_value: Reader<MV>,
    text: Seq<char>,
) -> Option<(Map<MK, MV>, nat)> {
    if starts_with(text, mapping_opening()) {
        match read_insertions(read_key, read_value, text.skip(mapping_opening().len() as int)) {
            Some((pairs, used)) => if starts_with(
                text.skip(mapping_opening().len() + used as int),
                mapping_closing(),
            ) {
                Some((replay(pairs), mapping_opening().len() + used + mapping_closing().len()))
            } else {
                None
            },
            None => None,
        }
    } else {
        None
    }
}

/// Reads the entries of a record literal off the front of `text`: for each
/// label, in order, the label, a colon, a literal that the reader of that
/// field knows, and a comma.
pub open spec fn read_fields<M>(
    labels: Seq<Seq<char>>,
    readers: Seq<Reader<M>>,
    text: Seq<char>,
) -> Option<(Seq<M>, nat)>
    decreases labels.len(),
{
    if labels.len() == 0 || readers.len() == 0 {
        Some((Seq::empty(), 0))
    } else {
        let opening = labels[0] + ": "@;
        if starts_with(text, opening) {
            match readers[0](text.skip(opening.len() as int)) {
                Some((value, used)) => {
                    let at_next = opening.len() + used + 2;
                    if at_next <= text.len() && starts_with(
                        text.skip(opening.len() + used as int),
                        ", "@,
                    ) {
                        match read_fields(
                            labels.skip(1),
                            readers.skip(1),
                            text.skip(at_next as int),
                        ) {
                            Some((more, more_len)) => Some(
                                (seq![value] + more, at_next + more_len),
                            ),
                            None => None,
                        }
                    } else {
                        None
                    }
                },
                None => None,
            }
        } else {
            None
        }
    }
}

/// Reads the literal of a record with the given name and field labels off
/// the front of `text`. Yields what the fields denote, in order.
pub open spec fn read_record<M>(
    name: Seq<char>,
    labels: Seq<Seq<char>>,
    readers: Seq<Reader<M>>,
    text: Seq<char>,
) -> Option<(Seq<M>, nat)> {
    let opening = name + " { "@;
    if starts_with(text, opening) {
        match read_fields(labels, readers, text.skip(opening.len() as int)) {
            Some((values, used)) => if starts_with(
                text.skip(opening.len() + used as int),
                " }"@,
            ) {
                Some((values, opening.len() + used + 2))
            } else {
                None
            },
            None => None,
        }
    } else {
        None
    }
}

/// The reader of records with the given name and field labels, whose
/// fields the given readers read.
pub open spec fn record_reader<M>(
    name: Seq<char>,
    labels: Seq<Seq<char>>,
    readers: Seq<Reader<M>>,
) -> Reader<Seq<M>> {
    |text: Seq<char>| read_record(name, labels, readers, text)
}

/// The entries of a record literal: the labels paired with the texts of the
/// fields.
pub open spec fn labelled(labels: Seq<Seq<char>>, texts: Seq<Seq<char>>) -> Seq<
    (Seq<char>, Seq<char>),
> {
    Seq::new(labels.len(), |i: int| (labels[i], texts[i]))
}

/// The reader of sequences whose elements `read` reads.
pub open spec fn sequence_reader<M>(read: Reader<M>) -> Reader<Seq<M>> {
    |text: Seq<char>| read_sequence(read, text)
}

/// The reader of mappings whose keys `read_key` and whose values
/// `read_value` reads.
pub open spec fn mapping_reader<MK, MV>(read_key: Reader<MK>, read_value: Reader<MV>) -> Reader<
    Map<MK, MV>,
> {
    |text: Seq<char>| read_mapping(read_key, read_value, text)
}

/// The reader of integer literals of one type.
pub open spec fn int_reader(kind: IntKind) -> Reader<int> {
    |text: Seq<char>|
        match read_int(text) {
            Some(((found, value), used)) => if found == kind {
                Some((value, used))
            } else {
                None
            },
            None => None,
        }
}

/// The reader of truth values.
pub open spec fn bool_reader() -> Reader<bool> {
    |text: Seq<char>| read_bool(text)
}

/// The reader of owned strings.
pub open spec fn string_reader() -> Reader<Seq<char>> {
    |text: Seq<char>| read_string(text)
}

/// The reader of optional values whose content `read` reads.
pub open spec fn option_reader<M>(read: Reader<M>) -> Reader<Option<M>> {
    |text: Seq<char>| read_option(read, text)
}

/// The reader of fallible results whose payloads `read` and `read_error`
/// read.
pub open spec fn result_reader<M, N>(read: Reader<M>, read_error: Reader<N>) -> Reader<
    Result<M, N>,
> {
    |text: Seq<char>| read_result(read, read_error, text)
}

} // verus!
