//! Literal text for single primitive values.

use vstd::prelude::*;
use vstd::string::*;
use crate::decimal::{push_decimal, push_signed_decimal, signed_decimal};
use crate::text::push_char;

verus! {

/// The fixed-width integer types that have a literal form.
#[derive(Clone, Copy, Debug, PartialEq, Eq, Structural)]
pub enum IntKind {
    I8,
    I16,
    I32,
    I64,
    U8,
    U16,
    U32,
    U64,
}

/// The suffix that marks a literal as being of the given integer type.
pub open spec fn int_suffix(kind: IntKind) -> Seq<char> {
    match kind {
        IntKind::I8 => "_i8"@,
        IntKind::I16 => "_i16"@,
        IntKind::I32 => "_i32"@,
        IntKind::I64 => "_i64"@,
        IntKind::U8 => "_u8"@,
        IntKind::U16 => "_u16"@,
        IntKind::U32 => "_u32"@,
        IntKind::U64 => "_u64"@,
    }
}

/// The literal of the integer `v` as a value of type `kind`: its decimal
/// notation followed by the type's suffix.
pub open spec fn int_literal(v: int, kind: IntKind) -> Seq<char> {
    signed_decimal(v) + int_suffix(kind)
}

/// The literal of a truth value.
pub open spec fn bool_literal(b: bool) -> Seq<char> {
    if b {
        "true"@
    } else {
        "false"@
    }
}

/// How one character stands inside a quoted literal: a backslash, a
/// quotation mark, a line feed, a carriage return, a tab and the null
/// character are written as a backslash and a mark, every other character
/// as itself.
pub open spec fn escape_char(c: char) -> Seq<char> {
    if c == '\\' {
        seq!['\\', '\\']
    } else if c == '"' {
        seq!['\\', '"']
    } else if c == '\n' {
        seq!['\\', 'n']
    } else if c == '\r' {
        seq!['\\', 'r']
    } else if c == '\t' {
        seq!['\\', 't']
    } else if c == '\0' {
        seq!['\\', '0']
    } else {
        seq![c]
    }
}

/// The characters of `s` as they stand inside a quoted literal.
pub open spec fn escape(s: Seq<char>) -> Seq<char>
    decreases s.len(),
{
    if s.len() == 0 {
        Seq::empty()
    } else {
        escape(s.drop_last()) + escape_char(s.last())
    }
}

/// The literal of a borrowed piece of text: its characters, escaped,
/// between quotation marks.
pub open spec fn str_literal(s: Seq<char>) -> Seq<char> {
    seq!['"'] + escape(s) + seq!['"']
}

/// The literal of an owned string: the quoted text followed by the call
/// that turns it into an owned value.
pub open spec fn string_literal(s: Seq<char>) -> Seq<char> {
    str_literal(s) + ".to_string()"@
}

/// The suffix of `kind` as text.
pub fn int_suffix_text(kind: IntKind) -> (suffix: &'static str)
    ensures
        suffix@ == int_suffix(kind),
{
    match kind {
        IntKind::I8 => "_i8",
        IntKind::I16 => "_i16",
        IntKind::I32 => "_i32",
        IntKind::I64 => "_i64",
        IntKind::U8 => "_u8",
        IntKind::U16 => "_u16",
        IntKind::U32 => "_u32",
        IntKind::U64 => "_u64",
    }
}

/// The literal of the signed integer `v`, marked as being of type `kind`.
pub fn signed_literal(v: i64, kind: IntKind) -> (text: String)
    ensures
        text@ == int_literal(v as int, kind),
{
    let mut text = String::new();
    push_signed_decimal(&mut text, v);
    text.append(int_suffix_text(kind));
    text
}

/// The literal of the unsigned integer `n`, marked as being of type `kind`.
pub fn unsigned_literal(n: u64, kind: IntKind) -> (text: String)
    ensures
        text@ == int_literal(n as int, kind),
{
    let mut text = String::new();
    push_decimal(&mut text, n);
    text.append(int_suffix_text(kind));
    text
}

/// The literal of the truth value `b`.
pub fn bool_literal_text(b: bool) -> (text: String)
    ensures
        text@ == bool_literal(b),
{
    if b {
        String::from_str("true")
    } else {
        String::from_str("false")
    }
}

/// Appends one character of a quoted literal to `out`, escaped.
pub fn push_escaped_char(out: &mut String, c: char)
    ensures
        final(out)@ == old(out)@ + escape_char(c),
{
    if c == '\\' {
        push_char(out, '\\');
        push_char(out, '\\');
    } else if c == '"' {
        push_char(out, '\\');
        push_char(out, '"');
    } else if c == '\n' {
        push_char(out, '\\');
        push_char(out, 'n');
    } else if c == '\r' {
        push_char(out, '\\');
        push_char(out, 'r');
    } else if c == '\t' {
        push_char(out, '\\');
        push_char(out, 't');
    } else if c == '\0' {
        push_char(out, '\\');
        push_char(out, '0');
    } else {
        push_char(out, c);
    }
}

/// Appends the literal of the borrowed text `s` to `out`.
pub fn push_str_literal(out: &mut String, s: &str)
    ensures
        final(out)@ == old(out)@ + str_literal(s@),
{
    let ghost start = out@;
    push_char(out, '"');
    for c in iter: s.chars()
        invariant
            iter.seq() == s@,
            out@ == start + seq!['"'] + escape(s@.take(iter.index())),
    {
        proof {
            let before = s@.take(iter.index());
            let after = s@.take(iter.index() + 1);
            assert(after.drop_last() == before);
            assert(after.last() == c);
        }
        push_escaped_char(out, c);
    }
    assert(s@.take(s@.len() as int) == s@);
    push_char(out, '"');
}

/// The literal of the borrowed text `s`.
pub fn str_literal_text(s: &str) -> (text: String)
    ensures
        text@ == str_literal(s@),
{
    let mut text = String::new();
    push_str_literal(&mut text, s);
    text
}

/// The literal of the owned string `s`.
pub fn string_literal_text(s: &str) -> (text: String)
    ensures
        text@ == string_literal(s@),
{
    let mut text = String::new();
    push_str_literal(&mut text, s);
    text.append(".to_string()");
    text
}

} // verus!
