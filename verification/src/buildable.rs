//! The capability of a value to write itself out as literal text.

use vstd::prelude::*;
use crate::literal::{
    bool_literal, bool_literal_text, int_literal, signed_literal, string_literal,
    string_literal_text, unsigned_literal, IntKind,
};

verus! {

/// A value that can be written as a literal expression of its own type.
///
/// What the expression looks like is the type's own business and is laid
/// down in [`TextBuildable::reifies_as`]. It is a relation rather than a
/// function because a value may have more than one text: the entries of a
/// mapping are written in whatever order the mapping hands them out.
pub trait TextBuildable {
    /// Whether `text` is a literal expression that this value may be
    /// written as. A type that does not say so admits every text, and then
    /// nothing is known of what [`TextBuildable::to_code_text`] returns.
    open spec fn reifies_as(&self, text: Seq<char>) -> bool {
        true
    }

    /// Writes this value out as a literal expression.
    fn to_code_text(&self) -> (text: String)
        ensures
            self.reifies_as(text@),
    ;
}

impl TextBuildable for String {
    open spec fn reifies_as(&self, text: Seq<char>) -> bool {
        text == string_literal(self@)
    }

    fn to_code_text(&self) -> (text: String) {
        string_literal_text(self.as_str())
    }
}

impl TextBuildable for i64 {
    open spec fn reifies_as(&self, text: Seq<char>) -> bool {
        text == int_literal(*self as int, IntKind::I64)
    }

    fn to_code_text(&self) -> (text: String) {
        signed_literal(*self, IntKind::I64)
    }
}

impl TextBuildable for i32 {
    open spec fn reifies_as(&self, text: Seq<char>) -> bool {
        text == int_literal(*self as int, IntKind::I32)
    }

    fn to_code_text(&self) -> (text: String) {
        signed_literal(*self as i64, IntKind::I32)
    }
}

impl TextBuildable for i16 {
    open spec fn reifies_as(&self, text: Seq<char>) -> bool {
        text == int_literal(*self as int, IntKind::I16)
    }

    fn to_code_text(&self) -> (text: String) {
        signed_literal(*self as i64, IntKind::I16)
    }
}

impl TextBuildable for i8 {
    open spec fn reifies_as(&self, text: Seq<char>) -> bool {
        text == int_literal(*self as int, IntKind::I8)
    }

    fn to_code_text(&self) -> (text: String) {
        signed_literal(*self as i64, IntKind::I8)
    }
}

impl TextBuildable for u64 {
    open spec fn reifies_as(&self, text: Seq<char>) -> bool {
        text == int_literal(*self as int, IntKind::U64)
    }

    fn to_code_text(&self) -> (text: String) {
        unsigned_literal(*self, IntKind::U64)
    }
}

impl TextBuildable for u32 {
    open spec fn reifies_as(&self, text: Seq<char>) -> bool {
        text == int_literal(*self as int, IntKind::U32)
    }

    fn to_code_text(&self) -> (text: String) {
        unsigned_literal(*self as u64, IntKind::U32)
    }
}

impl TextBuildable for u16 {
    open spec fn reifies_as(&self, text: Seq<char>) -> bool {
        text == int_literal(*self as int, IntKind::U16)
    }

    fn to_code_text(&self) -> (text: String) {
        unsigned_literal(*self as u64, IntKind::U16)
    }
}

impl TextBuildable for u8 {
    open spec fn reifies_as(&self, text: Seq<char>) -> bool {
        text == int_literal(*self as int, IntKind::U8)
    }

    fn to_code_text(&self) -> (text: String) {
        unsigned_literal(*self as u64, IntKind::U8)
    }
}

impl TextBuildable for bool {
    open spec fn reifies_as(&self, text: Seq<char>) -> bool {
        text == bool_literal(*self)
    }

    fn to_code_text(&self) -> (text: String) {
        bool_literal_text(*self)
    }
}

} // verus!
