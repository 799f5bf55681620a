//! Generating the reification of a record type from its description.

use vstd::prelude::*;
use vstd::string::*;
use crate::composite::{text_pairs_of, texts_of};
use crate::decimal::{decimal_digits, push_decimal};
use crate::literal::{push_str_literal, str_literal};

verus! {

/// One field of a record: its name and the type it was declared with. Its
/// position is its place in the list of fields, which follows the
/// declaration.
pub struct FieldDescriptor {
    pub name: String,
    pub declared_type: String,
}

/// The shape of a type declaration.
pub enum RecordShape {
    /// A record whose fields are addressed by name.
    Named(Vec<FieldDescriptor>),
    /// A record whose fields are addressed by position only.
    Positional(Vec<FieldDescriptor>),
    /// A record without fields.
    Empty,
    /// A type with several variants, which is no record.
    Enumerated,
}

/// A type declaration as the generator sees it.
pub struct RecordDescriptor {
    pub record_name: String,
    pub shape: RecordShape,
}

/// Why no implementation was generated.
#[derive(Clone, Copy, Debug, PartialEq, Eq, Structural)]
pub enum GenerationError {
    /// The described type is not a plain record.
    UnsupportedShape,
}

/// What to tell the user about a failure to generate.
pub open spec fn generation_error_message(error: GenerationError) -> Seq<char> {
    match error {
        GenerationError::UnsupportedShape => "TextBuildable can only be derived for a plain record: a struct with named fields, with positional fields or without fields"@,
    }
}

/// Nobody is left without a reason: the message for a failure to generate
/// is never empty.
pub proof fn lemma_generation_error_message_is_not_empty(error: GenerationError)
    ensures
        generation_error_message(error).len() > 0,
{
    reveal_strlit(
        "TextBuildable can only be derived for a plain record: a struct with named fields, with positional fields or without fields",
    );
}

impl GenerationError {
    /// What to tell the user about this failure: which shapes are
    /// supported.
    pub fn message(&self) -> (text: String)
        ensures
            text@ == generation_error_message(*self),
            text@.len() > 0,
    {
        proof {
            lemma_generation_error_message_is_not_empty(*self);
        }
        match self {
            GenerationError::UnsupportedShape => String::from_str(
                "TextBuildable can only be derived for a plain record: a struct with named fields, with positional fields or without fields",
            ),
        }
    }
}

/// How the field at the given position is addressed in source text: by
/// its name in a record with named fields, by its position otherwise.
pub open spec fn field_label(named: bool, field: FieldDescriptor, position: nat) -> Seq<char> {
    if named {
        field.name@
    } else {
        decimal_digits(position)
    }
}

/// The labels of a record's fields, in declaration order.
pub open spec fn field_labels(shape: RecordShape) -> Seq<Seq<char>> {
    match shape {
        RecordShape::Named(fields) => Seq::new(
            fields@.len(),
            |i: int| field_label(true, fields@[i], i as nat),
        ),
        RecordShape::Positional(fields) => Seq::new(
            fields@.len(),
            |i: int| field_label(false, fields@[i], i as nat),
        ),
        RecordShape::Empty => Seq::empty(),
        RecordShape::Enumerated => Seq::empty(),
    }
}

/// The entries of a record literal: for each field its label, a colon, the
/// text of its value and a comma.
pub open spec fn record_entries(entries: Seq<(Seq<char>, Seq<char>)>) -> Seq<char>
    decreases entries.len(),
{
    if entries.len() == 0 {
        Seq::empty()
    } else {
        record_entries(entries.drop_last()) + entries.last().0 + ": "@ + entries.last().1 + ", "@
    }
}

/// The literal that constructs a record: the type's name and, between
/// braces, one entry per field.
pub open spec fn record_literal(
    record_name: Seq<char>,
    entries: Seq<(Seq<char>, Seq<char>)>,
) -> Seq<char> {
    record_name + " { "@ + record_entries(entries) + " }"@
}

/// The pattern that the generated code fills in: one entry per field with
/// a placeholder where the text of the field's value goes.
pub open spec fn entry_pattern(labels: Seq<Seq<char>>) -> Seq<char>
    decreases labels.len(),
{
    if labels.len() == 0 {
        Seq::empty()
    } else {
        entry_pattern(labels.drop_last()) + labels.last() + ": {}, "@
    }
}

/// The arguments that the generated code hands to the pattern: for each
/// field, in order, a call that reifies the field's value.
pub open spec fn field_calls(labels: Seq<Seq<char>>) -> Seq<char>
    decreases labels.len(),
{
    if labels.len() == 0 {
        Seq::empty()
    } else {
        field_calls(labels.drop_last()) + "self."@ + labels.last() + ".to_code_text(), "@
    }
}

/// The pattern by which the generated code puts the name of the type and
/// the entries together.
pub open spec fn record_pattern() -> Seq<char> {
    "{} {{ {} }}"@
}

/// Whether `s` holds no brace.
pub open spec fn brace_free(s: Seq<char>) -> bool {
    forall|i: int| 0 <= i < s.len() ==> #[trigger] s[i] != '{' && s[i] != '}'
}

/// What formatting makes of a pattern: a pair of braces takes the next
/// argument, a doubled brace stands for one brace and every other character
/// for itself.
pub open spec fn fill(pattern: Seq<char>, arguments: Seq<Seq<char>>) -> Seq<char>
    decreases pattern.len(),
{
    if pattern.len() == 0 {
        Seq::empty()
    } else if pattern.len() >= 2 && pattern[0] == '{' && pattern[1] == '}' {
        if arguments.len() > 0 {
            arguments[0] + fill(pattern.skip(2), arguments.skip(1))
        } else {
            fill(pattern.skip(2), arguments)
        }
    } else if pattern.len() >= 2 && pattern[0] == '{' && pattern[1] == '{' {
        seq!['{'] + fill(pattern.skip(2), arguments)
    } else if pattern.len() >= 2 && pattern[0] == '}' && pattern[1] == '}' {
        seq!['}'] + fill(pattern.skip(2), arguments)
    } else {
        seq![pattern[0]] + fill(pattern.skip(1), arguments)
    }
}

/// What the generated implementation returns for a record with the given
/// name and field labels whose fields, in order, are written as `texts`:
/// it fills the pattern of the entries with the texts, and the pattern of
/// the record with the name and those entries. The two patterns are the
/// ones whose literals stand in [`implementation_text`].
pub open spec fn generated_output(
    record_name: Seq<char>,
    labels: Seq<Seq<char>>,
    texts: Seq<Seq<char>>,
) -> Seq<char> {
    fill(record_pattern(), seq![record_name, fill(entry_pattern(labels), texts)])
}

/// The source text of the implementation generated for a record type with
/// the given name and field labels.
pub open spec fn implementation_text(record_name: Seq<char>, labels: Seq<Seq<char>>) -> Seq<char> {
    "impl TextBuildable for "@ + record_name + " {\n"@
        + "    fn to_code_text(&self) -> String {\n"@ + "        let inner = format!("@
        + str_literal(entry_pattern(labels)) + ", "@ + field_calls(labels) + ");\n"@
        + "        format!("@ + str_literal(record_pattern()) + ", "@ + str_literal(record_name)
        + ", inner)\n"@ + "    }\n"@ + "}\n"@
}

/// The literal that constructs a record of type `record_name` whose fields,
/// given as pairs of label and value text, are `entries`.
pub fn record_to_code_text(record_name: &str, entries: &Vec<(String, String)>) -> (text: String)
    ensures
        text@ == record_literal(record_name@, text_pairs_of(entries@)),
{
    let ghost all = text_pairs_of(entries@);
    let mut text = String::from_str(record_name);
    text.append(" { ");
    let mut i: usize = 0;
    while i < entries.len()
        invariant
            i <= entries.len(),
            all == text_pairs_of(entries@),
            text@ == record_name@ + " { "@ + record_entries(all.take(i as int)),
        decreases entries.len() - i,
    {
        proof {
            let next = all.take(i + 1);
            assert(next.drop_last() == all.take(i as int));
            assert(next.last() == (entries@[i as int].0@, entries@[i as int].1@));
        }
        text.append(entries[i].0.as_str());
        text.append(": ");
        text.append(entries[i].1.as_str());
        text.append(", ");
        i += 1;
    }
    assert(all.take(i as int) == all);
    text.append(" }");
    text
}

/// The label of the field at the given position.
fn label_of(named: bool, field: &FieldDescriptor, position: usize) -> (label: String)
    ensures
        label@ == field_label(named, *field, position as nat),
{
    if named {
        field.name.clone()
    } else {
        let mut label = String::new();
        push_decimal(&mut label, position as u64);
        label
    }
}

/// The labels of the given fields, in order.
fn labels_of(named: bool, fields: &Vec<FieldDescriptor>) -> (labels: Vec<String>)
    ensures
        texts_of(labels@) == Seq::new(fields@.len(), |i: int| field_label(named, fields@[i], i as nat)),
{
    let mut labels: Vec<String> = Vec::new();
    let mut i: usize = 0;
    while i < fields.len()
        invariant
            i <= fields.len(),
            labels.len() == i,
            forall|j: int| 0 <= j < i ==> (#[trigger] labels@[j])@ == field_label(
                named,
                fields@[j],
                j as nat,
            ),
        decreases fields.len() - i,
    {
        labels.push(label_of(named, &fields[i], i));
        i += 1;
    }
    assert(texts_of(labels@) == Seq::new(fields@.len(), |i: int| field_label(named, fields@[i], i as nat)));
    labels
}

/// The labels of the fields of a declaration of the given shape.
pub fn field_labels_of(shape: &RecordShape) -> (labels: Vec<String>)
    ensures
        texts_of(labels@) == field_labels(*shape),
{
    match shape {
        RecordShape::Named(fields) => labels_of(true, fields),
        RecordShape::Positional(fields) => labels_of(false, fields),
        RecordShape::Empty => {
            let labels: Vec<String> = Vec::new();
            assert(texts_of(labels@) == Seq::<Seq<char>>::empty());
            labels
        },
        RecordShape::Enumerated => {
            let labels: Vec<String> = Vec::new();
            assert(texts_of(labels@) == Seq::<Seq<char>>::empty());
            labels
        },
    }
}

/// The source text of the implementation for a record type named
/// `record_name` whose fields are addressed by `labels`.
pub fn implementation_for(record_name: &str, labels: &Vec<String>) -> (text: String)
    ensures
        text@ == implementation_text(record_name@, texts_of(labels@)),
{
    let ghost all = texts_of(labels@);
    let mut pattern = String::new();
    let mut calls = String::new();
    let mut i: usize = 0;
    while i < labels.len()
        invariant
            i <= labels.len(),
            all == texts_of(labels@),
            pattern@ == entry_pattern(all.take(i as int)),
            calls@ == field_calls(all.take(i as int)),
        decreases labels.len() - i,
    {
        proof {
            let next = all.take(i + 1);
            assert(next.drop_last() == all.take(i as int));
            assert(next.last() == labels@[i as int]@);
        }
        pattern.append(labels[i].as_str());
        pattern.append(": {}, ");
        calls.append("self.");
        calls.append(labels[i].as_str());
        calls.append(".to_code_text(), ");
        i += 1;
    }
    assert(all.take(i as int) == all);
    let mut text = String::from_str("impl TextBuildable for ");
    text.append(record_name);
    text.append(" {\n");
    text.append("    fn to_code_text(&self) -> String {\n");
    text.append("        let inner = format!(");
    push_str_literal(&mut text, pattern.as_str());
    text.append(", ");
    text.append(calls.as_str());
    text.append(");\n");
    text.append("        format!(");
    push_str_literal(&mut text, "{} {{ {} }}");
    text.append(", ");
    push_str_literal(&mut text, record_name);
    text.append(", inner)\n");
    text.append("    }\n");
    text.append("}\n");
    text
}

/// Generates the implementation of [`crate::TextBuildable`] for the
/// described type, as source text.
///
/// A plain record, with named fields, positional fields or none, gets an
/// implementation that reifies every field once, in declaration order. Any
/// other shape is rejected.
pub fn derive_text_buildable(descriptor: &RecordDescriptor) -> (result: Result<
    String,
    GenerationError,
>)
    ensures
        descriptor.shape is Enumerated ==> result == Err::<String, GenerationError>(
            GenerationError::UnsupportedShape,
        ),
        !(descriptor.shape is Enumerated) ==> result is Ok && result->Ok_0@ == implementation_text(
            descriptor.record_name@,
            field_labels(descriptor.shape),
        ),
{
    match &descriptor.shape {
        RecordShape::Enumerated => Err(GenerationError::UnsupportedShape),
        _ => {
            let labels = field_labels_of(&descriptor.shape);
            Ok(implementation_for(descriptor.record_name.as_str(), &labels))
        },
    }
}

} // verus!
