//! Embedding a JSON asset in generated code.

use vstd::prelude::*;
use vstd::string::*;
use crate::json::{json_parses, parse_json};
use crate::literal::{push_str_literal, str_literal};
use crate::text::{chars_of, push_chars};

verus! {

/// Why an asset was not embedded.
#[derive(Clone, Copy, Debug, PartialEq, Eq, Structural)]
pub enum EmbedError {
    /// The asset is not a JSON document.
    Malformed,
}

/// What to tell the user about a failure to embed an asset.
pub open spec fn embed_error_message(error: EmbedError) -> Seq<char> {
    match error {
        EmbedError::Malformed => "Failed to deserialize: the asset is not a JSON document"@,
    }
}

/// Nobody is left without a reason: the message for a failure to embed is
/// never empty.
pub proof fn lemma_embed_error_message_is_not_empty(error: EmbedError)
    ensures
        embed_error_message(error).len() > 0,
{
    reveal_strlit("Failed to deserialize: the asset is not a JSON document");
}

impl EmbedError {
    /// What to tell the user about this failure.
    pub fn message(&self) -> (text: String)
        ensures
            text@ == embed_error_message(*self),
            text@.len() > 0,
    {
        proof {
            lemma_embed_error_message_is_not_empty(*self);
        }
        match self {
            EmbedError::Malformed => String::from_str(
                "Failed to deserialize: the asset is not a JSON document",
            ),
        }
    }
}

/// `s` without the quotation marks at its start.
pub open spec fn trim_leading_quotes(s: Seq<char>) -> Seq<char>
    decreases s.len(),
{
    if s.len() > 0 && s[0] == '"' {
        trim_leading_quotes(s.skip(1))
    } else {
        s
    }
}

/// `s` without the quotation marks at its end.
pub open spec fn trim_trailing_quotes(s: Seq<char>) -> Seq<char>
    decreases s.len(),
{
    if s.len() > 0 && s.last() == '"' {
        trim_trailing_quotes(s.drop_last())
    } else {
        s
    }
}

/// `s` without the quotation marks around it.
pub open spec fn trim_quotes(s: Seq<char>) -> Seq<char> {
    trim_trailing_quotes(trim_leading_quotes(s))
}

/// The block that yields the asset `data` decoded as a value of the type
/// `target`: it holds the data as a constant and decodes it where the block
/// is evaluated.
pub open spec fn embedded_block(data: Seq<char>, target: Seq<char>) -> Seq<char> {
    "{\n"@ + "const DATA: &str = "@ + str_literal(data) + ";\n"@ + "let deserialized: "@ + target
        + " = serde_json::from_str(DATA).unwrap();\n"@ + "deserialized\n"@ + "}"@
}

/// The path that a quoted path literal names: the literal without the
/// quotation marks around it.
pub fn asset_path(literal: &str) -> (path: String)
    ensures
        path@ == trim_quotes(literal@),
{
    let chars = chars_of(literal);
    let n = chars.len();
    let mut from: usize = 0;
    assert(chars@.skip(0) == chars@);
    while from < n && chars[from] == '"'
        invariant
            from <= n,
            n == chars.len(),
            trim_leading_quotes(chars@) == trim_leading_quotes(chars@.skip(from as int)),
        decreases n - from,
    {
        assert(chars@.skip(from as int).skip(1) == chars@.skip(from + 1));
        from += 1;
    }
    let ghost rest = chars@.skip(from as int);
    assert(trim_leading_quotes(chars@) == rest);
    let mut to: usize = n;
    assert(chars@.subrange(from as int, n as int) == rest);
    while to > from && chars[to - 1] == '"'
        invariant
            from <= to <= n,
            n == chars.len(),
            trim_trailing_quotes(rest) == trim_trailing_quotes(
                chars@.subrange(from as int, to as int),
            ),
        decreases to,
    {
        assert(chars@.subrange(from as int, to as int).drop_last() == chars@.subrange(
            from as int,
            to - 1,
        ));
        to -= 1;
    }
    let mut path = String::new();
    push_chars(&mut path, &chars, from, to);
    path
}

/// The block that yields the asset `data` decoded as a value of the type
/// `target`.
pub fn embed_block(data: &str, target: &str) -> (text: String)
    ensures
        text@ == embedded_block(data@, target@),
{
    let mut text = String::from_str("{\n");
    text.append("const DATA: &str = ");
    push_str_literal(&mut text, data);
    text.append(";\n");
    text.append("let deserialized: ");
    text.append(target);
    text.append(" = serde_json::from_str(DATA).unwrap();\n");
    text.append("deserialized\n");
    text.append("}");
    text
}

/// Generates the block that embeds the JSON asset `text` and decodes it as
/// a value of the type `target`.
///
/// The block holds the text of the asset as it is. An asset that is not a
/// JSON document is refused, so that the decoding in the block does not
/// fail for want of JSON.
pub fn include_json(text: &str, target: &str) -> (result: Result<String, EmbedError>)
    ensures
        json_parses(text@) ==> result is Ok && result->Ok_0@ == embedded_block(text@, target@),
        !json_parses(text@) ==> result == Err::<String, EmbedError>(EmbedError::Malformed),
{
    match parse_json(text) {
        Err(_) => Err(EmbedError::Malformed),
        Ok(_) => Ok(embed_block(text, target)),
    }
}

} // verus!
