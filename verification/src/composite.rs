//! Literal text for containers, built from the text of what they hold.

use std::collections::hash_map::Iter;
use std::collections::HashMap;
use vstd::prelude::*;
use vstd::std_specs::hash::obeys_key_model;
use vstd::std_specs::iter::IteratorSpec;
use vstd::string::*;
use crate::buildable::TextBuildable;

verus! {

/// The literal of an optional value, given the text of the value it holds.
pub open spec fn option_literal(inner: Option<Seq<char>>) -> Seq<char> {
    match inner {
        Some(text) => "Some("@ + text + ")"@,
        None => "None"@,
    }
}

/// The literal of a fallible result, given the text of its payload.
pub open spec fn result_literal(inner: Result<Seq<char>, Seq<char>>) -> Seq<char> {
    match inner {
        Ok(text) => "Ok("@ + text + ")"@,
        Err(text) => "Err("@ + text + ")"@,
    }
}

/// The elements of a sequence literal: each item's text in order, each
/// followed by a comma and a line break.
pub open spec fn sequence_items(items: Seq<Seq<char>>) -> Seq<char>
    decreases items.len(),
{
    if items.len() == 0 {
        Seq::empty()
    } else {
        sequence_items(items.drop_last()) + items.last() + ",\n"@
    }
}

/// The literal of a sequence, given the text of each element.
pub open spec fn sequence_literal(items: Seq<Seq<char>>) -> Seq<char> {
    "vec![\n"@ + sequence_items(items) + "]"@
}

/// The statement that inserts one entry into the mapping under
/// construction.
pub open spec fn insertion(key: Seq<char>, value: Seq<char>) -> Seq<char> {
    "hm.insert("@ + key + ", "@ + value + ");\n"@
}

/// One insertion statement per entry, in the order given.
pub open spec fn insertions(entries: Seq<(Seq<char>, Seq<char>)>) -> Seq<char>
    decreases entries.len(),
{
    if entries.len() == 0 {
        Seq::empty()
    } else {
        insertions(entries.drop_last()) + insertion(entries.last().0, entries.last().1)
    }
}

/// The block that builds a mapping: it declares an empty mapping, inserts
/// the entries one by one and yields the mapping.
pub open spec fn mapping_literal(entries: Seq<(Seq<char>, Seq<char>)>) -> Seq<char> {
    "{\n"@ + "let mut hm = std::collections::HashMap::new();\n"@ + insertions(entries) + "hm"@
        + "\n}"@
}

/// The texts that a vector of strings holds.
pub open spec fn texts_of(items: Seq<String>) -> Seq<Seq<char>> {
    Seq::new(items.len(), |i: int| items[i]@)
}

/// The pairs of texts that a vector of pairs of strings holds.
pub open spec fn text_pairs_of(entries: Seq<(String, String)>) -> Seq<(Seq<char>, Seq<char>)> {
    Seq::new(entries.len(), |i: int| (entries[i].0@, entries[i].1@))
}

/// Whether `entries` lists every entry of `map` exactly once.
pub open spec fn lists_entries<K, V>(map: Map<K, V>, entries: Seq<(K, V)>) -> bool {
    entries.no_duplicates() && entries.to_set() == map.kv_pairs()
}

/// Takes the next entry from an iterator over a hash map.
///
/// Calls `Iterator::next`, which hands out the first of the entries that
/// the iterator has yet to return and keeps the rest; once none is left it
/// returns `None`.
#[verifier::external_body]
fn next_entry<'a, K, V>(iter: &mut Iter<'a, K, V>) -> (entry: Option<(&'a K, &'a V)>)
    ensures
        (*old(iter)).remaining().len() > 0 ==> {
            &&& entry == Some((*old(iter)).remaining()[0])
            &&& (*final(iter)).remaining() == (*old(iter)).remaining().drop_first()
        },
        (*old(iter)).remaining().len() == 0 ==> {
            &&& entry is None
            &&& (*final(iter)).remaining() == (*old(iter)).remaining()
        },
{
    iter.next()
}

/// The literal of an optional value whose content, if any, is written as
/// `inner`.
pub fn option_to_code_text(inner: Option<&str>) -> (text: String)
    ensures
        text@ == option_literal(
            match inner {
                Some(s) => Some(s@),
                None => None,
            },
        ),
{
    match inner {
        Some(s) => {
            let mut text = String::from_str("Some(");
            text.append(s);
            text.append(")");
            text
        },
        None => String::from_str("None"),
    }
}

/// The literal of a fallible result whose payload is written as `inner`.
pub fn result_to_code_text(inner: Result<&str, &str>) -> (text: String)
    ensures
        text@ == result_literal(
            match inner {
                Ok(s) => Ok(s@),
                Err(s) => Err(s@),
            },
        ),
{
    match inner {
        Ok(s) => {
            let mut text = String::from_str("Ok(");
            text.append(s);
            text.append(")");
            text
        },
        Err(s) => {
            let mut text = String::from_str("Err(");
            text.append(s);
            text.append(")");
            text
        },
    }
}

/// The literal of a sequence whose elements are written as `items`.
pub fn sequence_to_code_text(items: &Vec<String>) -> (text: String)
    ensures
        text@ == sequence_literal(texts_of(items@)),
{
    let ghost all = texts_of(items@);
    let mut text = String::from_str("vec![\n");
    let mut i: usize = 0;
    while i < items.len()
        invariant
            i <= items.len(),
            all == texts_of(items@),
            text@ == "vec![\n"@ + sequence_items(all.take(i as int)),
        decreases items.len() - i,
    {
        proof {
            let next = all.take(i + 1);
            assert(next.drop_last() == all.take(i as int));
            assert(next.last() == items@[i as int]@);
        }
        text.append(items[i].as_str());
        text.append(",\n");
        i += 1;
    }
    assert(all.take(i as int) == all);
    text.append("]");
    text
}

/// The block that builds a mapping whose keys and values are written as
/// `entries`, in that order.
pub fn mapping_to_code_text(entries: &Vec<(String, String)>) -> (text: String)
    ensures
        text@ == mapping_literal(text_pairs_of(entries@)),
{
    let ghost all = text_pairs_of(entries@);
    let mut text = String::from_str("{\n");
    text.append("let mut hm = std::collections::HashMap::new();\n");
    let mut i: usize = 0;
    while i < entries.len()
        invariant
            i <= entries.len(),
            all == text_pairs_of(entries@),
            text@ == "{\n"@ + "let mut hm = std::collections::HashMap::new();\n"@ + insertions(
                all.take(i as int),
            ),
        decreases entries.len() - i,
    {
        proof {
            let next = all.take(i + 1);
            assert(next.drop_last() == all.take(i as int));
            assert(next.last() == (entries@[i as int].0@, entries@[i as int].1@));
        }
        text.append("hm.insert(");
        text.append(entries[i].0.as_str());
        text.append(", ");
        text.append(entries[i].1.as_str());
        text.append(");\n");
        i += 1;
    }
    assert(all.take(i as int) == all);
    text.append("hm");
    text.append("\n}");
    text
}

impl<T: TextBuildable> TextBuildable for Option<T> {
    open spec fn reifies_as(&self, text: Seq<char>) -> bool {
        match self {
            Some(value) => exists|inner: Seq<char>| #[trigger]
                value.reifies_as(inner) && text == option_literal(Some(inner)),
            None => text == option_literal(None),
        }
    }

    fn to_code_text(&self) -> (text: String) {
        match self {
            Some(value) => {
                let inner = value.to_code_text();
                option_to_code_text(Some(inner.as_str()))
            },
            None => option_to_code_text(None),
        }
    }
}

impl<T: TextBuildable, E: TextBuildable> TextBuildable for Result<T, E> {
    open spec fn reifies_as(&self, text: Seq<char>) -> bool {
        match self {
            Ok(value) => exists|inner: Seq<char>| #[trigger]
                value.reifies_as(inner) && text == result_literal(Ok(inner)),
            Err(error) => exists|inner: Seq<char>| #[trigger]
                error.reifies_as(inner) && text == result_literal(Err(inner)),
        }
    }

    fn to_code_text(&self) -> (text: String) {
        match self {
            Ok(value) => {
                let inner = value.to_code_text();
                result_to_code_text(Ok(inner.as_str()))
            },
            Err(error) => {
                let inner = error.to_code_text();
                result_to_code_text(Err(inner.as_str()))
            },
        }
    }
}

impl<T: TextBuildable> TextBuildable for Vec<T> {
    open spec fn reifies_as(&self, text: Seq<char>) -> bool {
        exists|items: Seq<Seq<char>>|
            {
                &&& items.len() == self@.len()
                &&& forall|i: int|
                    0 <= i < items.len() ==> #[trigger] self@[i].reifies_as(items[i])
                &&& text == sequence_literal(items)
            }
    }

    fn to_code_text(&self) -> (text: String) {
        let mut items: Vec<String> = Vec::new();
        let mut i: usize = 0;
        while i < self.len()
            invariant
                i <= self.len(),
                items.len() == i,
                forall|j: int| 0 <= j < i ==> #[trigger] self@[j].reifies_as(items@[j]@),
            decreases self.len() - i,
        {
            let item = self[i].to_code_text();
            items.push(item);
            i += 1;
        }
        let text = sequence_to_code_text(&items);
        proof {
            let witness = texts_of(items@);
            assert(witness.len() == self@.len());
            assert forall|j: int| 0 <= j < witness.len() implies #[trigger] self@[j].reifies_as(
                witness[j],
            ) by {
                assert(self@[j].reifies_as(items@[j]@));
            }
        }
        text
    }
}

impl<K: TextBuildable, V: TextBuildable> TextBuildable for HashMap<K, V> {
    open spec fn reifies_as(&self, text: Seq<char>) -> bool {
        exists|entries: Seq<(K, V)>, texts: Seq<(Seq<char>, Seq<char>)>|
            {
                &&& obeys_key_model::<K>() ==> lists_entries(self@, entries)
                &&& texts.len() == entries.len()
                &&& forall|i: int|
                    0 <= i < entries.len() ==> (#[trigger] entries[i]).0.reifies_as(texts[i].0)
                        && entries[i].1.reifies_as(texts[i].1)
                &&& text == mapping_literal(texts)
            }
    }

    fn to_code_text(&self) -> (text: String) {
        let mut texts: Vec<(String, String)> = Vec::new();
        let count = self.len();
        let mut walk = self.iter();
        let ghost all = walk.remaining().unref();
        let ghost mut entries: Seq<(K, V)> = Seq::empty();
        // The walk ends when the iterator is exhausted. Counting against the
        // size of the mapping bounds it for every type of key, also one
        // whose hashing is not known to be well behaved.
        while texts.len() < count
            invariant
                texts.len() == entries.len(),
                all == entries + walk.remaining().unref(),
                forall|j: int|
                    0 <= j < entries.len() ==> (#[trigger] entries[j]).0.reifies_as(texts@[j].0@)
                        && entries[j].1.reifies_as(texts@[j].1@),
            ensures
                texts.len() == entries.len(),
                all == entries + walk.remaining().unref(),
                forall|j: int|
                    0 <= j < entries.len() ==> (#[trigger] entries[j]).0.reifies_as(texts@[j].0@)
                        && entries[j].1.reifies_as(texts@[j].1@),
                texts.len() >= count || walk.remaining().len() == 0,
            decreases count - texts.len(),
        {
            let ghost before = walk.remaining();
            match next_entry(&mut walk) {
                Some((key, value)) => {
                    let key_text = key.to_code_text();
                    let value_text = value.to_code_text();
                    texts.push((key_text, value_text));
                    proof {
                        entries = entries.push((*key, *value));
                        assert(before.unref() == seq![(*key, *value)]
                            + walk.remaining().unref());
                    }
                },
                None => {
                    break ;
                },
            }
        }
        let text = mapping_to_code_text(&texts);
        proof {
            let witness = text_pairs_of(texts@);
            assert forall|j: int| 0 <= j < entries.len() implies (#[trigger] entries[j]).0.reifies_as(
                witness[j].0,
            ) && entries[j].1.reifies_as(witness[j].1) by {
                assert(entries[j].0.reifies_as(texts@[j].0@));
            }
            if obeys_key_model::<K>() {
                broadcast use vstd::std_specs::hash::group_hash_axioms;
                assert(all.len() == count);
                assert(entries == all);
                assert(lists_entries(self@, entries));
            }
        }
        text
    }
}

} // verus!
