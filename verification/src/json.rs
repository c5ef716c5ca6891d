//! Reading JSON documents.

use crate::text::{view_of, views};
use serde_json::Value;
use vstd::prelude::*;

verus! {

/// What a JSON value is, as far as it is read here.
pub enum JsonTree {
    /// A string.
    Text(Seq<char>),
    /// An array.
    List(Seq<JsonTree>),
    /// An object.
    Object(Map<Seq<char>, JsonTree>),
    /// A number, as `serde_json` writes it.
    Number(Seq<char>),
    /// A boolean.
    Bool(bool),
    /// `null`.
    Null,
}

impl JsonTree {
    /// The value under `key`; `null` where there is none.
    pub open spec fn member(self, key: Seq<char>) -> JsonTree {
        match self {
            JsonTree::Object(members) if members.contains_key(key) => members[key],
            _ => JsonTree::Null,
        }
    }

    /// The characters of a string; nothing for any other value.
    pub open spec fn text(self) -> Option<Seq<char>> {
        match self {
            JsonTree::Text(s) => Some(s),
            _ => None,
        }
    }
}

/// A parsed JSON value of `serde_json`.
#[verifier::external_type_specification]
#[verifier::external_body]
pub struct ExValue(Value);

/// The parse error of `serde_json`.
#[verifier::external_type_specification]
#[verifier::external_body]
pub struct ExError(serde_json::Error);

/// What a `serde_json::Value` holds.
pub uninterp spec fn json_tree(value: Value) -> JsonTree;

/// The document that `serde_json` reads out of a text; nothing if it rejects the text.
pub uninterp spec fn json_document(text: Seq<char>) -> Option<JsonTree>;

/// `serde_json::from_str`, reading a `Value`. What it makes of a text has the name
/// `json_document`, and depends on the text alone.
#[verifier::external_body]
pub(crate) fn parse(text: &str) -> (r: Result<Value, serde_json::Error>)
    ensures
        match r {
            Ok(value) => json_document(text@) == Some(json_tree(value)),
            Err(_) => json_document(text@) is None,
        },
{
    serde_json::from_str(text)
}

/// `Value`'s indexing by a string: the member of that name, and `null` where the value is no
/// object or has no such member.
#[verifier::external_body]
pub(crate) fn member<'a>(value: &'a Value, key: &str) -> (r: &'a Value)
    ensures
        json_tree(*r) == json_tree(*value).member(key@),
{
    &value[key]
}

/// `Value::as_str`: the characters of a string, `None` for any other value.
pub assume_specification[ Value::as_str ](value: &Value) -> (r: Option<&str>)
    ensures
        match r {
            Some(s) => json_tree(*value).text() == Some(s@),
            None => json_tree(*value).text() is None,
        },
;

/// `Value::as_array`: the items of an array in order, `None` for any other value.
pub assume_specification[ Value::as_array ](value: &Value) -> (r: Option<&Vec<Value>>)
    ensures
        match r {
            Some(items) => json_tree(*value) == JsonTree::List(
                items@.map_values(|item: Value| json_tree(item)),
            ),
            None => !(json_tree(*value) is List),
        },
;

/// `Value`'s `clone`: the copy holds the same as the value.
pub assume_specification[ <Value as Clone>::clone ](value: &Value) -> (r: Value)
    ensures
        json_tree(r) == json_tree(*value),
;

/// Why a list of texts could not be read out of a document.
#[derive(Debug, Clone, Copy, PartialEq, Eq, Structural)]
pub enum ListError {
    /// The text is no JSON document.
    NotJson,
    /// The document has no array under the wanted name.
    NoList,
    /// An item of the array is no string.
    NotText,
}

/// The strings of the array that `tree` has under `key`.
pub open spec fn text_list(tree: JsonTree, key: Seq<char>) -> Result<Seq<Seq<char>>, ListError> {
    match tree.member(key) {
        JsonTree::List(items) => if forall|i: int|
            0 <= i < items.len() ==> (#[trigger] items[i]) is Text {
            Ok(items.map_values(|item: JsonTree| item->Text_0))
        } else {
            Err(ListError::NotText)
        },
        _ => Err(ListError::NoList),
    }
}

/// The strings of the array that the document in `text` has under `key`.
pub open spec fn document_text_list(document: Option<JsonTree>, key: Seq<char>) -> Result<
    Seq<Seq<char>>,
    ListError,
> {
    match document {
        Some(tree) => text_list(tree, key),
        None => Err(ListError::NotJson),
    }
}

/// The string that a document has under `key`.
pub open spec fn document_text(document: Option<JsonTree>, key: Seq<char>) -> Option<Seq<char>> {
    match document {
        Some(tree) => tree.member(key).text(),
        None => None,
    }
}

/// The items of the array that a document has under `key`.
pub open spec fn document_list(document: Option<JsonTree>, key: Seq<char>) -> Option<
    Seq<JsonTree>,
> {
    match document {
        Some(tree) => match tree.member(key) {
            JsonTree::List(items) => Some(items),
            _ => None,
        },
        None => None,
    }
}

/// What some values hold.
pub open spec fn json_trees(values: Seq<Value>) -> Seq<JsonTree> {
    values.map_values(|value: Value| json_tree(value))
}

/// Reads the items of the array that the document in `text` has under `key`.
pub fn read_list(text: &str, key: &str) -> (r: Option<Vec<Value>>)
    ensures
        match r {
            Some(items) => document_list(json_document(text@), key@) == Some(json_trees(items@)),
            None => document_list(json_document(text@), key@) is None,
        },
{
    let value = match parse(text) {
        Ok(value) => value,
        Err(_) => {
            return None;
        },
    };
    let list = member(&value, key);
    match list.as_array() {
        Some(items) => {
            let r = items.clone();
            assert forall|i: int| 0 <= i < items@.len() implies json_tree(#[trigger] r@[i])
                == json_tree(items@[i]) by {
                assert(cloned::<Value>(items@[i], r@[i]));
            }
            assert(json_trees(r@) =~= items@.map_values(|item: Value| json_tree(item)));
            Some(r)
        },
        None => None,
    }
}

/// Reads the string that the document in `text` has under `key`.
pub fn read_text(text: &str, key: &str) -> (r: Option<String>)
    ensures
        view_of(r) == document_text(json_document(text@), key@),
{
    match parse(text) {
        Ok(value) => match member(&value, key).as_str() {
            Some(s) => Some(s.to_owned()),
            None => None,
        },
        Err(_) => None,
    }
}

/// Reads the strings of the array that the document in `text` has under `key`.
pub fn read_text_list(text: &str, key: &str) -> (r: Result<Vec<String>, ListError>)
    ensures
        match r {
            Ok(items) => document_text_list(json_document(text@), key@) == Ok::<_, ListError>(
                views(items@),
            ),
            Err(e) => document_text_list(json_document(text@), key@) == Err::<
                Seq<Seq<char>>,
                ListError,
            >(e),
        },
{
    let value = match parse(text) {
        Ok(value) => value,
        Err(_) => {
            return Err(ListError::NotJson);
        },
    };
    let list = member(&value, key);
    let items = match list.as_array() {
        Some(items) => items,
        None => {
            return Err(ListError::NoList);
        },
    };
    let ghost trees = items@.map_values(|item: Value| json_tree(item));
    assert(json_tree(*list) == JsonTree::List(trees));
    let mut r: Vec<String> = Vec::new();
    let mut i: usize = 0;
    while i < items.len()
        invariant
            i <= items@.len(),
            trees == items@.map_values(|item: Value| json_tree(item)),
            json_tree(value).member(key@) == JsonTree::List(trees),
            json_document(text@) == Some(json_tree(value)),
            r@.len() == i,
            forall|j: int| 0 <= j < i ==> (#[trigger] trees[j]) == JsonTree::Text(r@[j]@),
        decreases items@.len() - i,
    {
        assert(trees[i as int] == json_tree(items@[i as int]));
        match items[i].as_str() {
            Some(s) => {
                r.push(s.to_owned());
            },
            None => {
                assert(!(trees[i as int] is Text));
                return Err(ListError::NotText);
            },
        }
        i += 1;
    }
    assert(views(r@) =~= trees.map_values(|item: JsonTree| item->Text_0));
    Ok(r)
}

/// What is read of an object is the value under the name that was asked for.
pub proof fn law_members(members: Map<Seq<char>, JsonTree>, key: Seq<char>)
    ensures
        members.contains_key(key) ==> JsonTree::Object(members).member(key) == members[key],
        !members.contains_key(key) ==> JsonTree::Object(members).member(key) is Null,
        members.contains_key(key) ==> document_text(Some(JsonTree::Object(members)), key) == (
        match members[key] {
            JsonTree::Text(text) => Some(text),
            _ => None,
        }),
        document_text(None, key) is None,
{
}

/// A list of strings is read string by string, in order and with none left out. Anything else
/// is an error that says what is wrong.
pub proof fn law_text_lists(
    members: Map<Seq<char>, JsonTree>,
    key: Seq<char>,
    items: Seq<JsonTree>,
    texts: Seq<Seq<char>>,
)
    requires
        members.contains_key(key),
        members[key] == JsonTree::List(items),
    ensures
        ({
            let document = Some(JsonTree::Object(members));
            let read = document_text_list(document, key);
            &&& document_list(document, key) == Some(items)
            &&& read == Ok::<Seq<Seq<char>>, ListError>(texts) <==> (texts.len() == items.len()
                && forall|i: int|
                0 <= i < items.len() ==> (#[trigger] items[i]) == JsonTree::Text(texts[i]))
            &&& read == Err::<Seq<Seq<char>>, ListError>(ListError::NotText) <==> exists|i: int|
                0 <= i < items.len() && !((#[trigger] items[i]) is Text)
        }),
{
    let read = document_text_list(Some(JsonTree::Object(members)), key);
    if forall|i: int| 0 <= i < items.len() ==> (#[trigger] items[i]) is Text {
        let all = items.map_values(|item: JsonTree| item->Text_0);
        assert(read == Ok::<Seq<Seq<char>>, ListError>(all));
        if texts.len() == items.len() && forall|i: int|
            0 <= i < items.len() ==> (#[trigger] items[i]) == JsonTree::Text(texts[i]) {
            assert forall|i: int| 0 <= i < items.len() implies all[i] == texts[i] by {
                assert(items[i] == JsonTree::Text(texts[i]));
            }
            assert(all =~= texts);
        }
        if all == texts {
            assert forall|i: int| 0 <= i < items.len() implies (#[trigger] items[i])
                == JsonTree::Text(texts[i]) by {
                assert(all[i] == items[i]->Text_0);
            }
        }
    } else {
        let i = choose|i: int| 0 <= i < items.len() && !((#[trigger] items[i]) is Text);
        assert(items[i] != JsonTree::Text(texts[i]));
    }
}

/// A document without such a list, and a text that is no document, are told apart.
pub proof fn law_missing_lists(document: Option<JsonTree>, key: Seq<char>)
    ensures
        document is None ==> document_list(document, key) is None && document_text_list(
            document,
            key,
        ) == Err::<Seq<Seq<char>>, ListError>(ListError::NotJson),
        (document matches Some(tree) && !(tree matches JsonTree::Object(members)
            && members.contains_key(key) && members[key] is List)) ==> document_list(
            document,
            key,
        ) is None && document_text_list(document, key) == Err::<Seq<Seq<char>>, ListError>(
            ListError::NoList,
        ),
{
}

} // verus!
