//! Documents in JSON, TOML and YAML, read as one kind of tree.

use vstd::prelude::*;
use crate::text::opt_text;

verus! {

/// `serde_json::Value`, held as a value that only its own functions look into.
#[verifier::external_type_specification]
#[verifier::external_body]
pub struct ExJsonValue(serde_json::Value);

/// A document as a tree.
pub enum Json {
    Null,
    Bool(bool),
    Number,
    Text(Seq<char>),
    List(Seq<Json>),
    Object(Map<Seq<char>, Json>),
}

/// The tree that a `serde_json::Value` is.
pub uninterp spec fn json_of(v: serde_json::Value) -> Json;

/// The tree that `serde_json` reads from a JSON text; `None` where it
/// refuses the text.
pub uninterp spec fn json_text(text: Seq<char>) -> Option<Json>;

/// The tree that `toml` reads from a TOML text; `None` where it refuses the
/// text.
pub uninterp spec fn toml_text(text: Seq<char>) -> Option<Json>;

/// The tree that `serde_yaml_ng` reads from a YAML text; `None` where it
/// refuses the text.
pub uninterp spec fn yaml_text(text: Seq<char>) -> Option<Json>;

/// The trees of a list of values, in order.
pub open spec fn jsons_of(v: Seq<serde_json::Value>) -> Seq<Json> {
    Seq::new(v.len(), |i: int| json_of(v[i]))
}

/// The tree of an optional value.
pub open spec fn opt_json(o: Option<serde_json::Value>) -> Option<Json> {
    match o {
        Some(v) => Some(json_of(v)),
        None => None,
    }
}

/// What stands under `key` in an object; nothing in any other tree.
pub open spec fn member(j: Json, key: Seq<char>) -> Option<Json> {
    match j {
        Json::Object(m) => if m.contains_key(key) {
            Some(m[key])
        } else {
            None
        },
        _ => None,
    }
}

/// The text of a tree that is a text.
pub open spec fn as_text(j: Json) -> Option<Seq<char>> {
    match j {
        Json::Text(s) => Some(s),
        _ => None,
    }
}

/// The items of a tree that is a list.
pub open spec fn as_list(j: Json) -> Option<Seq<Json>> {
    match j {
        Json::List(items) => Some(items),
        _ => None,
    }
}

/// Wraps `serde_json::from_str`, reading a `Value`.
#[verifier::external_body]
pub(crate) fn parse_json(text: &str) -> (r: Option<serde_json::Value>)
    ensures
        opt_json(r) == json_text(text@),
{
    serde_json::from_str::<serde_json::Value>(text).ok()
}

/// Wraps `toml::from_str`, reading the document as a `serde_json::Value`.
#[verifier::external_body]
pub(crate) fn parse_toml(text: &str) -> (r: Option<serde_json::Value>)
    ensures
        opt_json(r) == toml_text(text@),
{
    toml::from_str::<serde_json::Value>(text).ok()
}

/// Wraps `serde_yaml_ng::from_str`, reading the document as a
/// `serde_json::Value`.
#[verifier::external_body]
pub(crate) fn parse_yaml(text: &str) -> (r: Option<serde_json::Value>)
    ensures
        opt_json(r) == yaml_text(text@),
{
    serde_yaml_ng::from_str::<serde_json::Value>(text).ok()
}

/// Wraps `Value::get` with a text as index: what stands under the key in an
/// object.
#[verifier::external_body]
pub(crate) fn get_member(v: &serde_json::Value, key: &str) -> (r: Option<serde_json::Value>)
    ensures
        opt_json(r) == member(json_of(*v), key@),
{
    v.get(key).cloned()
}

/// Wraps `Value::as_str`.
#[verifier::external_body]
pub(crate) fn get_text(v: &serde_json::Value) -> (r: Option<String>)
    ensures
        opt_text(r) == as_text(json_of(*v)),
{
    v.as_str().map(|s| s.to_owned())
}

/// Wraps `Value::as_array`.
#[verifier::external_body]
pub(crate) fn get_list(v: &serde_json::Value) -> (r: Option<Vec<serde_json::Value>>)
    ensures
        match r {
            Some(items) => as_list(json_of(*v)) == Some(jsons_of(items@)),
            None => as_list(json_of(*v)) is None,
        },
{
    v.as_array().cloned()
}

/// Wraps `Value::is_object`.
#[verifier::external_body]
pub(crate) fn is_object(v: &serde_json::Value) -> (r: bool)
    ensures
        r == (json_of(*v) is Object),
{
    v.is_object()
}

/// The texts of a list of which every item is a text.
pub open spec fn all_texts(items: Seq<Json>) -> Option<Seq<Seq<char>>> {
    if forall|i: int| 0 <= i < items.len() ==> (#[trigger] items[i]) is Text {
        Some(Seq::new(items.len(), |i: int| items[i]->Text_0))
    } else {
        None
    }
}

/// The texts among the items of a list, in order.
pub open spec fn texts_among(items: Seq<Json>) -> Seq<Seq<char>>
    decreases items.len(),
{
    if items.len() == 0 {
        Seq::empty()
    } else {
        match items.last() {
            Json::Text(s) => texts_among(items.drop_last()).push(s),
            _ => texts_among(items.drop_last()),
        }
    }
}

/// The texts of a list of values of which every one is a text.
pub fn list_of_texts(items: &Vec<serde_json::Value>) -> (r: Option<Vec<String>>)
    ensures
        match r {
            Some(list) => all_texts(jsons_of(items@)) == Some(crate::text::texts(list@)),
            None => all_texts(jsons_of(items@)) is None,
        },
{
    let ghost trees = jsons_of(items@);
    let mut out: Vec<String> = Vec::new();
    let mut i: usize = 0;
    while i < items.len()
        invariant
            i <= items.len(),
            trees == jsons_of(items@),
            out@.len() == i,
            forall|k: int| 0 <= k < i ==> trees[k] == Json::Text((#[trigger] out@[k])@),
        decreases items.len() - i,
    {
        match get_text(&items[i]) {
            Some(text) => {
                out.push(text);
            },
            None => {
                assert(!(trees[i as int] is Text));
                return None;
            },
        }
        i += 1;
    }
    proof {
        assert forall|k: int| 0 <= k < trees.len() implies (#[trigger] trees[k]) is Text by {
            assert(trees[k] == Json::Text(out@[k]@));
        }
        assert(crate::text::texts(out@) =~= Seq::new(trees.len(), |k: int| trees[k]->Text_0));
    }
    Some(out)
}

/// The texts among a list of values, in order.
pub fn texts_in_list(items: &Vec<serde_json::Value>) -> (r: Vec<String>)
    ensures
        crate::text::texts(r@) == texts_among(jsons_of(items@)),
{
    let ghost trees = jsons_of(items@);
    let mut out: Vec<String> = Vec::new();
    let mut i: usize = 0;
    proof {
        assert(trees.take(0) =~= Seq::<Json>::empty());
        assert(crate::text::texts(out@) =~= texts_among(trees.take(0)));
    }
    while i < items.len()
        invariant
            i <= items.len(),
            trees == jsons_of(items@),
            crate::text::texts(out@) == texts_among(trees.take(i as int)),
        decreases items.len() - i,
    {
        proof {
            assert(trees.take(i + 1).drop_last() =~= trees.take(i as int));
            assert(trees.take(i + 1).last() == json_of(items@[i as int]));
        }
        match get_text(&items[i]) {
            Some(text) => {
                let ghost before = crate::text::texts(out@);
                out.push(text);
                assert(crate::text::texts(out@) =~= before.push(text@));
            },
            None => {},
        }
        i += 1;
    }
    assert(trees.take(items.len() as int) =~= trees);
    out
}

/// The name that a JSON text gives under `name`, where it is a text.
pub open spec fn json_name(content: Option<Seq<char>>) -> Option<Seq<char>> {
    match content {
        Some(text) => match json_text(text) {
            Some(doc) => match member(doc, "name"@) {
                Some(name) => as_text(name),
                None => None,
            },
            None => None,
        },
        None => None,
    }
}

/// The name that a JSON text gives.
pub fn name_in_json(content: &Option<String>) -> (r: Option<String>)
    ensures
        opt_text(r) == json_name(opt_text(*content)),
{
    match content {
        Some(text) => match parse_json(text.as_str()) {
            Some(doc) => match get_member(&doc, "name") {
                Some(name) => get_text(&name),
                None => None,
            },
            None => None,
        },
        None => None,
    }
}

} // verus!
