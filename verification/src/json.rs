//! JSON as the library reads it: parsed by `serde_json`, looked into by name.

use vstd::prelude::*;
use crate::component::{VariantPropType, VariantPropTypeView, VariantValue, VariantValueView};
use crate::deep::views;
use crate::text::is_text;

verus! {

/// A JSON value of `serde_json`.
#[verifier::external_type_specification]
#[verifier::external_body]
pub struct ExValue(serde_json::Value);

/// The value that a text parses to, if it is JSON.
pub uninterp spec fn json_parsed(text: Seq<char>) -> Option<serde_json::Value>;

/// The member of an object under a name, if the value is an object and has
/// one.
pub uninterp spec fn json_member(v: serde_json::Value, name: Seq<char>) -> Option<serde_json::Value>;

/// The text of a value, if the value is a string.
pub uninterp spec fn json_text(v: serde_json::Value) -> Option<Seq<char>>;

/// The truth value of a value, if the value is a boolean.
pub uninterp spec fn json_flag(v: serde_json::Value) -> Option<bool>;

/// The items of a value, if the value is an array.
pub uninterp spec fn json_items(v: serde_json::Value) -> Option<Seq<serde_json::Value>>;

/// Parses a text with `serde_json::from_str`. The result is named, not
/// stated: it is a function of the text alone.
#[verifier::external_body]
fn parse(text: &str) -> (r: Option<serde_json::Value>)
    ensures
        r == json_parsed(text@),
{
    serde_json::from_str::<serde_json::Value>(text).ok()
}

/// Looks a member up with `Value::get`. The result is named, not stated.
#[verifier::external_body]
fn member<'a>(v: &'a serde_json::Value, name: &str) -> (r: Option<&'a serde_json::Value>)
    ensures
        match r {
            Some(m) => json_member(*v, name@) == Some(*m),
            None => json_member(*v, name@) is None,
        },
{
    v.get(name)
}

/// Reads a string with `Value::as_str`. The result is named, not stated.
#[verifier::external_body]
fn text_of(v: &serde_json::Value) -> (r: Option<String>)
    ensures
        match r {
            Some(s) => json_text(*v) == Some(s@),
            None => json_text(*v) is None,
        },
{
    v.as_str().map(String::from)
}

/// Reads a boolean with `Value::as_bool`. The result is named, not stated.
#[verifier::external_body]
fn flag_of(v: &serde_json::Value) -> (r: Option<bool>)
    ensures
        r == json_flag(*v),
{
    v.as_bool()
}

/// Reads an array with `Value::as_array`. The result is named, not stated.
#[verifier::external_body]
fn items_of(v: &serde_json::Value) -> (r: Option<&Vec<serde_json::Value>>)
    ensures
        match r {
            Some(a) => json_items(*v) == Some(a@),
            None => json_items(*v) is None,
        },
{
    v.as_array()
}

/// The texts of the values of a list that are strings, in their order.
pub open spec fn texts_of(items: Seq<serde_json::Value>) -> Seq<Seq<char>>
    decreases items.len(),
{
    if items.len() == 0 {
        Seq::empty()
    } else {
        match json_text(items.last()) {
            Some(t) => texts_of(items.drop_last()).push(t),
            None => texts_of(items.drop_last()),
        }
    }
}

/// What the description of a variant property says: the name of its type,
/// its default as a boolean and as a text, and its options.
pub struct PropParts {
    pub kind_name: Option<String>,
    pub default_flag: Option<bool>,
    pub default_text: Option<String>,
    pub options: Option<Vec<String>>,
}

/// The member of a parsed text under a name.
pub open spec fn member_of(text: Seq<char>, name: Seq<char>) -> Option<serde_json::Value> {
    match json_parsed(text) {
        Some(v) => json_member(v, name),
        None => None,
    }
}

/// The text of the member of a parsed text under a name.
pub open spec fn member_text(text: Seq<char>, name: Seq<char>) -> Option<Seq<char>> {
    match member_of(text, name) {
        Some(m) => json_text(m),
        None => None,
    }
}

/// The truth value of the member of a parsed text under a name.
pub open spec fn member_flag(text: Seq<char>, name: Seq<char>) -> Option<bool> {
    match member_of(text, name) {
        Some(m) => json_flag(m),
        None => None,
    }
}

/// The strings among the items of the member of a parsed text under a name.
pub open spec fn member_texts(text: Seq<char>, name: Seq<char>) -> Option<Seq<Seq<char>>> {
    match member_of(text, name) {
        Some(m) => match json_items(m) {
            Some(items) => Some(texts_of(items)),
            None => None,
        },
        None => None,
    }
}

/// The type and the default value of a variant property, from what its
/// description says. The type `boolean` has the default that is given as a
/// boolean, else false. The type `string` has the options that are given,
/// else none, and the default that is given as a text, else its first option,
/// else the empty text. Another type, or none, is no property.
pub open spec fn prop_of_parts(
    kind_name: Option<Seq<char>>,
    default_flag: Option<bool>,
    default_text: Option<Seq<char>>,
    options: Option<Seq<Seq<char>>>,
) -> Option<(VariantPropTypeView, VariantValueView)> {
    if kind_name == Some("boolean"@) {
        Some(
            (
                VariantPropTypeView::Boolean,
                VariantValueView::Boolean(
                    match default_flag {
                        Some(b) => b,
                        None => false,
                    },
                ),
            ),
        )
    } else if kind_name == Some("string"@) {
        let opts = match options {
            Some(o) => o,
            None => Seq::empty(),
        };
        let def = match default_text {
            Some(d) => d,
            None => if opts.len() > 0 {
                opts[0]
            } else {
                Seq::empty()
            },
        };
        Some((VariantPropTypeView::String { options: opts }, VariantValueView::String(def)))
    } else {
        None
    }
}

/// The type and the default value of a variant property, from the JSON text
/// that describes it.
pub open spec fn prop_of_json(text: Seq<char>) -> Option<(VariantPropTypeView, VariantValueView)> {
    prop_of_parts(
        member_text(text, "type"@),
        member_flag(text, "default"@),
        member_text(text, "default"@),
        member_texts(text, "options"@),
    )
}

/// The type and the default value of a variant property, from what its
/// description says.
pub fn prop_from_parts(parts: PropParts) -> (r: Option<(VariantPropType, VariantValue)>)
    ensures
        match r {
            Some((t, d)) => prop_of_parts(
                crate::deep::option_view(parts.kind_name),
                parts.default_flag,
                crate::deep::option_view(parts.default_text),
                match parts.options {
                    Some(o) => Some(views(o@)),
                    None => None,
                },
            ) == Some((t@, d@)),
            None => prop_of_parts(
                crate::deep::option_view(parts.kind_name),
                parts.default_flag,
                crate::deep::option_view(parts.default_text),
                match parts.options {
                    Some(o) => Some(views(o@)),
                    None => None,
                },
            ) is None,
        },
{
    let kind_name = match parts.kind_name {
        Some(t) => t,
        None => {
            return None;
        },
    };
    if is_text(kind_name.as_str(), "boolean") {
        let def: bool = match parts.default_flag {
            Some(b) => b,
            None => false,
        };
        Some((VariantPropType::Boolean, VariantValue::Boolean(def)))
    } else if is_text(kind_name.as_str(), "string") {
        let options: Vec<String> = match parts.options {
            Some(o) => o,
            None => {
                let v: Vec<String> = Vec::new();
                assert(views(v@) =~= Seq::<Seq<char>>::empty());
                v
            },
        };
        let def: String = match parts.default_text {
            Some(d) => d,
            None => {
                if options.len() > 0 {
                    assert(views(options@)[0] == options@[0]@);
                    options[0].clone()
                } else {
                    String::new()
                }
            },
        };
        Some((VariantPropType::String { options }, VariantValue::String(def)))
    } else {
        None
    }
}

/// The strings among the items of a list.
fn strings_of(items: &Vec<serde_json::Value>) -> (r: Vec<String>)
    ensures
        views(r@) == texts_of(items@),
{
    let mut r: Vec<String> = Vec::new();
    let mut i: usize = 0;
    assert(items@.take(0) =~= Seq::<serde_json::Value>::empty());
    assert(views(r@) =~= Seq::<Seq<char>>::empty());
    while i < items.len()
        invariant
            i <= items.len(),
            views(r@) == texts_of(items@.take(i as int)),
        decreases items.len() - i,
    {
        proof {
            let t = items@.take(i as int + 1);
            assert(t.drop_last() =~= items@.take(i as int));
            assert(t.last() == items@[i as int]);
        }
        match text_of(&items[i]) {
            Some(s) => {
                assert(views(r@.push(s)) =~= views(r@).push(s@));
                r.push(s);
            },
            None => {},
        }
        i += 1;
    }
    assert(items@.take(items.len() as int) =~= items@);
    r
}

/// What a JSON text that describes a variant property says.
pub fn read_prop_parts(text: &str) -> (r: PropParts)
    ensures
        crate::deep::option_view(r.kind_name) == member_text(text@, "type"@),
        r.default_flag == member_flag(text@, "default"@),
        crate::deep::option_view(r.default_text) == member_text(text@, "default"@),
        match r.options {
            Some(o) => member_texts(text@, "options"@) == Some(views(o@)),
            None => member_texts(text@, "options"@) is None,
        },
{
    let doc = match parse(text) {
        Some(v) => v,
        None => {
            return PropParts {
                kind_name: None,
                default_flag: None,
                default_text: None,
                options: None,
            };
        },
    };
    let kind_name: Option<String> = match member(&doc, "type") {
        Some(m) => text_of(m),
        None => None,
    };
    let (default_flag, default_text): (Option<bool>, Option<String>) = match member(
        &doc,
        "default",
    ) {
        Some(m) => (flag_of(m), text_of(m)),
        None => (None, None),
    };
    let options: Option<Vec<String>> = match member(&doc, "options") {
        Some(m) => match items_of(m) {
            Some(items) => Some(strings_of(items)),
            None => None,
        },
        None => None,
    };
    PropParts { kind_name, default_flag, default_text, options }
}

/// The type and the default value of a variant property, from the JSON text
/// that describes it; none where the text is not JSON or names no type that
/// a property can have.
pub fn read_prop(text: &str) -> (r: Option<(VariantPropType, VariantValue)>)
    ensures
        match r {
            Some((t, d)) => prop_of_json(text@) == Some((t@, d@)),
            None => prop_of_json(text@) is None,
        },
{
    prop_from_parts(read_prop_parts(text))
}

/// Whether every value of a list is a string.
pub open spec fn all_texts(items: Seq<serde_json::Value>) -> bool {
    forall|i: int| 0 <= i < items.len() ==> json_text(#[trigger] items[i]) is Some
}

/// The strings that a JSON text lists: its items, if it is an array of
/// strings, else none.
pub open spec fn string_list_of_json(text: Seq<char>) -> Seq<Seq<char>> {
    match json_parsed(text) {
        Some(v) => match json_items(v) {
            Some(items) => if all_texts(items) {
                texts_of(items)
            } else {
                Seq::empty()
            },
            None => Seq::empty(),
        },
        None => Seq::empty(),
    }
}

/// The strings that a JSON text lists: its items, if it is an array of
/// strings, else none.
pub fn read_string_list(text: &str) -> (r: Vec<String>)
    ensures
        views(r@) == string_list_of_json(text@),
{
    let empty: Vec<String> = Vec::new();
    assert(views(empty@) =~= Seq::<Seq<char>>::empty());
    let doc = match parse(text) {
        Some(v) => v,
        None => {
            return empty;
        },
    };
    let items = match items_of(&doc) {
        Some(a) => a,
        None => {
            return empty;
        },
    };
    let mut i: usize = 0;
    while i < items.len()
        invariant
            i <= items.len(),
            json_parsed(text@) == Some(doc),
            json_items(doc) == Some(items@),
            views(empty@) == Seq::<Seq<char>>::empty(),
            forall|j: int| 0 <= j < i ==> json_text(#[trigger] items@[j]) is Some,
        decreases items.len() - i,
    {
        if text_of(&items[i]).is_none() {
            assert(json_text(items@[i as int]) is None);
            assert(!all_texts(items@));
            return empty;
        }
        i += 1;
    }
    assert(all_texts(items@));
    strings_of(items)
}

} // verus!
