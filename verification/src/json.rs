//! JSON values, parsed by `serde_json`, and the search for an image in
//! structured data.

use vstd::prelude::*;
use serde_json::Value;
use crate::text::{chars_of, string_of, view_opt};

verus! {

broadcast use vstd::std_specs::vec::group_vec_axioms;

/// A JSON value.
pub enum JsonValue {
    Null,
    Bool(bool),
    /// A number, as JSON text.
    Number(String),
    Text(String),
    Array(Vec<JsonValue>),
    /// The members of an object, as the parser's map walks them.
    Object(Vec<(String, JsonValue)>),
}

/// The mathematical value of a JSON value.
pub ghost enum JsonView {
    Null,
    Bool(bool),
    Number(Seq<char>),
    Text(Seq<char>),
    Array(Seq<JsonView>),
    Object(Seq<(Seq<char>, JsonView)>),
}

impl View for JsonValue {
    type V = JsonView;

    open spec fn view(&self) -> JsonView {
        json_view(*self)
    }
}

/// The mathematical value of a JSON value.
pub open spec fn json_view(value: JsonValue) -> JsonView
    decreases value,
{
    match value {
        JsonValue::Null => JsonView::Null,
        JsonValue::Bool(b) => JsonView::Bool(b),
        JsonValue::Number(n) => JsonView::Number(n@),
        JsonValue::Text(t) => JsonView::Text(t@),
        JsonValue::Array(items) => JsonView::Array(items_view(items@)),
        JsonValue::Object(entries) => JsonView::Object(members_view(entries@)),
    }
}

/// The values of the items of an array.
pub open spec fn items_view(items: Seq<JsonValue>) -> Seq<JsonView>
    decreases items,
{
    if items.len() == 0 {
        Seq::empty()
    } else {
        items_view(items.drop_last()).push(json_view(items.last()))
    }
}

/// The names and values of the members of an object.
pub open spec fn members_view(entries: Seq<(String, JsonValue)>) -> Seq<(Seq<char>, JsonView)>
    decreases entries,
{
    if entries.len() == 0 {
        Seq::empty()
    } else {
        members_view(entries.drop_last()).push((entries.last().0@, json_view(entries.last().1)))
    }
}

/// The view of an array has the view of each item in the item's place.
pub proof fn lemma_items_view(items: Seq<JsonValue>)
    ensures
        items_view(items).len() == items.len(),
        forall|i: int| 0 <= i < items.len() ==> #[trigger] items_view(items)[i] == items[i]@,
    decreases items.len(),
{
    if items.len() > 0 {
        lemma_items_view(items.drop_last());
    }
}

/// The view of an object has the name and the view of each member in the
/// member's place.
pub proof fn lemma_members_view(entries: Seq<(String, JsonValue)>)
    ensures
        members_view(entries).len() == entries.len(),
        forall|i: int|
            0 <= i < entries.len() ==> #[trigger] members_view(entries)[i] == (
                entries[i].0@,
                entries[i].1@,
            ),
    decreases entries.len(),
{
    if entries.len() > 0 {
        lemma_members_view(entries.drop_last());
    }
}

/// `serde_json::Value`, carried from the parser to the copy.
#[verifier::external_type_specification]
#[verifier::external_body]
pub struct ExValue(serde_json::Value);

/// The value that `text` parses to as JSON; `None` if it is no JSON text.
pub uninterp spec fn json_parse(text: Seq<char>) -> Option<Value>;

/// What a parsed JSON value holds.
pub uninterp spec fn json_model(value: Value) -> JsonView;

/// Parses `text` with `serde_json::from_str` into a `serde_json::Value`.
/// Text that is no JSON gives `None`.
#[verifier::external_body]
fn json_from_str(text: &str) -> (r: Option<Value>)
    ensures
        r == json_parse(text@),
{
    serde_json::from_str::<Value>(text).ok()
}

/// Copies a `serde_json::Value`, variant by variant: a number as the text
/// that `serde_json` prints for it, an array item by item, an object as its
/// members in the order of `Map::iter`.
#[verifier::external_body]
fn json_copy(value: &Value) -> (r: JsonValue)
    ensures
        r@ == json_model(*value),
{
    match value {
        Value::Null => JsonValue::Null,
        Value::Bool(b) => JsonValue::Bool(*b),
        Value::Number(n) => JsonValue::Number(n.to_string()),
        Value::String(s) => JsonValue::Text(s.clone()),
        Value::Array(items) => JsonValue::Array(items.iter().map(json_copy).collect()),
        Value::Object(m) => JsonValue::Object(m.iter().map(|(k, v)| (k.clone(), json_copy(v))).collect()),
    }
}

/// The JSON value that `text` holds, if it is JSON.
pub open spec fn parsed_json(text: Seq<char>) -> Option<JsonView> {
    match json_parse(text) {
        Some(value) => Some(json_model(value)),
        None => None,
    }
}

/// Parses `text` as JSON.
pub fn parse_json(text: &Vec<char>) -> (r: Option<JsonValue>)
    ensures
        match r {
            Some(value) => parsed_json(text@) == Some(value@),
            None => parsed_json(text@) is None,
        },
{
    match json_from_str(string_of(text).as_str()) {
        Some(value) => Some(json_copy(&value)),
        None => None,
    }
}

/// The value of the first member of an object that is named `key`.
pub open spec fn member(entries: Seq<(Seq<char>, JsonView)>, key: Seq<char>, from: int) -> Option<
    JsonView,
>
    decreases entries.len() - from,
{
    if from < 0 || from >= entries.len() {
        None
    } else if entries[from].0 == key {
        Some(entries[from].1)
    } else {
        member(entries, key, from + 1)
    }
}

/// The member `url` of an object, if it is a string.
pub open spec fn url_member(entries: Seq<(Seq<char>, JsonView)>) -> Option<Seq<char>> {
    match member(entries, "url"@, 0) {
        Some(JsonView::Text(u)) => Some(u),
        _ => None,
    }
}

/// The image that one item of an array of images names: the item itself if
/// it is a string, its member `url` if it is an object.
pub open spec fn item_image(item: JsonView) -> Option<Seq<char>> {
    match item {
        JsonView::Text(s) => Some(s),
        JsonView::Object(entries) => url_member(entries),
        _ => None,
    }
}

/// The image of the first item, from index `from` on, that names one.
pub open spec fn first_item_image(items: Seq<JsonView>, from: int) -> Option<Seq<char>>
    decreases items.len() - from,
{
    if from < 0 || from >= items.len() {
        None
    } else if item_image(items[from]) is Some {
        item_image(items[from])
    } else {
        first_item_image(items, from + 1)
    }
}

/// The image that the value of an image member names: a string is the
/// image, an array names the image of its first item that names one, an
/// object names its member `url`.
pub open spec fn named_image(value: JsonView) -> Option<Seq<char>> {
    match value {
        JsonView::Text(s) => Some(s),
        JsonView::Array(items) => first_item_image(items, 0),
        JsonView::Object(entries) => url_member(entries),
        _ => None,
    }
}

/// The image that the member `key` of an object names.
pub open spec fn keyed_image(entries: Seq<(Seq<char>, JsonView)>, key: Seq<char>) -> Option<
    Seq<char>,
> {
    match member(entries, key, 0) {
        Some(value) => named_image(value),
        None => None,
    }
}

/// The image that structured data names. An object names the image of its
/// member `image`, else of its member `thumbnailUrl`, else the first image
/// found in the values of its members; an array names the first image found
/// in its items; nothing else names an image.
pub open spec fn image_in(value: JsonView) -> Option<Seq<char>>
    decreases value, 0nat,
{
    match value {
        JsonView::Object(entries) => {
            if keyed_image(entries, "image"@) is Some {
                keyed_image(entries, "image"@)
            } else if keyed_image(entries, "thumbnailUrl"@) is Some {
                keyed_image(entries, "thumbnailUrl"@)
            } else {
                image_in_members(entries, 0)
            }
        },
        JsonView::Array(items) => image_in_items(items, 0),
        _ => None,
    }
}

/// The first image found in the items from index `from` on.
pub open spec fn image_in_items(items: Seq<JsonView>, from: int) -> Option<Seq<char>>
    decreases items, items.len() - from,
{
    if from < 0 || from >= items.len() {
        None
    } else if image_in(items[from]) is Some {
        image_in(items[from])
    } else {
        image_in_items(items, from + 1)
    }
}

/// The first image found in the values of the members from index `from` on.
pub open spec fn image_in_members(entries: Seq<(Seq<char>, JsonView)>, from: int) -> Option<
    Seq<char>,
>
    decreases entries, entries.len() - from,
{
    if from < 0 || from >= entries.len() {
        None
    } else if image_in(entries[from].1) is Some {
        image_in(entries[from].1)
    } else {
        image_in_members(entries, from + 1)
    }
}

/// The value of the first member named `key`.
fn find_member<'a>(entries: &'a Vec<(String, JsonValue)>, key: &str) -> (r: Option<&'a JsonValue>)
    ensures
        match r {
            Some(v) => member(members_view(entries@), key@, 0) == Some(v@),
            None => member(members_view(entries@), key@, 0) is None,
        },
{
    let wanted = String::from_str(key);
    let mut i: usize = 0;
    proof {
        lemma_members_view(entries@);
    }
    while i < entries.len()
        invariant
            i <= entries.len(),
            wanted@ == key@,
            members_view(entries@).len() == entries.len(),
            forall|k: int|
                0 <= k < entries.len() ==> #[trigger] members_view(entries@)[k] == (
                    entries@[k].0@,
                    entries@[k].1@,
                ),
            member(members_view(entries@), key@, 0) == member(
                members_view(entries@),
                key@,
                i as int,
            ),
        decreases entries.len() - i,
    {
        assert(members_view(entries@)[i as int] == (entries@[i as int].0@, entries@[i as int].1@));
        if entries[i].0 == wanted {
            return Some(&entries[i].1);
        }
        i += 1;
    }
    None
}

/// The member `url` of an object, if it is a string.
fn find_url(entries: &Vec<(String, JsonValue)>) -> (r: Option<Vec<char>>)
    ensures
        view_opt(r) == url_member(members_view(entries@)),
{
    match find_member(entries, "url") {
        Some(JsonValue::Text(u)) => Some(chars_of(u.as_str())),
        _ => None,
    }
}

/// The image that the value of an image member names.
#[verifier::loop_isolation(false)]
fn image_named_by(value: &JsonValue) -> (r: Option<Vec<char>>)
    ensures
        view_opt(r) == named_image(value@),
{
    proof {
        match value {
            JsonValue::Array(items) => lemma_items_view(items@),
            JsonValue::Object(entries) => lemma_members_view(entries@),
            _ => {},
        }
    }
    match value {
        JsonValue::Text(s) => Some(chars_of(s.as_str())),
        JsonValue::Array(items) => {
            let mut i: usize = 0;
            while i < items.len()
                invariant
                    i <= items.len(),
                    first_item_image(items_view(items@), 0) == first_item_image(
                        items_view(items@),
                        i as int,
                    ),
                decreases items.len() - i,
            {
                proof {
                    assert(items_view(items@)[i as int] == items@[i as int]@);
                    match items@[i as int] {
                        JsonValue::Object(entries) => lemma_members_view(entries@),
                        _ => {},
                    }
                }
                match &items[i] {
                    JsonValue::Text(s) => {
                        return Some(chars_of(s.as_str()));
                    },
                    JsonValue::Object(entries) => {
                        let found = find_url(entries);
                        if found.is_some() {
                            return found;
                        }
                    },
                    _ => {},
                }
                i += 1;
            }
            None
        },
        JsonValue::Object(entries) => find_url(entries),
        _ => None,
    }
}

/// The image that the member `key` of an object names.
fn image_under(entries: &Vec<(String, JsonValue)>, key: &str) -> (r: Option<Vec<char>>)
    ensures
        view_opt(r) == keyed_image(members_view(entries@), key@),
{
    match find_member(entries, key) {
        Some(value) => image_named_by(value),
        None => None,
    }
}

/// Searches structured data for the image it names.
#[verifier::loop_isolation(false)]
pub fn jsonld_image_value(value: &JsonValue) -> (r: Option<Vec<char>>)
    ensures
        view_opt(r) == image_in(value@),
    decreases value,
{
    proof {
        match value {
            JsonValue::Array(items) => lemma_items_view(items@),
            JsonValue::Object(entries) => lemma_members_view(entries@),
            _ => {},
        }
    }
    match value {
        JsonValue::Object(entries) => {
            let first = image_under(entries, "image");
            if first.is_some() {
                return first;
            }
            let second = image_under(entries, "thumbnailUrl");
            if second.is_some() {
                return second;
            }
            let mut i: usize = 0;
            while i < entries.len()
                invariant
                    i <= entries.len(),
                    *value == JsonValue::Object(*entries),
                    image_in_members(members_view(entries@), 0) == image_in_members(
                        members_view(entries@),
                        i as int,
                    ),
                decreases entries.len() - i,
            {
                assert(members_view(entries@)[i as int].1 == entries@[i as int].1@);
                let found = jsonld_image_value(&entries[i].1);
                if found.is_some() {
                    return found;
                }
                i += 1;
            }
            None
        },
        JsonValue::Array(items) => {
            let mut i: usize = 0;
            while i < items.len()
                invariant
                    i <= items.len(),
                    *value == JsonValue::Array(*items),
                    image_in_items(items_view(items@), 0) == image_in_items(
                        items_view(items@),
                        i as int,
                    ),
                decreases items.len() - i,
            {
                assert(items_view(items@)[i as int] == items@[i as int]@);
                let found = jsonld_image_value(&items[i]);
                if found.is_some() {
                    return found;
                }
                i += 1;
            }
            None
        },
        _ => None,
    }
}

} // verus!
