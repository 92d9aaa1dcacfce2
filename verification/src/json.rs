//! JSON documents as the library reads them, and the parse that makes them.

use vstd::prelude::*;
use crate::mru::views;

verus! {

/// A JSON document: numbers keep their text, objects their members in the
/// order the parser gives them.
#[derive(Debug)]
pub enum Json {
    Null,
    Bool(bool),
    Number(String),
    Str(String),
    Array(Vec<Json>),
    Object(Vec<(String, Json)>),
}

/// The mathematical form of a JSON document: every string as its characters.
pub enum JsonView {
    Null,
    Bool(bool),
    Number(Seq<char>),
    Str(Seq<char>),
    Array(Seq<JsonView>),
    Object(Seq<(Seq<char>, JsonView)>),
}

/// The forms of the items of an array, in order.
pub open spec fn items_view(items: Seq<Json>) -> Seq<JsonView>
    decreases items,
{
    if items.len() == 0 {
        Seq::empty()
    } else {
        items_view(items.drop_last()).push(items.last().view())
    }
}

/// The forms of the members of an object, in order.
pub open spec fn members_view(members: Seq<(String, Json)>) -> Seq<(Seq<char>, JsonView)>
    decreases members,
{
    if members.len() == 0 {
        Seq::empty()
    } else {
        members_view(members.drop_last()).push((members.last().0@, members.last().1.view()))
    }
}

impl View for Json {
    type V = JsonView;

    open spec fn view(&self) -> JsonView
        decreases self,
    {
        match self {
            Json::Null => JsonView::Null,
            Json::Bool(b) => JsonView::Bool(*b),
            Json::Number(n) => JsonView::Number(n@),
            Json::Str(s) => JsonView::Str(s@),
            Json::Array(items) => JsonView::Array(items_view(items@)),
            Json::Object(members) => JsonView::Object(members_view(members@)),
        }
    }
}

/// The form of the document that `serde_json` parses from `text`, or the
/// text of the error it reports.
pub uninterp spec fn parsed_json(text: Seq<u8>) -> Result<JsonView, Seq<char>>;

/// The form of a parse's outcome.
pub open spec fn parse_view(parsed: Result<Json, String>) -> Result<JsonView, Seq<char>> {
    match parsed {
        Ok(document) => Ok(document@),
        Err(error) => Err(error@),
    }
}

#[verifier::external_type_specification]
#[verifier::external_body]
pub struct ExJsonValue(serde_json::Value);

/// Turns a document parsed by `serde_json` into a `Json`, variant for
/// variant, members in the order of `serde_json::Map`; a number becomes its
/// text. It is the conversion half of `parse_json`, apart only because it
/// recurses into arrays and objects; nothing is claimed of it on its own,
/// and `parse_json` states what the two give together.
#[verifier::external_body]
fn json_from_value(value: serde_json::Value) -> Json {
    match value {
        serde_json::Value::Null => Json::Null,
        serde_json::Value::Bool(b) => Json::Bool(b),
        serde_json::Value::Number(n) => Json::Number(n.to_string()),
        serde_json::Value::String(s) => Json::Str(s),
        serde_json::Value::Array(items) => Json::Array(items.into_iter().map(json_from_value).collect()),
        serde_json::Value::Object(members) => Json::Object(
            members.into_iter().map(|(key, member)| (key, json_from_value(member))).collect(),
        ),
    }
}

/// Parses `text` with `serde_json::from_slice` into its untyped document.
/// Claimed, not proved: the document, or the `Display` text of the error, is
/// `parsed_json(text)`, a function of the bytes alone.
#[verifier::external_body]
pub(crate) fn parse_json(text: &[u8]) -> (parsed: Result<Json, String>)
    ensures
        parse_view(parsed) == parsed_json(text@),
{
    match serde_json::from_slice::<serde_json::Value>(text) {
        Ok(value) => Ok(json_from_value(value)),
        Err(error) => Err(error.to_string()),
    }
}

/// The form of an array's items is the form of each item.
pub proof fn lemma_items_view(items: Seq<Json>)
    ensures
        items_view(items).len() == items.len(),
        forall|i: int| 0 <= i < items.len() ==> #[trigger] items_view(items)[i] == items[i]@,
    decreases items.len(),
{
    if items.len() > 0 {
        let rest = items.drop_last();
        lemma_items_view(rest);
        assert(items_view(items) == items_view(rest).push(items.last()@));
        assert forall|i: int| 0 <= i < items.len() implies #[trigger] items_view(items)[i] == items[i]@ by {
            if i < rest.len() {
                assert(rest[i] == items[i]);
            }
        }
    }
}

/// The form of an object's members is the form of each member.
pub proof fn lemma_members_view(members: Seq<(String, Json)>)
    ensures
        members_view(members).len() == members.len(),
        forall|i: int| 0 <= i < members.len() ==> #[trigger] members_view(members)[i] == (
            members[i].0@,
            members[i].1@,
        ),
    decreases members.len(),
{
    if members.len() > 0 {
        let rest = members.drop_last();
        lemma_members_view(rest);
        assert(members_view(members) == members_view(rest).push((members.last().0@, members.last().1@)));
        assert(members_view(members).len() == members.len());
        assert forall|i: int| 0 <= i < members.len() implies #[trigger] members_view(members)[i] == (
            members[i].0@,
            members[i].1@,
        ) by {
            if i < rest.len() {
                assert(rest[i] == members[i]);
            }
        }
    }
}

/// The member `key` of an object's members: the first one of that name.
pub open spec fn member_of(members: Seq<(Seq<char>, JsonView)>, key: Seq<char>) -> Option<JsonView>
    decreases members.len(),
{
    if members.len() == 0 {
        None
    } else if members[0].0 == key {
        Some(members[0].1)
    } else {
        member_of(members.drop_first(), key)
    }
}

/// The member `key` of a document that is an object; nothing otherwise.
pub open spec fn member(document: JsonView, key: Seq<char>) -> Option<JsonView> {
    match document {
        JsonView::Object(members) => member_of(members, key),
        _ => None,
    }
}

/// The document reached from `document` through the members named by `path`.
pub open spec fn at_path(document: JsonView, path: Seq<Seq<char>>) -> Option<JsonView>
    decreases path.len(),
{
    if path.len() == 0 {
        Some(document)
    } else {
        match member(document, path[0]) {
            Some(inner) => at_path(inner, path.drop_first()),
            None => None,
        }
    }
}

/// The string of a document that is a string.
pub open spec fn text_of(document: Option<JsonView>) -> Option<Seq<char>> {
    match document {
        Some(JsonView::Str(s)) => Some(s),
        _ => None,
    }
}

/// The form of an optional reference to a document.
pub open spec fn json_option_view(document: Option<&Json>) -> Option<JsonView> {
    match document {
        Some(d) => Some(d@),
        None => None,
    }
}

/// The member `key` of `document`, where it is an object that has one.
pub fn member_named<'a>(document: &'a Json, key: &str) -> (found: Option<&'a Json>)
    ensures
        json_option_view(found) == member(document@, key@),
{
    match document {
        Json::Object(members) => {
            proof {
                lemma_members_view(members@);
            }
            let ghost all = members_view(members@);
            assert(document@ == JsonView::Object(all));
            assert(all.subrange(0, all.len() as int) =~= all);
            let mut i: usize = 0;
            while i < members.len()
                invariant
                    i <= members.len(),
                    all == members_view(members@),
                    document@ == JsonView::Object(all),
                    all.len() == members@.len(),
                    forall|j: int| 0 <= j < members@.len() ==> #[trigger] all[j] == (
                        members@[j].0@,
                        members@[j].1@,
                    ),
                    member_of(all, key@) == member_of(all.subrange(i as int, all.len() as int), key@),
                decreases members.len() - i,
            {
                let ghost rest = all.subrange(i as int, all.len() as int);
                assert(rest[0] == all[i as int]);
                assert(rest.drop_first() =~= all.subrange(i + 1, all.len() as int));
                if crate::text::same_text(members[i].0.as_str(), key) {
                    assert(member_of(rest, key@) == Some(members@[i as int].1@));
                    return Some(&members[i].1);
                }
                i += 1;
            }
            assert(all.subrange(i as int, all.len() as int).len() == 0);
            None
        },
        _ => None,
    }
}

/// The string of the member `key` of `document`, where there is one.
pub fn text_member(document: &Json, key: &str) -> (text: Option<String>)
    ensures
        crate::history::option_view(text) == text_of(member(document@, key@)),
{
    match member_named(document, key) {
        Some(Json::Str(s)) => Some(s.clone()),
        _ => None,
    }
}

/// The document reached from `document` through the members named by `path`.
pub fn follow_path<'a>(document: &'a Json, path: &Vec<String>) -> (found: Option<&'a Json>)
    ensures
        json_option_view(found) == at_path(document@, views(path@)),
{
    let ghost keys = views(path@);
    let mut current = document;
    assert(keys.subrange(0, keys.len() as int) =~= keys);
    let mut i: usize = 0;
    while i < path.len()
        invariant
            i <= path.len(),
            keys == views(path@),
            at_path(document@, keys) == at_path(current@, keys.subrange(i as int, keys.len() as int)),
        decreases path.len() - i,
    {
        let ghost rest = keys.subrange(i as int, keys.len() as int);
        assert(rest[0] == path@[i as int]@);
        assert(rest.drop_first() =~= keys.subrange(i + 1, keys.len() as int));
        match member_named(current, path[i].as_str()) {
            Some(inner) => current = inner,
            None => return None,
        }
        i += 1;
    }
    assert(keys.subrange(i as int, keys.len() as int).len() == 0);
    Some(current)
}

} // verus!
