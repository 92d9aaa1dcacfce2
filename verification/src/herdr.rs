//! Reading the answers of Herdr's `tab list`, `pane list` and `pane.focus`
//! requests, once the JSON has been taken apart into plain values.

use vstd::prelude::*;
use vstd::string::StringSliceAdditionalSpecFns;
use crate::history::option_view;
use crate::json::{
    at_path, lemma_items_view, lemma_members_view, member, member_named, parse_json, parsed_json, text_member, text_of,
    follow_path, Json, JsonView,
};
use crate::mru::{lemma_filter_contains_iff, Id, views};
use crate::text::same_text;

verus! {

/// What a listed pane says of itself: the tab it is in and its id, each
/// absent where the listing has no such string.
pub struct PaneRecord {
    pub tab_id: Option<String>,
    pub pane_id: Option<String>,
}

/// The error for a response without the expected list.
pub open spec fn missing_list_message() -> Seq<char> {
    "Herdr response did not contain the expected list"@
}

/// The error for a listed item without a string under `id_key`.
pub open spec fn missing_id_message(id_key: Seq<char>) -> Seq<char> {
    "Herdr response contained an item without "@ + id_key
}

/// The error for a response without a pane list.
pub open spec fn missing_pane_list_message() -> Seq<char> {
    "Herdr response did not contain a pane list"@
}

/// The error for a pane of the tab without a pane id.
pub open spec fn missing_pane_id_message() -> Seq<char> {
    "Herdr response contained a pane without pane_id"@
}

/// The error for a `pane.focus` request that Herdr refused with `reason`.
pub open spec fn focus_failed_message(reason: Seq<char>) -> Seq<char> {
    "Herdr pane focus failed: "@ + reason
}

/// The error for a `pane.focus` response without a result.
pub open spec fn missing_result_message() -> Seq<char> {
    "Herdr pane focus response did not contain a result"@
}

/// What a listed pane says of itself, as characters: its tab and its id.
pub type PaneView = (Option<Id>, Option<Id>);

/// The form of a listed pane.
pub open spec fn pane_view(pane: PaneRecord) -> PaneView {
    (option_view(pane.tab_id), option_view(pane.pane_id))
}

/// The forms of listed panes, in order.
pub open spec fn pane_views(panes: Seq<PaneRecord>) -> Seq<PaneView> {
    panes.map_values(|p: PaneRecord| pane_view(p))
}

/// Whether a listed pane is in the tab `tab_id`.
pub open spec fn in_tab(tab_id: Id) -> spec_fn(PaneView) -> bool {
    |p: PaneView| p.0 == Some(tab_id)
}

/// Whether every listed pane of the tab `tab_id` has an id.
pub open spec fn tab_panes_have_ids(panes: Seq<PaneView>, tab_id: Id) -> bool {
    forall|i: int| 0 <= i < panes.len() && #[trigger] in_tab(tab_id)(panes[i]) ==> panes[i].1 is Some
}

/// The ids of the listed panes of the tab `tab_id`, in listing order.
pub open spec fn tab_pane_ids(panes: Seq<PaneView>, tab_id: Id) -> Seq<Id> {
    panes.filter(in_tab(tab_id)).map_values(|p: PaneView| p.1->0)
}

/// The ids of a listing whose every item has one.
pub open spec fn item_ids(items: Seq<Option<String>>) -> Seq<Id> {
    items.map_values(|item: Option<String>| item->0@)
}

/// The ids of the items of a listing; `items` is `None` where the response
/// holds no list at the expected place, and an item is `None` where it has
/// no string under `id_key`.
pub fn ids_at(items: Option<Vec<Option<String>>>, id_key: &str) -> (result: Result<Vec<String>, String>)
    ensures
        result is Ok <==> (items matches Some(v) && forall|i: int| 0 <= i < v.len() ==> #[trigger] v@[i] is Some),
        result matches Ok(ids) ==> views(ids@) == item_ids(items->0@),
        result matches Err(message) ==> message@ == (if items is None {
            missing_list_message()
        } else {
            missing_id_message(id_key@)
        }),
{
    let list = match items {
        Some(list) => list,
        None => return Err("Herdr response did not contain the expected list".to_owned()),
    };
    let mut ids: Vec<String> = Vec::new();
    let mut i: usize = 0;
    while i < list.len()
        invariant
            i <= list.len(),
            items == Some(list),
            ids.len() == i,
            forall|j: int| 0 <= j < i ==> #[trigger] list@[j] is Some,
            forall|j: int| 0 <= j < i ==> #[trigger] ids@[j]@ == list@[j]->0@,
        decreases list.len() - i,
    {
        match &list[i] {
            Some(id) => ids.push(id.clone()),
            None => {
                let mut message = "Herdr response contained an item without ".to_owned();
                message.append(id_key);
                return Err(message);
            },
        }
        i += 1;
    }
    assert(views(ids@) =~= item_ids(list@));
    Ok(ids)
}

/// The ids of the listed panes that are in the tab `tab_id`, in listing
/// order; `panes` is `None` where the response holds no pane list.
pub fn panes_in_tab(panes: Option<Vec<PaneRecord>>, tab_id: &str) -> (result: Result<Vec<String>, String>)
    ensures
        result is Ok <==> (panes matches Some(v) && tab_panes_have_ids(pane_views(v@), tab_id@)),
        result matches Ok(ids) ==> views(ids@) == tab_pane_ids(pane_views(panes->0@), tab_id@),
        result matches Err(message) ==> message@ == (if panes is None {
            missing_pane_list_message()
        } else {
            missing_pane_id_message()
        }),
{
    let list = match panes {
        Some(list) => list,
        None => return Err("Herdr response did not contain a pane list".to_owned()),
    };
    let ghost pred = in_tab(tab_id@);
    let mut ids: Vec<String> = Vec::new();
    let mut i: usize = 0;
    while i < list.len()
        invariant
            i <= list.len(),
            panes == Some(list),
            pred == in_tab(tab_id@),
            forall|j: int| 0 <= j < i && #[trigger] pred(pane_view(list@[j])) ==> list@[j].pane_id is Some,
            views(ids@) == pane_views(list@.take(i as int)).filter(pred).map_values(|p: PaneView| p.1->0),
        decreases list.len() - i,
    {
        let ghost before = pane_views(list@.take(i as int));
        let ghost here_view = pane_view(list@[i as int]);
        assert(pane_views(list@.take(i + 1)) =~= before.push(here_view));
        proof {
            before.lemma_filter_push(here_view, pred);
        }
        let pane = &list[i];
        let here = match &pane.tab_id {
            Some(t) => same_text(t.as_str(), tab_id),
            None => false,
        };
        if here {
            match &pane.pane_id {
                Some(id) => {
                    let ghost old_ids = ids@;
                    ids.push(id.clone());
                    assert(views(ids@) =~= views(old_ids).push(id@));
                    assert(before.filter(pred).push(here_view).map_values(|p: PaneView| p.1->0) =~=
                        before.filter(pred).map_values(|p: PaneView| p.1->0).push(id@));
                },
                None => {
                    assert(pane_views(list@)[i as int] == here_view);
                    assert(in_tab(tab_id@)(pane_views(list@)[i as int]));
                    return Err("Herdr response contained a pane without pane_id".to_owned());
                },
            }
        }
        i += 1;
    }
    assert(list@.take(list.len() as int) =~= list@);
    assert forall|j: int| 0 <= j < pane_views(list@).len() && #[trigger] in_tab(tab_id@)(pane_views(list@)[j])
        implies pane_views(list@)[j].1 is Some by {
        assert(pane_views(list@)[j] == pane_view(list@[j]));
    }
    Ok(ids)
}

/// The outcome of a `pane.focus` request: `error_message` is the response's
/// `error.message` string, where it has one, and `has_result` whether it has
/// a `result`.
pub fn pane_focus_outcome(error_message: Option<String>, has_result: bool) -> (result: Result<(), String>)
    ensures
        result is Ok <==> (error_message is None && has_result),
        result matches Err(message) ==> message@ == (match error_message {
            Some(reason) => focus_failed_message(reason@),
            None => missing_result_message(),
        }),
{
    if let Some(reason) = error_message {
        let mut message = "Herdr pane focus failed: ".to_owned();
        message.append(reason.as_str());
        return Err(message);
    }
    if !has_result {
        return Err("Herdr pane focus response did not contain a result".to_owned());
    }
    Ok(())
}

/// The form of a listing's outcome: the ids, or the error's text.
pub open spec fn ids_result_view(result: Result<Vec<String>, String>) -> Result<Seq<Id>, Seq<char>> {
    match result {
        Ok(ids) => Ok(views(ids@)),
        Err(message) => Err(message@),
    }
}

/// The strings under `id_key` of the items of the list that `path` leads to
/// in `document`, each absent where the item has none; nothing where `path`
/// leads to no list.
pub open spec fn listed_texts(document: JsonView, path: Seq<Id>, id_key: Id) -> Option<Seq<Option<Id>>> {
    match at_path(document, path) {
        Some(JsonView::Array(items)) => Some(
            items.map_values(|item: JsonView| text_of(member(item, id_key))),
        ),
        _ => None,
    }
}

/// The ids of a listing, or the error that the listing earns.
pub open spec fn listing_result(texts: Option<Seq<Option<Id>>>, id_key: Id) -> Result<Seq<Id>, Seq<char>> {
    match texts {
        None => Err(missing_list_message()),
        Some(t) => if forall|i: int| 0 <= i < t.len() ==> #[trigger] t[i] is Some {
            Ok(t.map_values(|o: Option<Id>| o->0))
        } else {
            Err(missing_id_message(id_key))
        },
    }
}

/// The ids of the list that `path` leads to in a Herdr response, each the
/// item's string under `id_key`.
pub fn listed_ids(response: &Json, path: &Vec<String>, id_key: &str) -> (result: Result<Vec<String>, String>)
    ensures
        ids_result_view(result) == listing_result(listed_texts(response@, views(path@), id_key@), id_key@),
{
    let items = match follow_path(response, path) {
        Some(Json::Array(items)) => items,
        _ => {
            let result = ids_at(None, id_key);
            proof {
                assert(ids_result_view(result) == Err::<Seq<Id>, Seq<char>>(missing_list_message()));
            }
            return result;
        },
    };
    let ghost spec_items = crate::json::items_view(items@);
    proof {
        lemma_items_view(items@);
    }
    let mut texts: Vec<Option<String>> = Vec::new();
    let mut i: usize = 0;
    while i < items.len()
        invariant
            i <= items.len(),
            texts.len() == i,
            spec_items == crate::json::items_view(items@),
            spec_items.len() == items@.len(),
            forall|j: int| 0 <= j < items@.len() ==> #[trigger] spec_items[j] == items@[j]@,
            forall|j: int| 0 <= j < i ==> #[trigger] option_view(texts@[j]) == text_of(
                member(spec_items[j], id_key@),
            ),
        decreases items.len() - i,
    {
        texts.push(text_member(&items[i], id_key));
        i += 1;
    }
    let ghost t = spec_items.map_values(|item: JsonView| text_of(member(item, id_key@)));
    assert(listed_texts(response@, views(path@), id_key@) == Some(t));
    assert forall|j: int| 0 <= j < t.len() implies (#[trigger] t[j] is Some <==> texts@[j] is Some) by {
        assert(option_view(texts@[j]) == t[j]);
    }
    let result = ids_at(Some(texts), id_key);
    proof {
        if result is Ok {
            let ids = result->Ok_0;
            assert(views(ids@) =~= t.map_values(|o: Option<Id>| o->0)) by {
                assert forall|j: int| 0 <= j < t.len() implies views(ids@)[j] == t.map_values(
                    |o: Option<Id>| o->0,
                )[j] by {
                    assert(views(ids@)[j] == item_ids(texts@)[j]);
                    assert(option_view(texts@[j]) == t[j]);
                }
            }
        } else {
            if forall|j: int| 0 <= j < t.len() ==> #[trigger] t[j] is Some {
                assert forall|j: int| 0 <= j < texts@.len() implies #[trigger] texts@[j] is Some by {
                    assert(t[j] is Some);
                }
            }
        }
    }
    result
}

/// What a listed pane of a Herdr response says of itself.
pub open spec fn listed_pane_view(item: JsonView) -> PaneView {
    (text_of(member(item, "tab_id"@)), text_of(member(item, "pane_id"@)))
}

/// The panes of a Herdr response's `result.panes` list; nothing where it
/// has no such list.
pub open spec fn listed_pane_views(document: JsonView) -> Option<Seq<PaneView>> {
    match at_path(document, seq!["result"@, "panes"@]) {
        Some(JsonView::Array(items)) => Some(items.map_values(|item: JsonView| listed_pane_view(item))),
        _ => None,
    }
}

/// The ids of a tab's panes, or the error that the pane listing earns.
pub open spec fn pane_listing_result(panes: Option<Seq<PaneView>>, tab_id: Id) -> Result<Seq<Id>, Seq<char>> {
    match panes {
        None => Err(missing_pane_list_message()),
        Some(p) => if tab_panes_have_ids(p, tab_id) {
            Ok(tab_pane_ids(p, tab_id))
        } else {
            Err(missing_pane_id_message())
        },
    }
}

/// The ids of the panes in the tab `tab_id` that a `pane list` response
/// lists under `result.panes`, in listing order.
pub fn listed_panes(response: &Json, tab_id: &str) -> (result: Result<Vec<String>, String>)
    ensures
        ids_result_view(result) == pane_listing_result(listed_pane_views(response@), tab_id@),
{
    let path = vec!["result".to_owned(), "panes".to_owned()];
    proof {
        assert(views(path@) =~= seq!["result"@, "panes"@]);
    }
    let items = match follow_path(response, &path) {
        Some(Json::Array(items)) => items,
        _ => return panes_in_tab(None, tab_id),
    };
    let ghost spec_items = crate::json::items_view(items@);
    proof {
        lemma_items_view(items@);
    }
    let mut records: Vec<PaneRecord> = Vec::new();
    let mut i: usize = 0;
    while i < items.len()
        invariant
            i <= items.len(),
            records.len() == i,
            spec_items == crate::json::items_view(items@),
            spec_items.len() == items@.len(),
            forall|j: int| 0 <= j < items@.len() ==> #[trigger] spec_items[j] == items@[j]@,
            forall|j: int| 0 <= j < i ==> #[trigger] pane_view(records@[j]) == listed_pane_view(spec_items[j]),
        decreases items.len() - i,
    {
        let record = PaneRecord {
            tab_id: text_member(&items[i], "tab_id"),
            pane_id: text_member(&items[i], "pane_id"),
        };
        records.push(record);
        i += 1;
    }
    let ghost p = spec_items.map_values(|item: JsonView| listed_pane_view(item));
    assert(listed_pane_views(response@) == Some(p));
    assert(pane_views(records@) =~= p);
    panes_in_tab(Some(records), tab_id)
}

/// The text of the `error.message` string of a response, where it has one.
pub open spec fn error_text(document: JsonView) -> Option<Seq<char>> {
    match member(document, "error"@) {
        Some(error) => text_of(member(error, "message"@)),
        None => None,
    }
}

/// What a `pane.focus` response earns: its error message, else the lack of a
/// result, else success.
pub open spec fn focus_response_result(document: JsonView) -> Result<(), Seq<char>> {
    match error_text(document) {
        Some(reason) => Err(focus_failed_message(reason)),
        None => if member(document, "result"@) is Some {
            Ok(())
        } else {
            Err(missing_result_message())
        },
    }
}

/// Law: a `pane.focus` response whose `error.message` is a string is never
/// a success, whether or not it also has a result; a response is a success
/// exactly when it has no such message and has a result.
pub proof fn law_focus_error_is_never_success(document: JsonView)
    ensures
        (match member(document, "error"@) {
            Some(error) => text_of(member(error, "message"@)),
            None => None,
        }) matches Some(reason) ==> focus_response_result(document) == Err::<(), Seq<char>>(
            focus_failed_message(reason),
        ),
        focus_response_result(document) is Ok <==> (error_text(document) is None && member(
            document,
            "result"@,
        ) is Some),
        focus_response_result(document) is Err ==> error_text(document) is Some || member(
            document,
            "result"@,
        ) is None,
{
}

/// The form of an outcome without a value.
pub open spec fn unit_result_view(result: Result<(), String>) -> Result<(), Seq<char>> {
    match result {
        Ok(()) => Ok(()),
        Err(message) => Err(message@),
    }
}

/// Judges a parsed `pane.focus` response.
pub fn pane_focus_response_outcome(response: &Json) -> (result: Result<(), String>)
    ensures
        unit_result_view(result) == focus_response_result(response@),
{
    let error_message = match member_named(response, "error") {
        Some(error) => text_member(error, "message"),
        None => None,
    };
    let has_result = member_named(response, "result").is_some();
    pane_focus_outcome(error_message, has_result)
}

/// The message for a `pane.focus` reply that is not JSON.
pub open spec fn invalid_reply_message(error: Seq<char>) -> Seq<char> {
    "Herdr returned invalid pane focus JSON: "@ + error
}

/// Judges the raw text of the reply to a `pane.focus` request.
pub fn pane_focus_reply_outcome(reply: &str) -> (result: Result<(), String>)
    ensures
        unit_result_view(result) == match parsed_json(reply.spec_bytes()) {
            Ok(document) => focus_response_result(document),
            Err(error) => Err(invalid_reply_message(error)),
        },
{
    match parse_json(reply.as_bytes()) {
        Ok(document) => pane_focus_response_outcome(&document),
        Err(error) => {
            let mut message = "Herdr returned invalid pane focus JSON: ".to_owned();
            message.append(error.as_str());
            Err(message)
        },
    }
}

/// The message for a Herdr command whose output is not JSON; `command` is
/// how the message shows the command.
pub open spec fn invalid_output_message(command: Seq<char>, error: Seq<char>) -> Seq<char> {
    "Herdr command "@ + command + " returned invalid JSON: "@ + error
}

/// Parses the output of a Herdr command; `command` is how an error message
/// shows the command.
pub fn parse_herdr_output(command: &str, stdout: &[u8]) -> (result: Result<Json, String>)
    ensures
        match parsed_json(stdout@) {
            Ok(document) => result matches Ok(d) && d@ == document,
            Err(error) => result matches Err(message) && message@ == invalid_output_message(command@, error),
        },
{
    match parse_json(stdout) {
        Ok(document) => Ok(document),
        Err(error) => {
            let mut message = "Herdr command ".to_owned();
            message.append(command);
            message.append(" returned invalid JSON: ");
            message.append(error.as_str());
            Err(message)
        },
    }
}

/// Law: a listing whose items all have an id gives one id per item, in
/// order: the `i`-th id is the string of the `i`-th item. A listing with an
/// item without one, or with no list, is an error.
pub proof fn law_listing_has_one_id_per_item(texts: Seq<Option<Id>>, id_key: Id)
    ensures
        (forall|i: int| 0 <= i < texts.len() ==> #[trigger] texts[i] is Some) ==> (
        listing_result(Some(texts), id_key) matches Ok(ids) && ids.len() == texts.len() && forall|i: int|
            0 <= i < texts.len() ==> Some(#[trigger] ids[i]) == texts[i]),
        (exists|i: int| 0 <= i < texts.len() && #[trigger] texts[i] is None) ==> listing_result(
            Some(texts),
            id_key,
        ) == Err::<Seq<Id>, Seq<char>>(missing_id_message(id_key)),
        listing_result(None, id_key) == Err::<Seq<Id>, Seq<char>>(missing_list_message()),
{
    if forall|i: int| 0 <= i < texts.len() ==> #[trigger] texts[i] is Some {
        let ids = texts.map_values(|o: Option<Id>| o->0);
        assert forall|i: int| 0 <= i < texts.len() implies Some(#[trigger] ids[i]) == texts[i] by {
            assert(texts[i] is Some);
        }
    }
}

/// Law: a pane listing whose panes of the tab all have an id gives exactly
/// one id per listed pane of the tab, in listing order; every such pane's
/// id is in the result, and a pane of another tab adds nothing.
pub proof fn law_pane_listing_has_one_id_per_pane_of_the_tab(panes: Seq<PaneView>, x: PaneView, tab_id: Id)
    requires
        tab_panes_have_ids(panes, tab_id),
    ensures
        ({
            let of_tab = panes.filter(in_tab(tab_id));
            pane_listing_result(Some(panes), tab_id) matches Ok(ids) && ids.len() == of_tab.len() && (forall|k: int|
                0 <= k < of_tab.len() ==> Some(#[trigger] ids[k]) == of_tab[k].1) && (forall|i: int|
                0 <= i < panes.len() && panes[i].0 == Some(tab_id) ==> ids.contains(#[trigger] panes[i].1->0))
        }),
        pane_listing_result(Some(Seq::empty()), tab_id) == Ok::<Seq<Id>, Seq<char>>(Seq::empty()),
        x.0 != Some(tab_id) ==> pane_listing_result(Some(panes.push(x)), tab_id) == pane_listing_result(Some(panes), tab_id),
        (x.0 == Some(tab_id) && x.1 is Some) ==> pane_listing_result(Some(panes.push(x)), tab_id) == Ok::<
            Seq<Id>,
            Seq<char>,
        >(pane_listing_result(Some(panes), tab_id)->Ok_0.push(x.1->0)),
{
    let pred = in_tab(tab_id);
    let of_tab = panes.filter(pred);
    assert forall|k: int| 0 <= k < of_tab.len() implies (#[trigger] of_tab[k]).1 is Some by {
        assert(of_tab.contains(of_tab[k]));
        lemma_filter_contains_iff(panes, pred, of_tab[k]);
        let j = choose|j: int| 0 <= j < panes.len() && panes[j] == of_tab[k];
        assert(pred(panes[j]));
    }
    let ids = of_tab.map_values(|p: PaneView| p.1->0);
    assert(pane_listing_result(Some(panes), tab_id) == Ok::<Seq<Id>, Seq<char>>(ids));
    assert forall|k: int| 0 <= k < of_tab.len() implies Some(#[trigger] ids[k]) == of_tab[k].1 by {
        assert(of_tab[k].1 is Some);
    }
    assert forall|i: int| 0 <= i < panes.len() && panes[i].0 == Some(tab_id) implies ids.contains(
        #[trigger] panes[i].1->0,
    ) by {
        assert(pred(panes[i]));
        lemma_filter_contains_iff(panes, pred, panes[i]);
        assert(panes.contains(panes[i]));
        let k = choose|k: int| 0 <= k < of_tab.len() && of_tab[k] == panes[i];
        assert(ids[k] == panes[i].1->0);
    }
    reveal_with_fuel(Seq::filter, 1);
    assert(tab_panes_have_ids(Seq::empty(), tab_id));
    assert(tab_pane_ids(Seq::empty(), tab_id) =~= Seq::<Id>::empty());
    panes.lemma_filter_push(x, pred);
    let longer = panes.push(x);
    if x.0 != Some(tab_id) || x.1 is Some {
        assert forall|i: int| 0 <= i < longer.len() && #[trigger] pred(longer[i]) implies longer[i].1 is Some by {
            if i < panes.len() {
                assert(longer[i] == panes[i]);
            }
        }
        assert(tab_panes_have_ids(longer, tab_id));
    }
    if x.0 == Some(tab_id) && x.1 is Some {
        assert(tab_pane_ids(longer, tab_id) =~= ids.push(x.1->0));
    }
}

/// The form of the request that asks Herdr to focus the pane `pane_id`.
pub open spec fn pane_focus_request_view(pane_id: Seq<char>) -> JsonView {
    JsonView::Object(
        seq![
            ("id"@, JsonView::Str("plugin:last-tab:pane-focus"@)),
            ("method"@, JsonView::Str("pane.focus"@)),
            ("params"@, JsonView::Object(seq![("pane_id"@, JsonView::Str(pane_id))])),
        ],
    )
}

/// The `pane.focus` socket request for the pane `pane_id`.
pub fn pane_focus_request(pane_id: &str) -> (request: Json)
    ensures
        request@ == pane_focus_request_view(pane_id@),
{
    let params = vec![("pane_id".to_owned(), Json::Str(pane_id.to_owned()))];
    proof {
        lemma_members_view(params@);
        assert(crate::json::members_view(params@) =~= seq![("pane_id"@, JsonView::Str(pane_id@))]);
    }
    let members = vec![
        ("id".to_owned(), Json::Str("plugin:last-tab:pane-focus".to_owned())),
        ("method".to_owned(), Json::Str("pane.focus".to_owned())),
        ("params".to_owned(), Json::Object(params)),
    ];
    let request = Json::Object(members);
    proof {
        lemma_members_view(members@);
        assert(request@ == pane_focus_request_view(pane_id@)) by {
            assert(crate::json::members_view(members@) =~= seq![
                ("id"@, JsonView::Str("plugin:last-tab:pane-focus"@)),
                ("method"@, JsonView::Str("pane.focus"@)),
                ("params"@, JsonView::Object(seq![("pane_id"@, JsonView::Str(pane_id@))])),
            ]);
        }
    }
    request
}

} // verus!
