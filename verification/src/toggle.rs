//! The decisions of the two toggle actions: which context values they need,
//! and which tab or pane they focus given Herdr's listing.

use vstd::prelude::*;
use crate::context::{missing_context_message, required_context_value};
use crate::herdr::{
    listed_ids, listed_pane_views, listed_panes, listed_texts, listing_result, pane_listing_result,
};
use crate::history::{history_of, option_view, HistoryStore};
use crate::json::Json;
use crate::mru::{latest_other, pruned, views};

verus! {

/// Whether a context value is present and non-empty.
pub open spec fn is_given(value: Option<String>) -> bool {
    value is Some && value->0@.len() > 0
}

/// The workspace and the current tab of a `toggle-tab` invocation, checked
/// in that order.
pub fn toggle_tab_context(workspace_id: Option<String>, tab_id: Option<String>) -> (result: Result<(String, String), String>)
    ensures
        result is Ok <==> (is_given(workspace_id) && is_given(tab_id)),
        result matches Ok((w, t)) ==> workspace_id == Some(w) && tab_id == Some(t),
        result matches Err(message) ==> message@ == missing_context_message(
            if !is_given(workspace_id) { "workspace"@ } else { "tab"@ },
        ),
{
    let workspace_id = required_context_value("workspace", workspace_id)?;
    let tab_id = required_context_value("tab", tab_id)?;
    Ok((workspace_id, tab_id))
}

/// The focused pane of a `toggle-pane` invocation: the pane that the
/// environment names, where it names one, else the context's focused pane.
pub open spec fn focused_pane(pane_from_environment: Option<String>, focused_pane_id: Option<String>) -> Option<String> {
    if pane_from_environment is Some {
        pane_from_environment
    } else {
        focused_pane_id
    }
}

/// The workspace, the tab and the focused pane of a `toggle-pane`
/// invocation, checked in that order.
pub fn toggle_pane_context(
    workspace_id: Option<String>,
    tab_id: Option<String>,
    pane_from_environment: Option<String>,
    focused_pane_id: Option<String>,
) -> (result: Result<(String, String, String), String>)
    ensures
        result is Ok <==> (is_given(workspace_id) && is_given(tab_id) && is_given(
            focused_pane(pane_from_environment, focused_pane_id),
        )),
        result matches Ok((w, t, p)) ==> workspace_id == Some(w) && tab_id == Some(t) && focused_pane(
            pane_from_environment,
            focused_pane_id,
        ) == Some(p),
        result matches Err(message) ==> message@ == missing_context_message(
            if !is_given(workspace_id) {
                "workspace"@
            } else if !is_given(tab_id) {
                "tab"@
            } else {
                "focused pane"@
            },
        ),
{
    let workspace_id = required_context_value("workspace", workspace_id)?;
    let tab_id = required_context_value("tab", tab_id)?;
    let pane = match pane_from_environment {
        Some(pane) => Some(pane),
        None => focused_pane_id,
    };
    let pane_id = required_context_value("focused pane", pane)?;
    Ok((workspace_id, tab_id, pane_id))
}

/// The tab that `toggle-tab` focuses, given the `tab list` response of the
/// workspace: the most recent live tab other than the current one, after the
/// workspace's history is pruned to the listed tabs. A listing without the
/// tabs' ids is an error, and leaves the history as it was.
pub fn toggle_tab_target(
    history: &mut HistoryStore,
    workspace_id: &str,
    current_tab_id: &str,
    tabs: &Json,
) -> (result: Result<Option<String>, String>)
    ensures
        final(history).pane_histories() == old(history).pane_histories(),
        ({
            let listing = listing_result(
                listed_texts(tabs@, seq!["result"@, "tabs"@], "tab_id"@),
                "tab_id"@,
            );
            match listing {
                Err(message) => {
                    &&& result matches Err(m) && m@ == message
                    &&& final(history).tab_histories() == old(history).tab_histories()
                },
                Ok(live) => {
                    let kept = pruned(history_of(old(history).tab_histories(), workspace_id@), live);
                    &&& result matches Ok(target) && option_view(target) == latest_other(kept, current_tab_id@)
                    &&& final(history).tab_histories() == old(history).tab_histories().insert(workspace_id@, kept)
                },
            }
        }),
{
    let path = vec!["result".to_owned(), "tabs".to_owned()];
    proof {
        assert(views(path@) =~= seq!["result"@, "tabs"@]);
    }
    let live = listed_ids(tabs, &path, "tab_id")?;
    Ok(history.previous_tab(workspace_id, current_tab_id, live))
}

/// The pane that `toggle-pane` focuses, given the `pane list` response: the
/// most recent live pane of the tab other than the current one, after the
/// tab's history is pruned to the tab's listed panes. A listing without the
/// panes' ids is an error, and leaves the history as it was.
pub fn toggle_pane_target(
    history: &mut HistoryStore,
    tab_id: &str,
    current_pane_id: &str,
    panes: &Json,
) -> (result: Result<Option<String>, String>)
    ensures
        final(history).tab_histories() == old(history).tab_histories(),
        match pane_listing_result(listed_pane_views(panes@), tab_id@) {
            Err(message) => {
                &&& result matches Err(m) && m@ == message
                &&& final(history).pane_histories() == old(history).pane_histories()
            },
            Ok(live) => {
                let kept = pruned(history_of(old(history).pane_histories(), tab_id@), live);
                &&& result matches Ok(target) && option_view(target) == latest_other(kept, current_pane_id@)
                &&& final(history).pane_histories() == old(history).pane_histories().insert(tab_id@, kept)
            },
        },
{
    let live = listed_panes(panes, tab_id)?;
    Ok(history.previous_pane(tab_id, current_pane_id, live))
}

} // verus!
