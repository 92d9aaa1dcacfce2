use serde_json::Value;
use herdr_last_tab::{
    pane_focus_request, listed_ids, listed_panes, pane_focus_reply_outcome, parse_herdr_output, toggle_pane_context,
    toggle_pane_target, toggle_tab_context, toggle_tab_target, HistoryStore, Json,
};

fn parse(text: &str) -> Json {
    parse_herdr_output("[\"tab\", \"list\"]", text.as_bytes()).unwrap()
}

fn path(keys: &[&str]) -> Vec<String> {
    keys.iter().map(|key| (*key).to_owned()).collect()
}

#[test]
fn herdr_output_is_parsed_into_a_document() {
    let document = parse(r#"{"result":{"tabs":[{"tab_id":"t1","n":2.5},{"tab_id":"t2"}]},"ok":true,"none":null}"#);
    match document {
        Json::Object(members) => {
            let keys: Vec<&str> = members.iter().map(|(key, _)| key.as_str()).collect();
            assert_eq!(keys, vec!["none", "ok", "result"]);
            assert!(matches!(members[0].1, Json::Null));
            assert!(matches!(members[1].1, Json::Bool(true)));
        }
        other => panic!("expected an object, got {other:?}"),
    }
}

#[test]
fn output_that_is_not_json_is_reported_with_the_command() {
    let error = parse_herdr_output("[\"tab\", \"list\"]", b"not json").unwrap_err();
    assert!(error.starts_with("Herdr command [\"tab\", \"list\"] returned invalid JSON: "));
    assert!(error.len() > "Herdr command [\"tab\", \"list\"] returned invalid JSON: ".len());
}

#[test]
fn listed_ids_follow_the_path_and_take_each_items_id() {
    let document = parse(r#"{"result":{"tabs":[{"tab_id":"t2"},{"tab_id":"t1","label":"x"}]}}"#);
    assert_eq!(
        listed_ids(&document, &path(&["result", "tabs"]), "tab_id"),
        Ok(vec!["t2".to_owned(), "t1".to_owned()])
    );
}

#[test]
fn listed_ids_report_a_missing_list_or_id() {
    let no_list = parse(r#"{"result":{"tabs":{"tab_id":"t1"}}}"#);
    assert_eq!(
        listed_ids(&no_list, &path(&["result", "tabs"]), "tab_id"),
        Err("Herdr response did not contain the expected list".to_owned())
    );
    let no_result = parse(r#"[1, 2]"#);
    assert_eq!(
        listed_ids(&no_result, &path(&["result", "tabs"]), "tab_id"),
        Err("Herdr response did not contain the expected list".to_owned())
    );
    let number_id = parse(r#"{"result":{"tabs":[{"tab_id":"t1"},{"tab_id":7}]}}"#);
    assert_eq!(
        listed_ids(&number_id, &path(&["result", "tabs"]), "tab_id"),
        Err("Herdr response contained an item without tab_id".to_owned())
    );
}

#[test]
fn listed_panes_keep_only_the_tabs_panes() {
    let document = parse(
        r#"{"result":{"panes":[{"tab_id":"a","pane_id":"p1"},{"tab_id":"b","pane_id":"p2"},{"tab_id":"b"},{"tab_id":1,"pane_id":"p4"},{"tab_id":"a","pane_id":"p3"}]}}"#,
    );
    assert_eq!(listed_panes(&document, "a"), Ok(vec!["p1".to_owned(), "p3".to_owned()]));
    assert_eq!(
        listed_panes(&document, "b"),
        Err("Herdr response contained a pane without pane_id".to_owned())
    );
    assert_eq!(
        listed_panes(&parse(r#"{"result":{}}"#), "a"),
        Err("Herdr response did not contain a pane list".to_owned())
    );
}

#[test]
fn pane_focus_replies_are_judged_from_their_text() {
    assert_eq!(pane_focus_reply_outcome("{\"id\":\"x\",\"result\":{}}\n"), Ok(()));
    assert_eq!(pane_focus_reply_outcome("{\"result\":null}"), Ok(()));
    assert_eq!(
        pane_focus_reply_outcome(r#"{"error":{"message":"no such pane"},"result":{}}"#),
        Err("Herdr pane focus failed: no such pane".to_owned())
    );
    assert_eq!(
        pane_focus_reply_outcome(r#"{"error":{"code":3}}"#),
        Err("Herdr pane focus response did not contain a result".to_owned())
    );
    let invalid = pane_focus_reply_outcome("{").unwrap_err();
    assert!(invalid.starts_with("Herdr returned invalid pane focus JSON: "));
}

#[test]
fn toggle_contexts_are_checked_in_order() {
    let some = |s: &str| Some(s.to_owned());
    assert_eq!(
        toggle_tab_context(some("w"), some("t")),
        Ok(("w".to_owned(), "t".to_owned()))
    );
    assert_eq!(
        toggle_tab_context(None, None),
        Err("the action requires a workspace context".to_owned())
    );
    assert_eq!(
        toggle_tab_context(some("w"), some("")),
        Err("the action requires a tab context".to_owned())
    );
    assert_eq!(
        toggle_pane_context(some("w"), some("t"), some("env"), some("ctx")),
        Ok(("w".to_owned(), "t".to_owned(), "env".to_owned()))
    );
    assert_eq!(
        toggle_pane_context(some("w"), some("t"), None, some("ctx")),
        Ok(("w".to_owned(), "t".to_owned(), "ctx".to_owned()))
    );
    assert_eq!(
        toggle_pane_context(some("w"), some("t"), some(""), some("ctx")),
        Err("the action requires a focused pane context".to_owned())
    );
}

#[test]
fn toggle_targets_come_from_the_listing_and_the_history() {
    let mut history = HistoryStore::default();
    history.observe_tab("w", "t1");
    history.observe_tab("w", "t2");
    let tabs = parse(r#"{"result":{"tabs":[{"tab_id":"t1"},{"tab_id":"t2"}]}}"#);
    assert_eq!(toggle_tab_target(&mut history, "w", "t2", &tabs), Ok(Some("t1".to_owned())));
    let broken = parse(r#"{"result":{"tabs":[{"id":"t1"}]}}"#);
    assert_eq!(
        toggle_tab_target(&mut history, "w", "t2", &broken),
        Err("Herdr response contained an item without tab_id".to_owned())
    );

    history.observe_pane("t1", "p1");
    history.observe_pane("t1", "p2");
    let panes = parse(r#"{"result":{"panes":[{"tab_id":"t1","pane_id":"p2"},{"tab_id":"t9","pane_id":"p1"}]}}"#);
    assert_eq!(toggle_pane_target(&mut history, "t1", "p2", &panes), Ok(None));
    assert_eq!(history.pane_history_list(), vec![("t1".to_owned(), vec!["p2".to_owned()])]);
}

fn value(document: Json) -> Value {
    match document {
        Json::Null => Value::Null,
        Json::Bool(b) => Value::Bool(b),
        Json::Number(n) => serde_json::from_str(&n).unwrap(),
        Json::Str(s) => Value::String(s),
        Json::Array(items) => Value::Array(items.into_iter().map(value).collect()),
        Json::Object(members) => {
            Value::Object(members.into_iter().map(|(key, member)| (key, value(member))).collect())
        }
    }
}

#[test]
fn pane_focus_request_uses_the_v0_9_wire_method_and_target() {
    let request = value(pane_focus_request("workspace:tab:pane"));

    assert_eq!(request["method"], "pane.focus");
    assert_eq!(request["params"]["pane_id"], "workspace:tab:pane");
}

#[test]
fn pane_focus_request_has_the_plugins_id() {
    let request = value(pane_focus_request("p"));
    assert_eq!(
        serde_json::to_string(&request).unwrap(),
        r#"{"id":"plugin:last-tab:pane-focus","method":"pane.focus","params":{"pane_id":"p"}}"#
    );
}
