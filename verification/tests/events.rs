use herdr_last_tab::{decode_focus_event, event_error_message, EventData, EventEnvelope, EventError, FocusEvent};
use serde_json::Value;

fn text(value: &Value, key: &str) -> Option<String> {
    value.get(key).and_then(Value::as_str).map(str::to_owned)
}

fn envelope(json: &str) -> EventEnvelope {
    let value: Value = serde_json::from_str(json).unwrap();
    let data = &value["data"];
    EventEnvelope {
        event: text(&value, "event").unwrap(),
        data: EventData {
            kind: text(data, "type").unwrap(),
            workspace_id: text(data, "workspace_id").unwrap(),
            tab_id: text(data, "tab_id"),
            pane_id: text(data, "pane_id"),
        },
    }
}

#[test]
fn parses_pane_focused_event_payload() {
    let event = decode_focus_event(
        "pane.focused",
        envelope(r#"{"event":"pane_focused","data":{"type":"pane_focused","pane_id":"pane-2","workspace_id":"workspace"}}"#),
    )
    .unwrap();

    assert!(matches!(event, FocusEvent::Pane { pane_id } if pane_id == "pane-2"));
}

#[test]
fn parses_tab_focused_event_payload() {
    let event = decode_focus_event(
        "tab.focused",
        envelope(r#"{"event":"tab_focused","data":{"type":"tab_focused","tab_id":"tab-2","workspace_id":"workspace"}}"#),
    )
    .unwrap();

    assert!(
        matches!(event, FocusEvent::Tab { workspace_id, tab_id } if workspace_id == "workspace" && tab_id == "tab-2")
    );
}

#[test]
fn rejects_event_payload_with_a_different_kind() {
    assert!(decode_focus_event(
        "pane.focused",
        envelope(r#"{"event":"tab_focused","data":{"type":"tab_focused","tab_id":"tab","workspace_id":"workspace"}}"#),
    )
    .is_err());
}

#[test]
fn each_event_error_has_an_input() {
    let mismatch = decode_focus_event(
        "tab.focused",
        envelope(r#"{"event":"tab_focused","data":{"type":"pane_focused","tab_id":"t","workspace_id":"w"}}"#),
    );
    assert_eq!(mismatch.unwrap_err(), EventError::PayloadMismatch);
    let no_tab = decode_focus_event(
        "tab.focused",
        envelope(r#"{"event":"tab_focused","data":{"type":"tab_focused","workspace_id":"w"}}"#),
    );
    assert_eq!(no_tab.unwrap_err(), EventError::MissingTabId);
    let no_pane = decode_focus_event(
        "pane.focused",
        envelope(r#"{"event":"pane_focused","data":{"type":"pane_focused","workspace_id":"w"}}"#),
    );
    assert_eq!(no_pane.unwrap_err(), EventError::MissingPaneId);
    let unsupported = decode_focus_event(
        "workspace.focused",
        envelope(r#"{"event":"workspace_focused","data":{"type":"workspace_focused","workspace_id":"w"}}"#),
    );
    assert_eq!(unsupported.unwrap_err(), EventError::Unsupported);
}

#[test]
fn every_dot_of_the_event_name_becomes_an_underscore() {
    let odd = decode_focus_event(
        "a.b.c",
        envelope(r#"{"event":"a_b_c","data":{"type":"a_b_c","workspace_id":"w"}}"#),
    );
    assert_eq!(odd.unwrap_err(), EventError::Unsupported);
    let kept_dot = decode_focus_event(
        "a.b.c",
        envelope(r#"{"event":"a.b_c","data":{"type":"a_b_c","workspace_id":"w"}}"#),
    );
    assert_eq!(kept_dot.unwrap_err(), EventError::PayloadMismatch);
}

#[test]
fn event_errors_have_the_plugins_messages() {
    assert_eq!(
        event_error_message(EventError::PayloadMismatch, "pane.focused"),
        "plugin event payload does not match pane.focused"
    );
    assert_eq!(
        event_error_message(EventError::MissingTabId, "tab.focused"),
        "tab.focused event has no tab_id"
    );
    assert_eq!(
        event_error_message(EventError::MissingPaneId, "pane.focused"),
        "pane.focused event has no pane_id"
    );
    assert_eq!(
        event_error_message(EventError::Unsupported, "odd \"name\""),
        "unsupported plugin event \"odd \\\"name\\\"\""
    );
}
