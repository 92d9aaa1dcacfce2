//! Focus events that Herdr hands to the plugin, checked against the event
//! name under which they arrive.

use vstd::prelude::*;
use crate::text::same_text;

verus! {

/// A focus change that the histories record.
#[derive(Debug)]
pub enum FocusEvent {
    Tab { workspace_id: String, tab_id: String },
    Pane { pane_id: String },
}

/// The `data` object of an event payload.
pub struct EventData {
    /// The payload's `type` field.
    pub kind: String,
    pub workspace_id: String,
    pub tab_id: Option<String>,
    pub pane_id: Option<String>,
}

/// An event payload: the event's kind and its data.
pub struct EventEnvelope {
    pub event: String,
    pub data: EventData,
}

/// Why a payload does not make a focus event.
#[derive(Debug, Clone, Copy, PartialEq, Eq, Structural)]
pub enum EventError {
    /// The payload's kinds differ from the one the event name gives.
    PayloadMismatch,
    /// A `tab.focused` payload without `tab_id`.
    MissingTabId,
    /// A `pane.focused` payload without `pane_id`.
    MissingPaneId,
    /// An event name other than `tab.focused` and `pane.focused`.
    Unsupported,
}

/// The kind that payloads of the event `event_name` carry: the name with
/// each `.` replaced by `_`.
pub open spec fn event_kind(event_name: Seq<char>) -> Seq<char> {
    event_name.map_values(|c: char| if c == '.' { '_' } else { c })
}

/// The focus event that a payload makes under the name `event_name`, or why
/// it makes none.
pub open spec fn decoded_event(event_name: Seq<char>, envelope: EventEnvelope) -> Result<FocusEvent, EventError> {
    if envelope.event@ != event_kind(event_name) || envelope.data.kind@ != event_kind(event_name) {
        Err(EventError::PayloadMismatch)
    } else if event_name == "tab.focused"@ {
        match envelope.data.tab_id {
            Some(tab_id) => Ok(FocusEvent::Tab { workspace_id: envelope.data.workspace_id, tab_id }),
            None => Err(EventError::MissingTabId),
        }
    } else if event_name == "pane.focused"@ {
        match envelope.data.pane_id {
            Some(pane_id) => Ok(FocusEvent::Pane { pane_id }),
            None => Err(EventError::MissingPaneId),
        }
    } else {
        Err(EventError::Unsupported)
    }
}

/// Whether `kind` is the payload kind of the event `event_name`.
pub fn is_event_kind(event_name: &str, kind: &str) -> (matches: bool)
    ensures
        matches == (kind@ == event_kind(event_name@)),
{
    let n = event_name.unicode_len();
    if n != kind.unicode_len() {
        return false;
    }
    let mut i: usize = 0;
    while i < n
        invariant
            n == event_name@.len(),
            n == kind@.len(),
            i <= n,
            forall|j: int| 0 <= j < i ==> kind@[j] == event_kind(event_name@)[j],
        decreases n - i,
    {
        let c = event_name.get_char(i);
        let expected = if c == '.' { '_' } else { c };
        if kind.get_char(i) != expected {
            return false;
        }
        i += 1;
    }
    assert(kind@ =~= event_kind(event_name@));
    true
}

/// Checks a payload that arrived under the event name `event_name` and
/// turns it into the focus event it reports.
pub fn decode_focus_event(event_name: &str, envelope: EventEnvelope) -> (result: Result<FocusEvent, EventError>)
    ensures
        result == decoded_event(event_name@, envelope),
{
    if !is_event_kind(event_name, envelope.event.as_str()) || !is_event_kind(event_name, envelope.data.kind.as_str()) {
        return Err(EventError::PayloadMismatch);
    }
    if same_text(event_name, "tab.focused") {
        match envelope.data.tab_id {
            Some(tab_id) => Ok(FocusEvent::Tab { workspace_id: envelope.data.workspace_id, tab_id }),
            None => Err(EventError::MissingTabId),
        }
    } else if same_text(event_name, "pane.focused") {
        match envelope.data.pane_id {
            Some(pane_id) => Ok(FocusEvent::Pane { pane_id }),
            None => Err(EventError::MissingPaneId),
        }
    } else {
        Err(EventError::Unsupported)
    }
}

/// What `{:?}` prints for a string: the characters in double quotes, with
/// the escapes of `str::escape_debug`.
pub uninterp spec fn debug_form(text: Seq<char>) -> Seq<char>;

/// Formats `text` with `{:?}`, the `Debug` form of a `str`. Claimed, not
/// proved: the result is `debug_form(text)`, a function of the characters alone.
#[verifier::external_body]
fn debug_text(text: &str) -> (form: String)
    ensures
        form@ == debug_form(text@),
{
    format!("{text:?}")
}

/// The message that reports `error` for the event named `event_name`.
pub open spec fn event_error_text(error: EventError, event_name: Seq<char>) -> Seq<char> {
    match error {
        EventError::PayloadMismatch => "plugin event payload does not match "@ + event_name,
        EventError::MissingTabId => "tab.focused event has no tab_id"@,
        EventError::MissingPaneId => "pane.focused event has no pane_id"@,
        EventError::Unsupported => "unsupported plugin event "@ + debug_form(event_name),
    }
}

/// The message that reports `error` for the event named `event_name`.
pub fn event_error_message(error: EventError, event_name: &str) -> (message: String)
    ensures
        message@ == event_error_text(error, event_name@),
{
    match error {
        EventError::PayloadMismatch => {
            let mut message = "plugin event payload does not match ".to_owned();
            message.append(event_name);
            message
        },
        EventError::MissingTabId => "tab.focused event has no tab_id".to_owned(),
        EventError::MissingPaneId => "pane.focused event has no pane_id".to_owned(),
        EventError::Unsupported => {
            let mut message = "unsupported plugin event ".to_owned();
            message.append(debug_text(event_name).as_str());
            message
        },
    }
}

} // verus!
