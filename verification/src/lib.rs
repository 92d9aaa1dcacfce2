//! Most-recently-used focus history for Herdr tabs and panes.
//!
//! Tab histories are kept per workspace and pane histories per tab. Every
//! focus observation moves the observed id to the most recent end of its
//! history; a toggle request prunes closed ids and answers with the most
//! recent live id other than the current one.

pub mod mru;
pub mod history;
pub mod text;
pub mod context;
pub mod event;
pub mod herdr;
pub mod json;
pub mod toggle;

pub use history::{record_focus_event, HistoryStore};
pub use context::required_context_value;
pub use event::{decode_focus_event, event_error_message, EventData, EventEnvelope, EventError, FocusEvent};
pub use herdr::{
    ids_at, listed_ids, listed_panes, pane_focus_outcome, pane_focus_reply_outcome, pane_focus_request,
    pane_focus_response_outcome, panes_in_tab, parse_herdr_output, PaneRecord,
};
pub use json::Json;
pub use toggle::{toggle_pane_context, toggle_pane_target, toggle_tab_context, toggle_tab_target};
