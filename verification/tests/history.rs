use herdr_last_tab::{record_focus_event, FocusEvent, HistoryStore};

fn ids(values: &[&str]) -> Vec<String> {
    values.iter().map(|value| (*value).to_owned()).collect()
}

fn sorted(mut pairs: Vec<(String, Vec<String>)>) -> Vec<(String, Vec<String>)> {
    pairs.sort();
    pairs
}

#[test]
fn focus_history_toggles_panes_that_were_focused_between_actions() {
    let mut history = HistoryStore::default();
    history.observe_pane("tab", "one");
    history.observe_pane("tab", "two");
    history.observe_pane("tab", "three");

    assert_eq!(
        history.previous_pane("tab", "three", ids(&["one", "two", "three"])),
        Some("two".into())
    );
}

#[test]
fn repeated_event_replay_keeps_a_single_mru_entry() {
    let mut history = HistoryStore::default();
    history.observe_pane("tab", "one");
    history.observe_pane("tab", "two");
    history.observe_pane("tab", "two");

    assert_eq!(
        history.previous_pane("tab", "two", ids(&["one", "two"])),
        Some("one".into())
    );
}

#[test]
fn tab_history_is_updated_by_focus_observations() {
    let mut history = HistoryStore::default();
    history.observe_tab("workspace", "one");
    history.observe_tab("workspace", "two");

    assert_eq!(
        history.previous_tab("workspace", "two", ids(&["one", "two"])),
        Some("one".into())
    );
}

#[test]
fn closed_objects_are_pruned_before_selecting_a_target() {
    let mut history = HistoryStore::default();
    history.observe_tab("workspace", "one");
    history.observe_tab("workspace", "two");

    assert_eq!(
        history.previous_tab("workspace", "one", ids(&["one"])),
        None
    );
}

#[test]
fn pane_history_is_scoped_to_the_current_tab() {
    let mut history = HistoryStore::default();
    history.observe_pane("tab-one", "one");
    history.observe_pane("tab-two", "two");

    assert_eq!(history.previous_pane("tab-one", "one", ids(&["one"])), None);
}

#[test]
fn observing_moves_an_id_to_the_most_recent_end_once() {
    let mut history = HistoryStore::default();
    history.observe_tab("ws", "a");
    history.observe_tab("ws", "b");
    history.observe_tab("ws", "c");
    history.observe_tab("ws", "a");
    assert_eq!(
        history.tab_history_list(),
        vec![("ws".to_owned(), ids(&["b", "c", "a"]))]
    );
}

#[test]
fn replaying_an_observation_changes_nothing() {
    let mut once = HistoryStore::default();
    once.observe_pane("tab", "x");
    once.observe_pane("tab", "y");
    let mut twice = HistoryStore::default();
    twice.observe_pane("tab", "x");
    twice.observe_pane("tab", "y");
    twice.observe_pane("tab", "y");
    assert_eq!(once.pane_history_list(), twice.pane_history_list());
}

#[test]
fn toggling_returns_to_the_previous_focus_and_back() {
    let mut history = HistoryStore::default();
    history.observe_tab("ws", "a");
    history.observe_tab("ws", "b");
    let target = history.previous_tab("ws", "b", ids(&["a", "b"]));
    assert_eq!(target, Some("a".to_owned()));
    history.observe_tab("ws", "a");
    assert_eq!(history.previous_tab("ws", "a", ids(&["a", "b"])), Some("b".to_owned()));
}

#[test]
fn pruning_removes_closed_ids_from_the_stored_history() {
    let mut history = HistoryStore::default();
    history.observe_tab("ws", "a");
    history.observe_tab("ws", "b");
    history.observe_tab("ws", "c");
    assert_eq!(history.previous_tab("ws", "c", ids(&["c", "a", "z"])), Some("a".to_owned()));
    assert_eq!(history.tab_history_list(), vec![("ws".to_owned(), ids(&["a", "c"]))]);
    // A second toggle request against the same live ids gives the same answer.
    assert_eq!(history.previous_tab("ws", "c", ids(&["c", "a", "z"])), Some("a".to_owned()));
    assert_eq!(history.tab_history_list(), vec![("ws".to_owned(), ids(&["a", "c"]))]);
}

#[test]
fn target_skips_the_current_id_wherever_it_stands() {
    let mut history = HistoryStore::default();
    history.observe_pane("t", "a");
    history.observe_pane("t", "b");
    assert_eq!(history.previous_pane("t", "a", ids(&["a", "b"])), Some("b".to_owned()));
    assert_eq!(history.previous_pane("t", "zzz", ids(&["a", "b"])), Some("b".to_owned()));
}

#[test]
fn asking_for_an_unknown_scope_records_an_empty_history() {
    let mut history = HistoryStore::default();
    assert_eq!(history.previous_tab("fresh", "t", ids(&["t"])), None);
    assert_eq!(history.tab_history_list(), vec![("fresh".to_owned(), Vec::new())]);
    assert!(history.pane_history_list().is_empty());
}

#[test]
fn tab_and_pane_histories_do_not_share_keys() {
    let mut history = HistoryStore::default();
    history.observe_tab("same", "tab-1");
    history.observe_pane("same", "pane-1");
    assert_eq!(history.tab_history_list(), vec![("same".to_owned(), ids(&["tab-1"]))]);
    assert_eq!(history.pane_history_list(), vec![("same".to_owned(), ids(&["pane-1"]))]);
}

#[test]
fn stored_histories_can_be_set_and_listed() {
    let mut history = HistoryStore::default();
    history.set_tab_history("w1", ids(&["a", "b"]));
    history.set_tab_history("w2", ids(&["c"]));
    history.set_tab_history("w1", ids(&["d"]));
    history.set_pane_history("t1", ids(&["p"]));
    assert_eq!(
        sorted(history.tab_history_list()),
        vec![("w1".to_owned(), ids(&["d"])), ("w2".to_owned(), ids(&["c"]))]
    );
    assert_eq!(history.pane_history_list(), vec![("t1".to_owned(), ids(&["p"]))]);
    assert_eq!(history.previous_tab("w2", "x", ids(&["c"])), Some("c".to_owned()));
}

#[test]
fn focus_events_are_recorded_in_their_scope() {
    let mut history = HistoryStore::default();
    let tab = FocusEvent::Tab { workspace_id: "ws".to_owned(), tab_id: "t1".to_owned() };
    assert_eq!(record_focus_event(&mut history, tab, None), Ok(()));
    let pane = FocusEvent::Pane { pane_id: "p1".to_owned() };
    assert_eq!(record_focus_event(&mut history, pane, Some("t1".to_owned())), Ok(()));
    assert_eq!(history.tab_history_list(), vec![("ws".to_owned(), ids(&["t1"]))]);
    assert_eq!(history.pane_history_list(), vec![("t1".to_owned(), ids(&["p1"]))]);
    let orphan = FocusEvent::Pane { pane_id: "p2".to_owned() };
    assert_eq!(
        record_focus_event(&mut history, orphan, Some(String::new())),
        Err("the action requires a tab context".to_owned())
    );
    assert_eq!(history.pane_history_list(), vec![("t1".to_owned(), ids(&["p1"]))]);
}

#[test]
fn a_pane_pruned_as_closed_is_not_selected_until_observed_again() {
    let mut history = HistoryStore::default();
    history.observe_pane("t", "a");
    history.observe_pane("t", "b");
    history.observe_pane("t", "c");
    assert_eq!(history.previous_pane("t", "c", ids(&["a", "c"])), Some("a".to_owned()));
    history.observe_pane("other", "x");
    assert_eq!(history.previous_pane("t", "a", ids(&["a", "b", "c"])), Some("c".to_owned()));
    assert_eq!(history.previous_pane("t", "c", ids(&["a", "b", "c"])), Some("a".to_owned()));
    assert_eq!(history.pane_history_list()[0].0, "t");
    history.observe_pane("t", "b");
    assert_eq!(history.previous_pane("t", "a", ids(&["a", "b", "c"])), Some("b".to_owned()));
}
