use herdr_last_tab::{ids_at, pane_focus_outcome, panes_in_tab, PaneRecord};

fn pane(tab_id: Option<&str>, pane_id: Option<&str>) -> PaneRecord {
    PaneRecord { tab_id: tab_id.map(str::to_owned), pane_id: pane_id.map(str::to_owned) }
}

#[test]
fn listed_ids_are_collected_in_order() {
    let items = vec![Some("t2".to_owned()), Some("t1".to_owned())];
    assert_eq!(ids_at(Some(items), "tab_id"), Ok(vec!["t2".to_owned(), "t1".to_owned()]));
    assert_eq!(ids_at(Some(Vec::new()), "tab_id"), Ok(Vec::new()));
}

#[test]
fn listing_errors_name_what_is_missing() {
    assert_eq!(
        ids_at(None, "tab_id"),
        Err("Herdr response did not contain the expected list".to_owned())
    );
    assert_eq!(
        ids_at(Some(vec![Some("t1".to_owned()), None]), "tab_id"),
        Err("Herdr response contained an item without tab_id".to_owned())
    );
}

#[test]
fn only_panes_of_the_tab_are_listed() {
    let panes = vec![
        pane(Some("a"), Some("p1")),
        pane(Some("b"), Some("p2")),
        pane(None, None),
        pane(Some("a"), Some("p3")),
        pane(Some("b"), None),
    ];
    assert_eq!(panes_in_tab(Some(panes), "a"), Ok(vec!["p1".to_owned(), "p3".to_owned()]));
}

#[test]
fn pane_listing_errors() {
    assert_eq!(
        panes_in_tab(None, "a"),
        Err("Herdr response did not contain a pane list".to_owned())
    );
    assert_eq!(
        panes_in_tab(Some(vec![pane(Some("a"), None)]), "a"),
        Err("Herdr response contained a pane without pane_id".to_owned())
    );
}

#[test]
fn pane_focus_responses_are_judged() {
    assert_eq!(pane_focus_outcome(None, true), Ok(()));
    assert_eq!(
        pane_focus_outcome(Some("no such pane".to_owned()), true),
        Err("Herdr pane focus failed: no such pane".to_owned())
    );
    assert_eq!(
        pane_focus_outcome(None, false),
        Err("Herdr pane focus response did not contain a result".to_owned())
    );
}
