use herdr_last_tab::required_context_value;

#[test]
fn present_context_values_are_returned() {
    assert_eq!(
        required_context_value("tab", Some("tab-1".to_owned())),
        Ok("tab-1".to_owned())
    );
}

#[test]
fn missing_or_empty_context_values_are_refused() {
    let expected = Err("the action requires a focused pane context".to_owned());
    assert_eq!(required_context_value("focused pane", None), expected);
    assert_eq!(required_context_value("focused pane", Some(String::new())), expected);
}
