use storm_switch::json::{battle_net_saved_account_names, battle_net_single_instance_value};

#[test]
fn reads_string_single_instance_value() {
    let content = r#"{"Client":{"SingleInstance":"false"}}"#;

    assert_eq!(battle_net_single_instance_value(content), Some(false));
}

#[test]
fn reads_boolean_single_instance_value() {
    let content = r#"{"Client":{"SingleInstance":true}}"#;

    assert_eq!(battle_net_single_instance_value(content), Some(true));
}

#[test]
fn returns_none_when_single_instance_is_missing() {
    let content = r#"{"Client":{"Locale":"zhCN"}}"#;

    assert_eq!(battle_net_single_instance_value(content), None);
}

#[test]
fn reads_saved_account_names() {
    let content = r#"{"Client":{"SavedAccountNames":"one@example.com,two@example.com"}}"#;

    assert_eq!(
        battle_net_saved_account_names(content),
        vec!["one@example.com", "two@example.com"]
    );
}

#[test]
fn reads_saved_account_names_from_arrays() {
    let content = r#"{"Client":{"SavedAccountNames":["one@example.com", "two@example.com"]}}"#;

    assert_eq!(
        battle_net_saved_account_names(content),
        vec!["one@example.com", "two@example.com"]
    );
}
