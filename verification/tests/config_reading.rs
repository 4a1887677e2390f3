use storm_switch::json::{
    battle_net_saved_account_names, battle_net_single_instance_value, find_saved_account_names_value,
    find_single_instance_value, first_saved_account_name, parse_account_names, parse_boolish_value,
};
use storm_switch::switcher::BattleNetCore;

fn value(text: &str) -> serde_json::Value {
    serde_json::from_str(text).unwrap()
}

fn switcher() -> BattleNetCore {
    BattleNetCore::new("app".to_string(), "data".to_string(), "app/Battle.net.config".to_string())
}

#[test]
fn single_instance_text_is_trimmed_and_case_folded() {
    assert_eq!(battle_net_single_instance_value(r#"{"SingleInstance":"  TRUE \n"}"#), Some(true));
    assert_eq!(battle_net_single_instance_value(r#"{"SingleInstance":"False"}"#), Some(false));
}

#[test]
fn single_instance_that_is_not_a_flag_reads_as_nothing() {
    assert_eq!(battle_net_single_instance_value(r#"{"SingleInstance":1}"#), None);
    assert_eq!(battle_net_single_instance_value(r#"{"SingleInstance":"yes"}"#), None);
}

#[test]
fn single_instance_search_goes_on_past_a_value_that_is_not_a_flag() {
    let content = r#"{"a":{"SingleInstance":5},"b":{"SingleInstance":true}}"#;
    assert_eq!(battle_net_single_instance_value(content), Some(true));
}

#[test]
fn single_instance_key_of_the_object_itself_wins() {
    let content = r#"{"SingleInstance":"nonsense","a":{"SingleInstance":true}}"#;
    assert_eq!(battle_net_single_instance_value(content), None);
}

#[test]
fn single_instance_is_found_inside_arrays() {
    let content = r#"[1, {"x": [null, {"SingleInstance": false}]}]"#;
    assert_eq!(battle_net_single_instance_value(content), Some(false));
}

#[test]
fn single_instance_of_text_that_is_not_json_is_nothing() {
    assert_eq!(battle_net_single_instance_value("not json"), None);
    assert_eq!(battle_net_single_instance_value(""), None);
}

#[test]
fn boolish_values() {
    assert_eq!(parse_boolish_value(&value("true")), Some(true));
    assert_eq!(parse_boolish_value(&value("false")), Some(false));
    assert_eq!(parse_boolish_value(&value(r#"" tRuE ""#)), Some(true));
    assert_eq!(parse_boolish_value(&value("null")), None);
    assert_eq!(parse_boolish_value(&value("[true]")), None);
}

#[test]
fn find_single_instance_on_values() {
    assert_eq!(find_single_instance_value(&value(r#"{"Client":{"SingleInstance":"true"}}"#)), Some(true));
    assert_eq!(find_single_instance_value(&value(r#""SingleInstance""#)), None);
}

#[test]
fn saved_names_found_depth_first() {
    let v = value(r#"{"a":{"SavedAccountNames":"x"},"b":{"SavedAccountNames":"y"}}"#);
    let found = find_saved_account_names_value(&v).unwrap();
    assert_eq!(found.as_str(), Some("x"));
    assert!(find_saved_account_names_value(&value(r#"{"a":1}"#)).is_none());
}

#[test]
fn saved_names_are_split_and_trimmed() {
    let content = "{\"SavedAccountNames\":\" a@x.com ; b@x.com\\n\\tc@x.com,, \\r\"}";
    assert_eq!(battle_net_saved_account_names(content), vec!["a@x.com", "b@x.com", "c@x.com"]);
}

#[test]
fn saved_names_from_arrays_skip_items_that_are_not_text() {
    let content = r#"{"SavedAccountNames":["a,b", 3, null, " c "]}"#;
    assert_eq!(battle_net_saved_account_names(content), vec!["a", "b", "c"]);
}

#[test]
fn saved_names_of_other_values_are_none() {
    assert!(parse_account_names(&value("true")).is_empty());
    assert!(parse_account_names(&value(r#"{"a":"b"}"#)).is_empty());
    assert!(battle_net_saved_account_names("{").is_empty());
    assert!(battle_net_saved_account_names(r#"{"Other":"a"}"#).is_empty());
}

#[test]
fn first_saved_name() {
    assert_eq!(
        first_saved_account_name(r#"{"Client":{"SavedAccountNames":"one@example.com,two@example.com"}}"#),
        Some("one@example.com".to_string())
    );
    assert_eq!(first_saved_account_name(r#"{"Client":{}}"#), None);
}

#[test]
fn multiple_instances_only_when_single_instance_is_false() {
    let c = switcher();
    assert!(c.is_multiple_instances_enabled(Some(r#"{"Client":{"SingleInstance":"false"}}"#)));
    assert!(!c.is_multiple_instances_enabled(Some(r#"{"Client":{"SingleInstance":true}}"#)));
    assert!(!c.is_multiple_instances_enabled(Some(r#"{"Client":{}}"#)));
    assert!(!c.is_multiple_instances_enabled(None));
}
