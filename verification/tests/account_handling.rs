use storm_switch::records::{AccountInfo, GroupInfo};
use storm_switch::switcher::BattleNetCore;

fn switcher() -> BattleNetCore {
    BattleNetCore::new("app".to_string(), "data".to_string(), "app/Battle.net.config".to_string())
}

fn account(id: &str, remark: &str, username: &str, last_used: &str, group_id: &str) -> AccountInfo {
    AccountInfo {
        id: id.to_string(),
        remark: remark.to_string(),
        username: username.to_string(),
        last_used: last_used.to_string(),
        group_id: group_id.to_string(),
        logged_in: false,
    }
}

fn groups() -> Vec<GroupInfo> {
    vec![GroupInfo { id: "g1".to_string(), name: "Work".to_string(), created_at: "t".to_string() }]
}

const CONFIG: &str = r#"{"Client":{"SavedAccountNames":"One@Example.com, two@example.com"}}"#;

#[test]
fn repairing_accounts() {
    let c = switcher();
    let mut accounts = vec![
        account("a1", "main", "x@y", "t", "g1"),
        account("a2", "  ", "", "t", "gone"),
        account("a3", "alt", " ", "t", ""),
    ];
    let saved = vec![
        None,
        Some(r#"{"Client":{"SavedAccountNames":"saved@x, other@x"}}"#.to_string()),
    ];
    assert!(c.normalize_accounts(&mut accounts, &groups(), &saved));
    assert_eq!(accounts[0].group_id, "g1");
    assert_eq!(accounts[1].group_id, "default");
    assert_eq!(accounts[1].remark, "未命名账号");
    assert_eq!(accounts[1].username, "saved@x");
    assert_eq!(accounts[2].group_id, "default");
    assert_eq!(accounts[2].username, " ");
    assert!(!c.normalize_accounts(&mut accounts, &groups(), &saved));
}

#[test]
fn saved_configuration_without_names_leaves_username_blank() {
    let c = switcher();
    let mut accounts = vec![account("a1", "main", "", "t", "default")];
    let saved = vec![Some(r#"{"Client":{"Locale":"zhCN"}}"#.to_string())];
    assert!(!c.normalize_accounts(&mut accounts, &Vec::new(), &saved));
    assert_eq!(accounts[0].username, "");
    let unreadable = vec![Some("not json".to_string())];
    assert!(!c.normalize_accounts(&mut accounts, &Vec::new(), &unreadable));
    assert_eq!(accounts[0].username, "");
}

#[test]
fn repairing_sound_accounts_changes_nothing() {
    let mut accounts = vec![account("a1", "main", "x@y", "t", "default")];
    assert!(!switcher().normalize_accounts(&mut accounts, &Vec::new(), &Vec::new()));
    assert_eq!(accounts[0].remark, "main");
}

#[test]
fn saved_username_is_wanted_only_for_blank_usernames() {
    let c = switcher();
    assert!(c.needs_saved_username(&account("a", "r", " ", "t", "g")));
    assert!(!c.needs_saved_username(&account("a", "r", "u", "t", "g")));
}

#[test]
fn marking_logged_in_accounts() {
    let c = switcher();
    let mut accounts = vec![
        account("a1", "r", " one@example.COM ", "t", "g1"),
        account("a2", "r", "three@example.com", "t", "g1"),
        account("a3", "r", "", "t", "g1"),
    ];
    c.mark_logged_in_accounts(&mut accounts, Some(CONFIG));
    assert_eq!(accounts.iter().map(|a| a.logged_in).collect::<Vec<_>>(), vec![true, false, false]);
    c.mark_logged_in_accounts(&mut accounts, None);
    assert!(accounts.iter().all(|a| !a.logged_in));
}

#[test]
fn moving_accounts() {
    let c = switcher();
    let mut accounts = vec![account("a1", "r", "u", "t", "default")];
    assert!(c.move_account_to_group(&mut accounts, &groups(), "a1", "g1"));
    assert_eq!(accounts[0].group_id, "g1");
    assert!(c.move_account_to_group(&mut accounts, &groups(), "a1", "nope"));
    assert_eq!(accounts[0].group_id, "default");
    assert!(!c.move_account_to_group(&mut accounts, &groups(), "a9", "g1"));
}

#[test]
fn updating_remarks() {
    let c = switcher();
    let mut accounts = vec![account("a1", "r", "u", "t", "default")];
    assert!(c.update_account_info(&mut accounts, "a1", "  new "));
    assert_eq!(accounts[0].remark, "new");
    assert!(c.update_account_info(&mut accounts, "a1", " "));
    assert_eq!(accounts[0].remark, "未命名账号");
    assert!(!c.update_account_info(&mut accounts, "a2", "x"));
}

#[test]
fn removing_accounts() {
    let c = switcher();
    let mut accounts = vec![account("a1", "r", "u", "t", "g"), account("a2", "r", "u", "t", "g")];
    assert!(!c.remove_account(&mut accounts, "a9"));
    assert_eq!(accounts.len(), 2);
    assert!(c.remove_account(&mut accounts, "a1"));
    assert_eq!(accounts.iter().map(|a| a.id.clone()).collect::<Vec<_>>(), vec!["a2"]);
}

#[test]
fn reassigning_accounts_of_a_deleted_group() {
    let c = switcher();
    let mut accounts = vec![account("a1", "r", "u", "t", "g1"), account("a2", "r", "u", "t", "g2")];
    assert!(c.reassign_group_accounts(&mut accounts, "g1"));
    assert_eq!(accounts[0].group_id, "default");
    assert_eq!(accounts[1].group_id, "g2");
    assert!(!c.reassign_group_accounts(&mut accounts, "g1"));
}

#[test]
fn recording_use() {
    let c = switcher();
    let mut accounts = vec![account("a1", "r", "u", "old", "g")];
    assert!(c.set_last_used(&mut accounts, "a1", "when".to_string()));
    assert_eq!(accounts[0].last_used, "when");
    assert!(c.record_account_use(&mut accounts, "a1"));
    assert!(accounts[0].last_used.ends_with("+00:00"));
    assert!(!c.record_account_use(&mut accounts, "zz"));
}

#[test]
fn adding_the_current_account() {
    let c = switcher();
    let mut accounts = Vec::new();
    c.add_account_with(&mut accounts, &groups(), "id1".to_string(), " ", "g1", Some(CONFIG), "now".to_string());
    assert_eq!(accounts.len(), 1);
    let a = &accounts[0];
    assert_eq!(a.id, "id1");
    assert_eq!(a.remark, "未命名账号");
    assert_eq!(a.username, "One@Example.com");
    assert_eq!(a.last_used, "now");
    assert_eq!(a.group_id, "g1");
    assert!(!a.logged_in);
    c.save_current_account_to_group(&mut accounts, &groups(), "id2".to_string(), "alt", "x", None);
    assert_eq!(accounts[1].username, "");
    assert_eq!(accounts[1].group_id, "default");
    assert!(accounts[1].last_used.ends_with("+00:00"));
}
