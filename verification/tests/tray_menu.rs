use storm_switch::records::AccountInfo;
use storm_switch::tray::{accounts_by_recency, text_before, tray_command, tray_item_id, tray_menu_items, TrayCommand};

fn account(id: &str, remark: &str, last_used: &str) -> AccountInfo {
    AccountInfo {
        id: id.to_string(),
        remark: remark.to_string(),
        username: String::new(),
        last_used: last_used.to_string(),
        group_id: "default".to_string(),
        logged_in: false,
    }
}

#[test]
fn string_order() {
    assert!(text_before("a", "b"));
    assert!(text_before("ab", "abc"));
    assert!(!text_before("abc", "ab"));
    assert!(!text_before("x", "x"));
    assert!(text_before("Z", "a"));
    assert_eq!(text_before("é", "z"), "é" < "z");
}

#[test]
fn accounts_are_listed_most_recent_first_keeping_ties_in_order() {
    let accounts = vec![
        account("a", "", "2024-01-01"),
        account("b", "", "2024-03-01"),
        account("c", "", "2024-01-01"),
        account("d", "", "2024-02-01"),
    ];
    let sorted = accounts_by_recency(&accounts);
    let ids: Vec<String> = sorted.iter().map(|a| a.id.clone()).collect();
    assert_eq!(ids, vec!["b", "d", "a", "c"]);
    let mut expected = accounts.clone();
    expected.sort_by(|a, b| b.last_used.cmp(&a.last_used));
    assert_eq!(ids, expected.iter().map(|a| a.id.clone()).collect::<Vec<_>>());
}

#[test]
fn menu_items() {
    let items = tray_menu_items(&vec![account("a", "  ", "1"), account("b", " Main ", "2")]);
    let pairs: Vec<(String, String)> = items.into_iter().map(|i| (i.id, i.label)).collect();
    assert_eq!(
        pairs,
        vec![
            ("switch-account:b".to_string(), " Main ".to_string()),
            ("switch-account:a".to_string(), "未命名账号".to_string()),
        ]
    );
}

#[test]
fn menu_without_accounts_has_a_placeholder() {
    let items = tray_menu_items(&Vec::new());
    assert_eq!(items.len(), 1);
    assert_eq!(items[0].id, "accounts-empty");
    assert_eq!(items[0].label, "暂无账号");
}

#[test]
fn menu_commands() {
    assert!(matches!(tray_command("show"), TrayCommand::ShowWindow));
    assert!(matches!(tray_command("quit"), TrayCommand::Quit));
    assert!(matches!(tray_command("other"), TrayCommand::Ignore));
    assert!(matches!(tray_command("switch-account"), TrayCommand::Ignore));
    match tray_command("switch-account:abc") {
        TrayCommand::SwitchAccount(id) => assert_eq!(id, "abc"),
        _ => panic!("expected a switch"),
    }
    match tray_command("switch-account:switch-account:x") {
        TrayCommand::SwitchAccount(id) => assert_eq!(id, "x"),
        _ => panic!("expected a switch"),
    }
    match tray_command("switch-account:") {
        TrayCommand::SwitchAccount(id) => assert_eq!(id, ""),
        _ => panic!("expected a switch"),
    }
}

#[test]
fn item_ids_round_trip() {
    let id = "0123456789abcdef0123456789abcdef";
    match tray_command(&tray_item_id(id)) {
        TrayCommand::SwitchAccount(back) => assert_eq!(back, id),
        _ => panic!("expected a switch"),
    }
}
