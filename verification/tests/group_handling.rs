use storm_switch::groups::CreateGroupOutcome;
use storm_switch::records::{default_group, GroupInfo};
use storm_switch::switcher::BattleNetCore;

fn switcher() -> BattleNetCore {
    BattleNetCore::new("app".to_string(), "data".to_string(), "app/Battle.net.config".to_string())
}

fn group(id: &str, name: &str, created_at: &str) -> GroupInfo {
    GroupInfo { id: id.to_string(), name: name.to_string(), created_at: created_at.to_string() }
}

fn ids(groups: &[GroupInfo]) -> Vec<String> {
    groups.iter().map(|g| g.id.clone()).collect()
}

fn names(groups: &[GroupInfo]) -> Vec<String> {
    groups.iter().map(|g| g.name.clone()).collect()
}

#[test]
fn default_group_is_fixed() {
    let g = default_group();
    assert_eq!(g.id, "default");
    assert_eq!(g.name, "默认分组");
    assert_eq!(g.created_at, "0001-01-01T00:00:00");
}

#[test]
fn normalizing_an_empty_list_gives_the_default_group() {
    let mut groups = Vec::new();
    switcher().normalize_groups(&mut groups);
    assert_eq!(ids(&groups), vec!["default"]);
    assert_eq!(names(&groups), vec!["默认分组"]);
}

#[test]
fn normalizing_puts_the_default_group_first_and_fixes_names() {
    let mut groups = vec![
        group("  ", "blank id", "t0"),
        group("g1", "  Work  ", "t1"),
        group("default", "renamed", "t2"),
        group("g2", "   ", "t3"),
    ];
    switcher().normalize_groups(&mut groups);
    assert_eq!(ids(&groups), vec!["default", "g1", "g2"]);
    assert_eq!(names(&groups), vec!["默认分组", "Work", "未命名分组"]);
    assert_eq!(groups[0].created_at, "0001-01-01T00:00:00");
    assert_eq!(groups[1].created_at, "t1");
}

#[test]
fn normalizing_twice_changes_nothing() {
    let mut groups = vec![group("g1", " a ", "t"), group("", "x", "t"), group("default", "d", "t")];
    let c = switcher();
    c.normalize_groups(&mut groups);
    let once: Vec<(String, String, String)> =
        groups.iter().map(|g| (g.id.clone(), g.name.clone(), g.created_at.clone())).collect();
    c.normalize_groups(&mut groups);
    let twice: Vec<(String, String, String)> =
        groups.iter().map(|g| (g.id.clone(), g.name.clone(), g.created_at.clone())).collect();
    assert_eq!(once, twice);
}

#[test]
fn get_groups_orders_the_stored_list() {
    let groups = switcher().get_groups(vec![group("g1", "Work", "t1")]);
    assert_eq!(ids(&groups), vec!["default", "g1"]);
}

#[test]
fn valid_group_ids() {
    let c = switcher();
    let stored = vec![group("g1", "Work", "t1")];
    assert_eq!(c.ensure_valid_group_id(&stored, "g1"), "g1");
    assert_eq!(c.ensure_valid_group_id(&stored, "nope"), "default");
    assert_eq!(c.ensure_valid_group_id(&stored, ""), "default");
    assert_eq!(c.ensure_valid_group_id(&stored, "default"), "default");
}

#[test]
fn creating_a_group_with_a_blank_name_is_rejected() {
    let mut groups = vec![group("g1", "Work", "t1")];
    let outcome = switcher().create_group(&mut groups, "   ");
    assert!(matches!(outcome, CreateGroupOutcome::Rejected));
    assert_eq!(ids(&groups), vec!["g1"]);
    assert!(outcome.into_group().is_none());
}

#[test]
fn creating_a_group_that_exists_hands_it_back() {
    let mut groups = vec![group("g1", "Work", "t1")];
    let outcome = switcher().create_group(&mut groups, "  wORK ");
    assert!(!outcome.is_created());
    let found = outcome.into_group().unwrap();
    assert_eq!(found.id, "g1");
    assert_eq!(ids(&groups), vec!["g1"]);
}

#[test]
fn creating_a_new_group_appends_it() {
    let mut groups = vec![group("g1", "Work", "t1")];
    let outcome = switcher().create_group_with(&mut groups, "  Play ", "g2".to_string(), "now".to_string());
    assert!(outcome.is_created());
    let made = outcome.into_group().unwrap();
    assert_eq!((made.id.as_str(), made.name.as_str(), made.created_at.as_str()), ("g2", "Play", "now"));
    assert_eq!(ids(&groups), vec!["default", "g1", "g2"]);
}

#[test]
fn created_groups_get_a_fresh_id_and_time() {
    let mut groups = Vec::new();
    let made = switcher().create_group(&mut groups, "Play").into_group().unwrap();
    assert_eq!(made.id.len(), 32);
    assert!(made.id.chars().all(|c| c.is_ascii_digit() || ('a'..='f').contains(&c)));
    assert!(made.created_at.ends_with("+00:00"));
    assert_rfc3339_utc(&made.created_at);
    let other = switcher().create_group(&mut Vec::new(), "Play").into_group().unwrap();
    assert_ne!(made.id, other.id);
}

#[test]
fn creating_the_same_group_again_finds_it() {
    let c = switcher();
    let mut groups = vec![group("g1", "Work", "t1")];
    let made = c.create_group(&mut groups, " Play ").into_group().unwrap();
    let after = groups.clone();
    let again = c.create_group(&mut groups, "PLAY");
    assert!(!again.is_created());
    let found = again.into_group().unwrap();
    assert_eq!((found.id.as_str(), found.name.as_str()), (made.id.as_str(), "Play"));
    assert_eq!(ids(&groups), ids(&after));
    assert_eq!(ids(&c.get_groups(after.clone())), ids(&after));
    assert_eq!(names(&c.get_groups(after)), vec!["默认分组", "Work", "Play"]);
}

#[test]
fn renaming_groups() {
    let c = switcher();
    let stored = vec![group("g1", "Work", "t1"), group("g2", "Play", "t2")];
    let mut groups = stored.clone();
    assert!(!c.rename_group(&mut groups, "default", "x"));
    assert!(!c.rename_group(&mut groups, "g1", "  "));
    assert!(!c.rename_group(&mut groups, "g1", "PLAY"));
    assert!(!c.rename_group(&mut groups, "g9", "New"));
    assert_eq!(ids(&groups), vec!["g1", "g2"]);
    assert!(c.rename_group(&mut groups, "g1", "  work "));
    assert_eq!(names(&groups), vec!["默认分组", "work", "Play"]);
}

#[test]
fn deleting_groups() {
    let c = switcher();
    let mut groups = vec![group("g1", "Work", "t1"), group("g2", "Play", "t2")];
    assert!(!c.delete_group(&mut groups, "default"));
    assert!(!c.delete_group(&mut groups, ""));
    assert!(!c.delete_group(&mut groups, "g9"));
    assert_eq!(ids(&groups), vec!["g1", "g2"]);
    assert!(c.delete_group(&mut groups, "g1"));
    assert_eq!(ids(&groups), vec!["default", "g2"]);
}

fn assert_rfc3339_utc(stamp: &str) {
    let cs: Vec<char> = stamp.chars().collect();
    let n = cs.len();
    assert!(n >= 25);
    let digits = |range: std::ops::Range<usize>| cs[range].iter().all(|c| c.is_ascii_digit());
    assert!(digits(0..4));
    assert_eq!((cs[4], cs[7], cs[10], cs[13], cs[16]), ('-', '-', 'T', ':', ':'));
    assert!(digits(5..7) && digits(8..10) && digits(11..13) && digits(14..16) && digits(17..19));
    let fraction = &cs[19..n - 6];
    assert!(fraction.is_empty() || ([4, 7, 10].contains(&fraction.len()) && fraction[0] == '.'));
    assert!(fraction.iter().skip(1).all(|c| c.is_ascii_digit()));
    let month: u32 = stamp[5..7].parse().unwrap();
    let hour: u32 = stamp[11..13].parse().unwrap();
    assert!((1..=12).contains(&month) && hour < 24);
}
