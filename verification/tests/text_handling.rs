use storm_switch::records::fallback_account_name;
use storm_switch::text::{
    chars_of, eq_ignore_ascii_case, is_blank_text, is_safe_id, normalize_account_name,
    normalize_name, same_text, split_account_names, string_from_chars, trim_text,
};

#[test]
fn trimming_follows_unicode_white_space() {
    assert_eq!(trim_text("  a b \t\n"), "a b");
    assert_eq!(trim_text("\u{3000}名字\u{a0}"), "名字");
    assert_eq!(trim_text("   "), "");
    assert_eq!(trim_text(""), "");
    assert_eq!(trim_text("x"), "x");
}

#[test]
fn trimming_agrees_with_std() {
    for s in ["  a  ", "\u{2028}x\u{85}", "\u{200b}y", " \u{1680} ", "a\u{2000}b"] {
        assert_eq!(trim_text(s), s.trim());
    }
}

#[test]
fn trimming_twice_is_trimming_once() {
    let once = trim_text(" \t abc \n ");
    assert_eq!(trim_text(&once), once);
}

#[test]
fn blank_texts() {
    assert!(is_blank_text(" \r\n"));
    assert!(is_blank_text(""));
    assert!(!is_blank_text(" a "));
}

#[test]
fn names_are_trimmed() {
    assert_eq!(normalize_name("  工作组 "), "工作组");
}

#[test]
fn fallback_remarks() {
    assert_eq!(fallback_account_name("  main "), "main");
    assert_eq!(fallback_account_name("   "), "未命名账号");
    assert_eq!(fallback_account_name(""), "未命名账号");
}

#[test]
fn account_name_keys_fold_ascii_case_only() {
    assert_eq!(normalize_account_name("  One@Example.COM "), "one@example.com");
    assert_eq!(normalize_account_name("ÄBC"), "Äbc");
}

#[test]
fn ascii_case_insensitive_equality() {
    assert!(eq_ignore_ascii_case("Work", "wORK"));
    assert!(!eq_ignore_ascii_case("Work", "Works"));
    assert!(!eq_ignore_ascii_case("Ä", "ä"));
}

#[test]
fn safe_ids() {
    assert!(is_safe_id("0f3a-B_9"));
    assert!(!is_safe_id(""));
    assert!(!is_safe_id("../etc"));
    assert!(!is_safe_id("a/b"));
    assert!(!is_safe_id("a\\b"));
    assert!(!is_safe_id("a b"));
    assert!(!is_safe_id("é"));
}

#[test]
fn splitting_account_names() {
    assert_eq!(split_account_names("a,b;c\nd\re\tf"), vec!["a", "b", "c", "d", "e", "f"]);
    assert_eq!(split_account_names(" , ;; "), Vec::<String>::new());
    assert_eq!(split_account_names(""), Vec::<String>::new());
    assert_eq!(split_account_names("  solo  "), vec!["solo"]);
}

#[test]
fn characters_round_trip() {
    let cs = chars_of("héllo 世界");
    assert_eq!(cs.len(), 8);
    assert_eq!(string_from_chars(&cs), "héllo 世界");
}

#[test]
fn same_text_compares_characters() {
    assert!(same_text("abc", "abc"));
    assert!(!same_text("abc", "abd"));
    assert!(!same_text("abc", "ab"));
}

#[test]
fn split_names_hold_no_separator_keep_their_order_and_survive_a_join() {
    let value = " b@x ;\ta@x,,\r\n c d@x \n";
    let names = split_account_names(value);
    assert_eq!(names, vec!["b@x", "a@x", "c d@x"]);
    let separators = [',', ';', '\n', '\r', '\t'];
    let mut from = 0;
    for name in &names {
        assert!(!name.is_empty());
        assert_eq!(name.trim(), name);
        assert!(!name.contains(separators));
        let at = value[from..].find(name.as_str()).unwrap() + from;
        from = at + name.len();
    }
    assert_eq!(split_account_names(&names.join(",")), names);
    assert!(split_account_names(&Vec::<String>::new().join(",")).is_empty());
}
