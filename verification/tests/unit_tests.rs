use pisi_index::events::{AppEvent, EventManager};
use pisi_index::stats::get_package_stats;
use pisi_index::text::{parse_u32_str, parse_u64_str, str_lex_leq, title_words, trim_str};
use pisi_index::theme::Theme;

#[test]
fn trim_removes_surrounding_whitespace() {
    assert_eq!(trim_str("  hello world \t\n"), "hello world");
    assert_eq!(trim_str("plain"), "plain");
    assert_eq!(trim_str("   \t "), "");
    assert_eq!(trim_str(""), "");
    assert_eq!(trim_str(" inner  space "), "inner  space");
}

#[test]
fn decimal_parsing() {
    assert_eq!(parse_u64_str("0"), Some(0));
    assert_eq!(parse_u64_str("123456"), Some(123456));
    assert_eq!(parse_u64_str("18446744073709551615"), Some(u64::MAX));
    assert_eq!(parse_u64_str("18446744073709551616"), None);
    assert_eq!(parse_u64_str(""), None);
    assert_eq!(parse_u64_str("12a"), None);
    assert_eq!(parse_u64_str("-1"), None);
    assert_eq!(parse_u32_str("4294967295"), Some(u32::MAX));
    assert_eq!(parse_u32_str("4294967296"), None);
}

#[test]
fn lexicographic_comparison() {
    assert!(str_lex_leq("", "a"));
    assert!(str_lex_leq("a", "a"));
    assert!(str_lex_leq("All", "System - Base"));
    assert!(str_lex_leq("ab", "b"));
    assert!(!str_lex_leq("b", "ab"));
    assert!(str_lex_leq("ab", "abc"));
    assert!(!str_lex_leq("abc", "ab"));
}

#[test]
fn title_case_fallback() {
    assert_eq!(title_words("system.base"), "System Base");
    assert_eq!(title_words("office"), "Office");
    assert_eq!(title_words("a.b.c"), "A B C");
    assert_eq!(title_words(""), "");
    assert_eq!(title_words("Already Upper"), "Already Upper");
}

#[test]
fn package_stats_counts() {
    let s = get_package_stats(10, 4, 2);
    assert_eq!(s.total_count, 10);
    assert_eq!(s.installed_count, 4);
    assert_eq!(s.available_count, 6);
    assert_eq!(s.updates_count, 2);
}

#[test]
fn package_stats_available_floors_at_zero() {
    let s = get_package_stats(3, 5, 0);
    assert_eq!(s.available_count, 0);
}

#[test]
fn theme_names_and_toggle() {
    assert_eq!(Theme::Light.name(), "Light");
    assert_eq!(Theme::Dark.name(), "Dark");
    assert_eq!(Theme::Light.next(), Theme::Dark);
    assert_eq!(Theme::Dark.next(), Theme::Light);
    assert_eq!(Theme::default(), Theme::Light);
}

#[test]
fn event_queue_is_last_in_first_out() {
    let mut q = EventManager::new();
    assert_eq!(q.pop(), None);
    q.push(AppEvent::CategorySelected("Installed".to_string()));
    q.push(AppEvent::ShowSettings);
    assert_eq!(q.pop(), Some(AppEvent::ShowSettings));
    assert_eq!(q.pop(), Some(AppEvent::CategorySelected("Installed".to_string())));
    assert_eq!(q.pop(), None);
}

#[test]
fn event_queue_clear_empties() {
    let mut q = EventManager::new();
    q.push(AppEvent::ComponentSelected("web".to_string()));
    q.push(AppEvent::ShowSettings);
    q.clear();
    assert_eq!(q.pop(), None);
}
