use phalanx::status::Status;
use phalanx::text::{contains, decimal_text, join, strip_prefix, text_eq, text_lt};

#[test]
fn status_names_read_back() {
    for s in [Status::Reserve, Status::Frontline, Status::Blocked] {
        assert_eq!(Status::parse(&s.name()), Some(s));
    }
    assert_eq!(Status::Reserve.name(), "reserve");
    assert_eq!(Status::Frontline.name(), "frontline");
    assert_eq!(Status::Blocked.name(), "blocked");
}

#[test]
fn unknown_status_text_is_no_status() {
    assert_eq!(Status::parse(""), None);
    assert_eq!(Status::parse("Reserve"), None);
    assert_eq!(Status::parse("reserve "), None);
    assert_eq!(Status::parse("deleted"), None);
}

#[test]
fn text_eq_compares_contents() {
    assert!(text_eq("abc", "abc"));
    assert!(!text_eq("abc", "abd"));
    assert!(!text_eq("abc", "ab"));
    assert!(text_eq("", ""));
}

#[test]
fn text_lt_is_the_order_of_the_encodings() {
    assert!(text_lt("a", "b"));
    assert!(!text_lt("b", "a"));
    assert!(!text_lt("a", "a"));
    assert!(text_lt("", "a"));
    assert!(!text_lt("a", ""));
    assert!(text_lt("ab", "abc"));
    assert!(text_lt("abc", "abd"));
    assert!(text_lt("Z", "a"));
    assert!(text_lt("z", "é"));
    let mut words = vec!["pear", "apple", "fig", "apple-pie", "", "Fig"];
    let mut mine = words.clone();
    words.sort();
    // insertion sort by text_lt gives what the standard order gives
    for i in 1..mine.len() {
        let mut j = i;
        while j > 0 && text_lt(mine[j], mine[j - 1]) {
            mine.swap(j, j - 1);
            j -= 1;
        }
    }
    assert_eq!(mine, words);
}

#[test]
fn strip_prefix_returns_the_rest() {
    assert_eq!(strip_prefix("bridge-abc", "bridge-"), Some("abc".to_string()));
    assert_eq!(strip_prefix("bridge-", "bridge-"), Some(String::new()));
    assert_eq!(strip_prefix("bridg", "bridge-"), None);
    assert_eq!(strip_prefix("xbridge-abc", "bridge-"), None);
    assert_eq!(strip_prefix("anything", ""), Some("anything".to_string()));
    assert_eq!(strip_prefix("é-ü", "é-"), Some("ü".to_string()));
}

#[test]
fn contains_finds_a_needle_anywhere() {
    assert!(contains("10 packets transmitted, 0 received, 100% packet loss", "100%"));
    assert!(contains("100%", "100%"));
    assert!(contains("x100%", "100%"));
    assert!(contains("100%x", "100%"));
    assert!(!contains("10 packets transmitted, 10 received, 0% packet loss", "100%"));
    assert!(!contains("100", "100%"));
    assert!(!contains("", "100%"));
    assert!(contains("", ""));
    assert!(contains("abc", ""));
}

#[test]
fn join_puts_one_text_behind_the_other() {
    assert_eq!(join("root@", "10.0.0.1"), "root@10.0.0.1");
    assert_eq!(join("", ""), "");
}

#[test]
fn decimal_text_writes_numbers() {
    assert_eq!(decimal_text(0), "0");
    assert_eq!(decimal_text(7), "7");
    assert_eq!(decimal_text(10), "10");
    assert_eq!(decimal_text(1234567890), "1234567890");
    assert_eq!(decimal_text(u64::MAX), "18446744073709551615");
}
