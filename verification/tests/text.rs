use chargebot::keyed::StrMap;
use chargebot::text::{i64_to_text, starts_with, text_eq, u64_to_text};

#[test]
fn text_helpers() {
    assert!(text_eq("abc", "abc"));
    assert!(!text_eq("abc", "abd"));
    assert!(!text_eq("ab", "abc"));
    assert!(starts_with("/start@bot", "/start@"));
    assert!(!starts_with("/star", "/start"));
    assert_eq!(u64_to_text(0), "0");
    assert_eq!(u64_to_text(1234567890), "1234567890");
    assert_eq!(i64_to_text(-456), "-456");
    assert_eq!(i64_to_text(i64::MIN), "-9223372036854775808");
}

#[test]
fn keyed_map() {
    let mut m: StrMap<u32> = StrMap::new();
    assert_eq!(m.len(), 0);
    m.insert("a".to_string(), 1);
    m.insert("b".to_string(), 2);
    m.insert("a".to_string(), 3);
    assert_eq!(m.len(), 2);
    assert_eq!(m.get("a"), Some(&3));
    assert!(m.contains_key("b"));
    assert_eq!(m.take("b"), Some(2));
    assert_eq!(m.take("b"), None);
    assert!(!m.contains_key("b"));
}
