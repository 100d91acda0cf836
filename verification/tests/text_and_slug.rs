use rust_pipeline::slug::{slug_from_lowercase, slugify};
use rust_pipeline::rawmap::RawMap;
use rust_pipeline::sites::numeric_only_of;
use rust_pipeline::text::{
    chars_of, join_strings, remove_str, split_chars, str_contains, string_of,
    trim_str,
};

fn white_space_table(c: char) -> bool {
    ('\u{9}'..='\u{d}').contains(&c)
        || c == ' '
        || c == '\u{85}'
        || c == '\u{a0}'
        || c == '\u{1680}'
        || ('\u{2000}'..='\u{200a}').contains(&c)
        || c == '\u{2028}'
        || c == '\u{2029}'
        || c == '\u{202f}'
        || c == '\u{205f}'
        || c == '\u{3000}'
}

#[test]
fn whitespace_table_matches_std_for_every_char() {
    for u in 0u32..=0x10FFFF {
        if let Some(c) = char::from_u32(u) {
            assert_eq!(c.is_whitespace(), white_space_table(c), "char {:?}", c);
            assert_eq!(trim_str(&c.to_string()).is_empty(), white_space_table(c), "char {:?}", c);
        }
    }
}

#[test]
fn trim_removes_unicode_white_space() {
    assert_eq!(trim_str("  a b \t\r\n"), "a b");
    assert_eq!(trim_str("\u{3000}x\u{a0}"), "x");
    assert_eq!(trim_str("   "), "");
    assert_eq!(trim_str(""), "");
}

#[test]
fn remove_is_left_to_right_without_overlap() {
    assert_eq!(remove_str("OPPO Find OPPO N5", "OPPO"), " Find  N5");
    assert_eq!(remove_str("aaa", "aa"), "a");
    assert_eq!(remove_str("OPOPPOPO", "OPPO"), "OPPO");
    assert_eq!(remove_str("abc", ""), "abc");
    assert_eq!("OPOPPOPO".replace("OPPO", ""), "OPPO");
}

#[test]
fn split_keeps_empty_pieces() {
    let v = chars_of("a,,b+");
    let pieces = split_chars(&v, &[',', '+']);
    let got: Vec<String> = pieces.iter().map(|p| string_of(p)).collect();
    assert_eq!(got, vec!["a", "", "b", ""]);
    let joined = join_strings(&vec!["x".to_string(), "y".to_string(), "z".to_string()], &['-']);
    assert_eq!(string_of(&joined), "x-y-z");
}

#[test]
fn contains_finds_substrings() {
    assert!(str_contains("ultra wide", "wide"));
    assert!(str_contains("abc", ""));
    assert!(!str_contains("ab", "abc"));
}

#[test]
fn slug_of_brand_and_model() {
    assert_eq!(slugify(&Some("Samsung".to_string()), "Galaxy S25 FE"), "samsung-galaxy-s25-fe");
    assert_eq!(slugify(&Some(String::new()), "--Pixel 9!"), "pixel-9");
    assert_eq!(slugify(&None, "Ü Phone"), "phone");
    assert_eq!(slugify(&None, "***"), "");
}

#[test]
fn slug_is_idempotent_on_examples() {
    for s in ["samsung-galaxy-s25-fe", "-a--b-", "x"] {
        let once = slug_from_lowercase(s);
        assert_eq!(slug_from_lowercase(&once), once);
    }
}

#[test]
fn raw_map_later_insert_wins() {
    let mut m = RawMap::new();
    assert!(m.is_empty());
    m.insert("a".to_string(), "1".to_string());
    m.insert("b".to_string(), "2".to_string());
    m.insert("a".to_string(), "3".to_string());
    assert!(!m.is_empty());
    assert_eq!(m.get("a"), Some("3".to_string()));
    assert_eq!(m.get("b"), Some("2".to_string()));
    assert_eq!(m.get("c"), None);
}

#[test]
fn raw_map_entries_in_key_order() {
    let mut m = RawMap::new();
    for (k, v) in [("Weight", "1"), ("Battery", "2"), ("b", "3"), ("Battery", "4"), ("Bat", "5"), ("é", "6"), ("z", "7")] {
        m.insert(k.to_string(), v.to_string());
    }
    let keys: Vec<&str> = m.entries().iter().map(|(k, _)| k.as_str()).collect();
    assert_eq!(keys, vec!["Bat", "Battery", "Weight", "b", "z", "é"]);
    let mut std_map = std::collections::BTreeMap::new();
    for (k, v) in m.entries() {
        std_map.insert(k.clone(), v.clone());
    }
    let std_keys: Vec<&str> = std_map.keys().map(|k| k.as_str()).collect();
    assert_eq!(keys, std_keys);
    assert_eq!(m.get("Battery"), Some("4".to_string()));
    assert_eq!(m.entries().len(), 6);
    assert!(rust_pipeline::rawmap::key_precedes("ab", "b"));
    assert!(rust_pipeline::rawmap::key_precedes("a", "ab"));
    assert!(!rust_pipeline::rawmap::key_precedes("ab", "ab"));
    assert!(!rust_pipeline::rawmap::key_precedes("b", "B"));
}

#[test]
fn numeric_filter_keeps_unicode_digits_and_dots() {
    assert_eq!(numeric_only_of("RM 7,999.00"), "7999.00");
    assert_eq!(numeric_only_of("RM \u{663}\u{bd}.5x"), "\u{663}\u{bd}.5");
    assert_eq!(numeric_only_of("no digits"), "");
    assert_eq!(numeric_only_of("1.2.3"), "1.2.3");
}

#[test]
fn slugs_are_lowercase_and_stable() {
    let cases = [(Some("SAMSUNG".to_string()), "Galaxy Z Fold7 – 512GB"), (None, "ÄBC--Déf"), (Some(String::new()), "  X  ")];
    for (brand, model) in cases {
        let s = slugify(&brand, model);
        assert!(s.chars().all(|c| c.is_ascii_lowercase() || c.is_ascii_digit() || c == '-'), "{}", s);
        assert!(!s.starts_with('-') && !s.ends_with('-'), "{}", s);
        assert_eq!(slugify(&None, &s), s);
        assert_eq!(slugify(&Some(String::new()), &s), s);
    }
    assert_eq!(slugify(&Some("SAMSUNG".to_string()), "Galaxy Z Fold7 – 512GB"), "samsung-galaxy-z-fold7---512gb");
}
