use flextunnel::ids::id_of;
use flextunnel::records::{drop_records, find_position, save_record};
use flextunnel::config::AuthKey;
use flextunnel::table::Table;
use flextunnel::text::{
    contains, decimal_string, format_duration, is_whitespace, join_strings, normalize_spaces,
    parse_list, parse_u16, push_hex, same_text, strip_prefix, trim,
};

#[test]
fn white_space_is_that_of_unicode() {
    for n in 0..=0x10ffff {
        if let Some(c) = char::from_u32(n) {
            assert_eq!(is_whitespace(c), c.is_whitespace(), "{n:x}");
        }
    }
}

#[test]
fn trimming_and_words() {
    for s in ["", " ", " a ", "\t\u{3000}ü b\n", "a"] {
        assert_eq!(trim(s), s.trim());
        assert_eq!(normalize_spaces(s), s.split_whitespace().collect::<Vec<_>>().join(" "));
    }
    assert_eq!(normalize_spaces(" a\t\tb  c "), "a b c");
}

#[test]
fn lists() {
    assert_eq!(parse_list(" a ,, b,", ','), vec!["a", "b"]);
    assert!(parse_list(" , ", ',').is_empty());
    assert_eq!(join_strings(&vec!["a".into(), "".into(), "b".into()], "\n"), "a\n\nb");
    assert_eq!(join_strings(&vec![], "\n"), "");
}

#[test]
fn numbers() {
    for n in [0u128, 9, 10, 65535, u64::MAX as u128, u128::MAX] {
        assert_eq!(decimal_string(n), n.to_string());
    }
    for s in ["0", "65535", "65536", "+7", "", "+", "-1", "007", " 1", "1x", "99999999999999999999"] {
        assert_eq!(parse_u16(s), s.parse::<u16>().ok(), "{s:?}");
    }
    let mut out = String::from("0x");
    push_hex(&mut out, 0xab, 4);
    assert_eq!(out, "0x00ab");
    assert_eq!(id_of(0xdeadbeef), "00000000deadbeef");
    assert_eq!(id_of(u64::MAX), "ffffffffffffffff");
}

#[test]
fn durations() {
    assert_eq!(format_duration(0), "0s");
    assert_eq!(format_duration(59), "59s");
    assert_eq!(format_duration(60), "1m 00s");
    assert_eq!(format_duration(3599), "59m 59s");
    assert_eq!(format_duration(3600), "1h 00m 00s");
    assert_eq!(format_duration(100 * 3600 + 61), "100h 01m 01s");
}

#[test]
fn searching() {
    assert!(contains("abc", "bc") && contains("abc", "") && !contains("ab", "abc"));
    assert!(same_text("ü", "ü") && !same_text("a", "ab") && !same_text("a", "b"));
    assert_eq!(strip_prefix("connect:x", "connect:").as_deref(), Some("x"));
    assert_eq!(strip_prefix("connect:", "connect:").as_deref(), Some(""));
    assert_eq!(strip_prefix("con", "connect:"), None);
    assert_eq!(strip_prefix("xonnect:", "connect:"), None);
}

#[test]
fn tables() {
    let mut table: Table<String> = Table::new();
    assert_eq!(table.get("a"), None);
    table.insert("a".into(), "1".into());
    table.insert("b".into(), "2".into());
    table.insert("a".into(), "3".into());
    assert_eq!(table.get("a"), Some(&"3".to_string()));
    assert_eq!(table.get("b"), Some(&"2".to_string()));
    assert_eq!(table.entries.len(), 2);
    table.remove("a");
    table.remove("c");
    assert_eq!(table.get("a"), None);
    assert_eq!(table.entries.len(), 1);
}

#[test]
fn records_are_saved_by_id() {
    let key = |id: &str, name: &str| AuthKey {
        id: id.into(),
        name: name.into(),
        public_key: String::new(),
        secret: String::new(),
    };
    let mut keys = vec![key("a", "1"), key("b", "2"), key("a", "3")];
    assert_eq!(find_position(&keys, "a"), Some(0));
    assert_eq!(find_position(&keys, "c"), None);
    save_record(&mut keys, key("a", "4"));
    save_record(&mut keys, key("c", "5"));
    let names: Vec<&str> = keys.iter().map(|k| k.name.as_str()).collect();
    assert_eq!(names, vec!["4", "2", "3", "5"]);
    drop_records(&mut keys, "a");
    let names: Vec<&str> = keys.iter().map(|k| k.name.as_str()).collect();
    assert_eq!(names, vec!["2", "5"]);
}
