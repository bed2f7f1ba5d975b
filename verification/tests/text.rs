use disk_watch::json::{decode, export, import, Json};
use disk_watch::strmap::{StrMap, StrSet};
use disk_watch::text::{
    contains, decimal_text, escaped, hex_fixed_text, is_before, is_white, lines, markup_escaped,
    parse_u64, remove_chars, signed_text, starts_with, strip_prefix, strip_suffix, to_lowercase,
    to_uppercase, trim,
};

#[test]
fn texts_are_handled_as_by_the_standard_library() {
    let samples = [
        "",
        " a b\t",
        "0x12",
        "Grüße\u{a0}",
        "\u{2003}x\u{3000}",
        "tail\n\r",
        "I/O error, dev SDA",
        "+12",
        "18446744073709551615",
        "18446744073709551616",
        "+",
        "-1",
        "1 ",
        "007",
    ];
    for s in samples {
        assert_eq!(trim(s), s.trim());
        assert_eq!(to_lowercase(s), s.to_ascii_lowercase());
        assert_eq!(to_uppercase(s), s.to_ascii_uppercase());
        assert_eq!(parse_u64(s), s.parse::<u64>().ok());
        assert_eq!(escaped(s), s.escape_default().to_string());
        assert_eq!(
            markup_escaped(s),
            s.replace('&', "&amp;").replace('<', "&lt;").replace('>', "&gt;")
        );
        assert_eq!(remove_chars(s, 'x', ' '), s.replace(['x', ' '], ""));
        for t in samples {
            assert_eq!(starts_with(s, t), s.starts_with(t));
            assert_eq!(contains(s, t), s.contains(t));
            assert_eq!(strip_prefix(s, t), s.strip_prefix(t));
            assert_eq!(strip_suffix(s, t), s.strip_suffix(t));
            assert_eq!(is_before(s, t), s < t);
        }
    }
}

#[test]
fn white_space_is_that_of_unicode() {
    for code in 0..0x11_0000u32 {
        if let Some(c) = char::from_u32(code) {
            assert_eq!(is_white(c), c.is_whitespace(), "{code:x}");
        }
    }
}

#[test]
fn numbers_are_printed_as_by_the_standard_library() {
    for n in [0, 7, 10, 99, 100, 4096, u64::MAX] {
        assert_eq!(decimal_text(n), n.to_string());
        assert_eq!(hex_fixed_text(n, 16), format!("{n:016x}"));
    }
    for n in [0, -1, 42, -273, i64::MAX, i64::MIN] {
        assert_eq!(signed_text(n), n.to_string());
    }
}

#[test]
fn what_is_printed_is_printable() {
    let text = "\u{1b}[31mred\u{7}\u{0}\n\"quoted\" \\ é \u{1f600}";
    assert_eq!(escaped(text), text.escape_default().to_string());
    assert!(escaped(text).chars().all(|c| (' '..='~').contains(&c)));
}

#[test]
fn markup_becomes_plain_text() {
    assert_eq!(
        markup_escaped("<b>R&D</b> &lt;"),
        "&lt;b&gt;R&amp;D&lt;/b&gt; &amp;lt;"
    );
}

#[test]
fn documents_are_printed_as_by_serde_json() {
    for text in [
        "null",
        "true",
        "-5",
        "18446744073709551615",
        "1.5e300",
        "0.1",
        "-0.0",
        "\"a\\n\\\"\\u0001é\"",
        "[]",
        "{}",
        "[1,[2,null],\"x\"]",
        "{\"b\":1,\"a\":{\"c\":[false]}}",
        "{\"a\":1,\"a\":2}",
    ] {
        let value: serde_json::Value = serde_json::from_str(text).unwrap();
        let json = decode(text.as_bytes()).unwrap();
        assert_eq!(json.to_text(), value.to_string());
        assert_eq!(json.clone().to_text(), value.to_string());
        assert_eq!(json.as_u64(), value.as_u64());
        assert_eq!(json.as_i64(), value.as_i64());
        assert_eq!(json.as_bool(), value.as_bool());
        assert_eq!(json.as_str(), value.as_str());
        assert_eq!(json.is_object(), value.is_object());
        assert_eq!(json.as_array().map(|a| a.len()), value.as_array().map(|a| a.len()));
    }
    assert_eq!(
        decode(b"[1,").unwrap_err(),
        serde_json::from_slice::<serde_json::Value>(b"[1,")
            .unwrap_err()
            .to_string()
    );
}

#[test]
fn members_are_found_by_name() {
    let json = decode(br#"{"a":{"0":"zero"},"b":["first"],"c":1}"#).unwrap();
    assert_eq!(json.field("a").field("0").as_str(), Some("zero"));
    assert_eq!(json.field("a").first().unwrap().as_str(), Some("zero"));
    assert_eq!(json.field("b").first().unwrap().as_str(), Some("first"));
    assert!(json.field("c").first().is_none());
    assert!(json.child("d").is_none());
    assert!(matches!(json.field("d"), Json::Null));
    assert!(json.field("a").field("0").is_text("zero"));
}

#[test]
fn maps_are_walked_in_the_order_of_their_keys() {
    let mut map: StrMap<u64> = StrMap::new();
    for (key, value) in [("b", 1), ("a", 2), ("c", 3), ("b", 4), ("ba", 5)] {
        map.insert(key.to_string(), value);
    }
    let walked: Vec<(String, u64)> = (0..map.len())
        .map(|i| (map.key_at(i).to_string(), *map.value_at(i)))
        .collect();
    assert_eq!(
        walked,
        vec![
            ("a".to_string(), 2),
            ("b".to_string(), 4),
            ("ba".to_string(), 5),
            ("c".to_string(), 3)
        ]
    );
    assert_eq!(map.remove("b"), Some(4));
    assert_eq!(map.remove("b"), None);
    assert!(!map.contains_key("b"));
    assert_eq!(map.get("ba"), Some(&5));
    let copy = map.clone();
    assert_eq!(map.into_values(), vec![2, 5, 3]);
    assert_eq!(copy.into_entries()[2], ("c".to_string(), 3));
}

#[test]
fn sets_hold_each_member_once() {
    let mut set = StrSet::new();
    assert!(set.is_empty());
    for key in ["z", "a", "z"] {
        set.insert(key.to_string());
    }
    assert_eq!(set.len(), 2);
    assert_eq!(set.at(0), "a");
    assert_eq!(set.at(1), "z");
    assert!(set.contains("z") && !set.contains("b"));
}

#[test]
fn documents_made_by_hand_are_printed_in_the_order_of_their_names() {
    let json = Json::Object(vec![
        ("b".to_string(), decode(b"2.50").unwrap()),
        ("a".to_string(), Json::Unsigned(1)),
        ("b".to_string(), decode(b"1.50").unwrap()),
        ("c".to_string(), Json::Array(vec![Json::Negative(7), Json::Negative(-7)])),
    ]);
    assert_eq!(json.to_text(), r#"{"a":1,"b":1.5,"c":[7,-7]}"#);
    assert_eq!(export(&json).to_string(), json.to_text());
}

#[test]
fn floats_are_kept_as_they_are() {
    let mut seed: u64 = 0x9e37_79b9_7f4a_7c15;
    for _ in 0..20_000 {
        seed ^= seed << 13;
        seed ^= seed >> 7;
        seed ^= seed << 17;
        let float = f64::from_bits(seed);
        if !float.is_finite() {
            continue;
        }
        let value = serde_json::Value::Array(vec![serde_json::Value::from(float)]);
        let json = import(value.clone());
        assert_eq!(json.to_text(), value.to_string());
        assert_eq!(json.as_array().unwrap()[0].to_text(), value[0].to_string());
        assert_eq!(export(&json.clone()), value);
    }
}

#[test]
fn lines_are_those_of_the_standard_library() {
    for text in [
        "", "\n", "a", "a\n", "a\nb", "a\n\nb\n", "a\r\nb\r", "\r\n", "\r", "a\r\r\nb", "é\n\n",
    ] {
        assert_eq!(lines(text), text.lines().collect::<Vec<&str>>());
    }
}
