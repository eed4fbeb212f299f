//! The ground modules held against the standard library on samples.
use std::path::Path;

use bullpen::hash::push_hex;
use bullpen::json::{parse, parse_bytes, same_json, to_text, Json};
use bullpen::path::{absolute, join, last, parent, same_path, starts_with};
use bullpen::text::{
    at_most, bytes_of, char_width, chars_of, contains, decimal, decimal_int, decimal_wide, ends_with,
    find_text, floor_boundary, join_with, len_of, lines_of, pad, pad_left, parse_number, same, slice,
    sort_texts, space, split_on, trimmed, trimmed_end, trimmed_start,
};

const SAMPLES: [&str; 22] = [
    "",
    " ",
    "a",
    "abc",
    "  padded\t",
    "\n",
    "one\ntwo",
    "one\ntwo\n",
    "one\r\ntwo\r\n",
    "\r",
    "one\r",
    "a\rb\n",
    "\n\n",
    "é",
    "naïve café",
    "日本語\nテキスト",
    "🦀 crab 🦀",
    "\u{a0}nbsp\u{a0}",
    "\u{2003}em\u{3000}",
    "\u{85}next\u{1680}",
    "a,b,,c,",
    "mixed é🦀\u{feff}end",
];

#[test]
fn text_agrees_with_the_standard_library() {
    for s in SAMPLES {
        assert_eq!(trimmed(s), s.trim(), "{s:?}");
        assert_eq!(trimmed_start(s), s.trim_start(), "{s:?}");
        assert_eq!(trimmed_end(s), s.trim_end(), "{s:?}");
        assert_eq!(lines_of(s), s.lines().collect::<Vec<_>>(), "{s:?}");
        assert_eq!(split_on(s, ','), s.split(',').collect::<Vec<_>>(), "{s:?}");
        assert_eq!(chars_of(s), s.chars().collect::<Vec<_>>(), "{s:?}");
        assert_eq!(bytes_of(s), s.as_bytes(), "{s:?}");
        assert_eq!(len_of(s), s.len(), "{s:?}");
        assert_eq!(pad(s, 6), format!("{s:<6}"), "{s:?}");
        assert_eq!(pad_left(s, 6), format!("{s:>6}"), "{s:?}");
        for t in SAMPLES {
            assert_eq!(same(s, t), s == t, "{s:?} {t:?}");
            assert_eq!(at_most(s, t), s <= t, "{s:?} {t:?}");
            assert_eq!(contains(s, t), s.contains(t), "{s:?} {t:?}");
            assert_eq!(bullpen::text::starts_with(s, t), s.starts_with(t), "{s:?} {t:?}");
            assert_eq!(ends_with(s, t), s.ends_with(t), "{s:?} {t:?}");
            let at = find_text(&chars_of(s), &chars_of(t), 0);
            let expected = s.find(t).map(|b| s[..b].chars().count());
            assert_eq!(at, expected, "{s:?} {t:?}");
        }
    }
    let mut sorted: Vec<String> = SAMPLES.iter().map(|s| s.to_string()).collect();
    let given = sorted.clone();
    sorted.sort();
    assert_eq!(sort_texts(&given), sorted);
    assert_eq!(join_with(&given, "--"), given.join("--"));
}

#[test]
fn characters_agree_with_the_standard_library() {
    for c in (0..=0x10ffffu32).filter_map(char::from_u32) {
        assert_eq!(space(c), c.is_whitespace(), "{c:?}");
        assert_eq!(char_width(c), c.len_utf8(), "{c:?}");
    }
}

#[test]
fn boundaries_agree_with_the_standard_library() {
    for s in SAMPLES {
        let cs = chars_of(s);
        for max in 0..s.len() + 2 {
            let mut end = max.min(s.len());
            while !s.is_char_boundary(end) {
                end -= 1;
            }
            let n = floor_boundary(&cs, max);
            assert_eq!(slice(&cs, 0, n), s[..end], "{s:?} {max}");
        }
    }
}

#[test]
fn numbers_agree_with_the_standard_library() {
    for n in [0, 1, 9, 10, 99, 100, 12_345, u64::MAX - 1, u64::MAX] {
        assert_eq!(decimal(n), n.to_string());
        assert_eq!(decimal_wide(n as u128), n.to_string());
        assert_eq!(parse_number(&n.to_string()), Some(n));
    }
    assert_eq!(decimal_wide(u128::MAX), u128::MAX.to_string());
    for n in [0, 1, -1, 10, -10, i64::MAX, i64::MIN, i64::MIN + 1] {
        assert_eq!(decimal_int(n), n.to_string());
    }
    for s in [
        "", "+", "-", "+1", "-0", "007", " 1", "1 ", "1_0", "0x1", "18446744073709551615",
        "18446744073709551616", "99999999999999999999999", "++1", "٣",
    ] {
        assert_eq!(parse_number(s), s.parse::<u64>().ok(), "{s:?}");
    }
    let mut hex = String::new();
    for b in 0..=255u8 {
        push_hex(&mut hex, b);
    }
    let expected: String = (0..=255u8).map(|b| format!("{b:02x}")).collect();
    assert_eq!(hex, expected);
}

const PATHS: [&str; 24] = [
    "", "/", ".", "..", "a", "a/", "a/b", "a//b", "./a", "a/.", "a/./b", "a/..", "../a", "/a",
    "/a/", "/a/b", "/a/b/c", "//a", "/./a", "/..", "/a/../b", "a/b/", "/a/b/.", "é/日本",
];

#[test]
fn paths_agree_with_the_standard_library() {
    let shown = |p: Option<&Path>| p.map(|p| p.display().to_string());
    for p in PATHS {
        assert_eq!(absolute(p), Path::new(p).is_absolute(), "{p:?}");
        assert_eq!(parent(p), shown(Path::new(p).parent()), "{p:?}");
        assert_eq!(
            last(p).filter(|name| name != ".."),
            Path::new(p).file_name().map(|n| n.to_string_lossy().into_owned()),
            "{p:?}"
        );
        for q in PATHS {
            let joined = Path::new(p).join(q).display().to_string();
            assert_eq!(join(p, q), joined, "{p:?} {q:?}");
            assert_eq!(starts_with(p, q), Path::new(p).starts_with(q), "{p:?} {q:?}");
            assert_eq!(same_path(p, q), Path::new(p) == Path::new(q), "{p:?} {q:?}");
        }
    }
}

#[test]
fn json_agrees_with_serde() {
    for text in [
        "null", "true", "0", "-1", "18446744073709551615", "-9223372036854775808", "1.5", "1e300",
        "\"\"", "\"a\\u00e9\\n\\\"\"", "[]", "[1,[2,[3]]]", "{}", "{\"b\":1,\"a\":{\"c\":[]}}",
        "{\"a\":1,\"a\":2}", " [ 1 , 2 ] ",
    ] {
        let value: serde_json::Value = serde_json::from_str(text).unwrap();
        let json = parse(text).unwrap();
        assert_eq!(to_text(&json), value.to_string(), "{text}");
        assert!(same_json(&json, &parse_bytes(text.as_bytes()).unwrap()), "{text}");
        assert_eq!(json.as_u64(), value.as_u64(), "{text}");
        assert_eq!(json.as_bool(), value.as_bool(), "{text}");
        assert_eq!(json.as_str(), value.as_str(), "{text}");
        assert_eq!(json.is_null(), value.is_null(), "{text}");
        assert_eq!(json.is_object(), value.is_object(), "{text}");
    }
    for text in ["", "nul", "[1,]", "{\"a\"}", "01", "\"", "1 2"] {
        let expected = serde_json::from_str::<serde_json::Value>(text).unwrap_err();
        assert_eq!(parse(text).unwrap_err(), expected.to_string(), "{text}");
    }
    // Fields print in the order of their names, whatever order they came in.
    assert_eq!(to_text(&parse("{\"b\":1,\"a\":2}").unwrap()), "{\"a\":2,\"b\":1}");
    assert!(!same_json(&Json::Null, &Json::object()));
    assert!(!same_json(&parse("1").unwrap(), &parse("1.0").unwrap()));
    for (a, b) in [("0.0", "-0.0"), ("[0.0]", "[-0.0]"), ("0", "-0.0"), ("1.5", "-1.5")] {
        let value = |text: &str| serde_json::from_str::<serde_json::Value>(text).unwrap();
        assert_eq!(
            same_json(&parse(a).unwrap(), &parse(b).unwrap()),
            value(a) == value(b),
            "{a} {b}"
        );
    }
    assert!(same_json(
        &parse("{\"a\":1,\"b\":2}").unwrap(),
        &parse("{\"b\":2,\"a\":1}").unwrap()
    ));
}
