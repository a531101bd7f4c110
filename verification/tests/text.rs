//! Texts, numbers, and tables of texts.

use std::collections::BTreeMap;

use zjstatus::json::{cut_text, is_well_quoted, push_escaped, unquote_text};
use zjstatus::number::{parse_number, push_decimal};
use zjstatus::text::{
    chars_of, find_char, is_white_space, matches_at, same_text, split_text, trim_text, Strip,
};
use zjstatus::text_map::{stands_before, TextMap};

fn decimal(n: u64) -> String {
    let mut out = String::new();
    push_decimal(&mut out, n);
    out
}

#[test]
fn split_like_std() {
    let inputs = [
        "", ":", "::", ":::", "::::", "a", "a::b", "::a", "a::", "a:::b", "🤖::✅::", "a:b::c",
    ];
    for s in inputs {
        assert_eq!(split_text(s, "::"), s.split("::").collect::<Vec<&str>>(), "{s}");
        assert_eq!(split_text(s, ":"), s.split(':').collect::<Vec<&str>>(), "{s}");
        assert_eq!(split_text(s, "aba"), s.split("aba").collect::<Vec<&str>>(), "{s}");
    }
    assert_eq!(split_text("ababa", "aba"), vec!["", "ba"]);
    assert_eq!(split_text("x\ny\n", "\n"), vec!["x", "y", ""]);
}

#[test]
fn white_space_like_std() {
    for n in 0..=0x10FFFF_u32 {
        if let Some(c) = char::from_u32(n) {
            assert_eq!(is_white_space(c), c.is_whitespace(), "{n:x}");
        }
    }
}

#[test]
fn trim_like_std() {
    for s in ["", " ", "a", " a ", "\t a b\u{3000}", "\"a\"", " \"", "🤖 "] {
        assert_eq!(trim_text(s, Strip::White), s.trim());
        assert_eq!(trim_text(s, Strip::Quotes), s.trim_matches('"'));
    }
    assert_eq!(trim_text("\"\"a\"b\"\"", Strip::Quotes), "a\"b");
    assert_eq!(trim_text("\"\"\"", Strip::Quotes), "");
}

#[test]
fn same_text_compares_contents() {
    assert!(same_text("", ""));
    assert!(same_text("zjstatus", "zjstatus"));
    assert!(!same_text("zjstatus", "zjstatu"));
    assert!(!same_text("zjstatus", "zjstatuS"));
}

#[test]
fn searching_characters() {
    let cs = chars_of("a🤖a");
    assert_eq!(cs, vec!['a', '🤖', 'a']);
    assert_eq!(find_char(&cs, 'a'), Some(0));
    assert_eq!(find_char(&cs, '🤖'), Some(1));
    assert_eq!(find_char(&cs, 'b'), None);
    assert!(matches_at(&cs, &chars_of("🤖a"), 1));
    assert!(!matches_at(&cs, &chars_of("🤖a"), 0));
    assert!(matches_at(&cs, &chars_of(""), 3));
}

#[test]
fn numbers_are_written_in_decimal() {
    assert_eq!(decimal(0), "0");
    assert_eq!(decimal(7), "7");
    assert_eq!(decimal(10), "10");
    assert_eq!(decimal(4_294_967_296), "4294967296");
    assert_eq!(decimal(u64::MAX), "18446744073709551615");
}

#[test]
fn numbers_are_read_like_std() {
    let inputs = [
        "", "+", "-", "0", "007", "+5", "-0", "-5", "5 ", " 5", "++5", "5a", "٣", "4294967295",
        "4294967296", "+4294967295", "99999999999999999999999",
    ];
    for s in inputs {
        assert_eq!(parse_number(s, u32::MAX as u64), s.parse::<u32>().ok().map(|n| n as u64), "{s}");
        assert_eq!(parse_number(s, u64::MAX), s.parse::<u64>().ok(), "{s}");
    }
    assert_eq!(parse_number("18446744073709551615", u64::MAX), Some(u64::MAX));
    assert_eq!(parse_number("18446744073709551616", u64::MAX), None);
    assert_eq!(parse_number("+5", 9), Some(5));
    assert_eq!(parse_number("10", 9), None);
}

#[test]
fn numbers_are_read_back() {
    for n in [0, 1, 9, 10, 99, 100, 12_345, u64::MAX] {
        assert_eq!(parse_number(&decimal(n), u64::MAX), Some(n));
    }
}

#[test]
fn table_like_std() {
    let keys = ["b", "a", "🤖", "", "ab", "b", "é", "z", "aa", "a"];
    let mut map: TextMap<usize> = TextMap::new();
    let mut std: BTreeMap<String, usize> = BTreeMap::new();
    for (i, key) in keys.iter().enumerate() {
        map.insert(key.to_string(), i);
        std.insert(key.to_string(), i);
    }
    let entries: Vec<(String, usize)> = map.entries().iter().map(|e| (e.0.clone(), e.1)).collect();
    assert_eq!(entries, std.clone().into_iter().collect::<Vec<(String, usize)>>());
    for key in keys {
        assert_eq!(map.get(key), std.get(key));
    }
    assert_eq!(map.get("missing"), None);
    assert_eq!(map.remove("ab"), Some(4));
    assert_eq!(map.remove("ab"), None);
    assert_eq!(map.get("ab"), None);
    assert_eq!(map.get("a"), Some(&9));
    assert_eq!(map.entries().len(), std.len() - 1);
}

#[test]
fn texts_are_ordered_like_std() {
    let words = ["", "a", "aa", "ab", "b", "é", "z", "🤖", "\u{ffff}"];
    for a in words {
        for b in words {
            assert_eq!(stands_before(a, b), a < b, "{a} {b}");
        }
    }
}

#[test]
fn cutting_outside_quotes() {
    assert_eq!(cut_text(""), vec![""]);
    assert_eq!(cut_text("a,b"), vec!["a", "b"]);
    assert_eq!(cut_text(",,"), vec!["", "", ""]);
    assert_eq!(cut_text("\"a,b\",c"), vec!["\"a,b\"", "c"]);
    assert_eq!(cut_text("\"a\\\",b\",c"), vec!["\"a\\\",b\"", "c"]);
    assert_eq!(cut_text("\"a\\\\\",b"), vec!["\"a\\\\\"", "b"]);
    assert_eq!(cut_text("a\\,b"), vec!["a\\", "b"]);
    assert_eq!(cut_text("a\"b,c"), vec!["a\"b,c"]);
    assert_eq!(cut_text("a\\\"b,c"), vec!["a\\\"b", "c"]);
}

#[test]
fn unquoting() {
    assert_eq!(unquote_text(""), "");
    assert_eq!(unquote_text("a"), "a");
    assert_eq!(unquote_text("\"\""), "");
    assert_eq!(unquote_text("\"a b\""), "a b");
    assert_eq!(unquote_text("\"a\\\"b\""), "a\"b");
    assert_eq!(unquote_text("\"a\\\\\""), "a\\");
    assert_eq!(unquote_text("\"a\\n\""), "a\\n");
    assert_eq!(unquote_text("\""), "");
    assert_eq!(unquote_text("\"a"), "a");
    assert_eq!(unquote_text("\"a\"b\""), "a\"b");
    assert_eq!(unquote_text("\"a\\\""), "a\\");
    assert_eq!(unquote_text("a\\\\b"), "a\\\\b");
}

#[test]
fn escaped_and_unquoted_again() {
    for s in ["", "a", "\"", "\\", "\\\"", "a,\"b\\\\c\"", "🤖 \\n"] {
        let mut out = "\"".to_string();
        push_escaped(&mut out, s);
        out.push('"');
        assert_eq!(unquote_text(&out), s);
        assert_eq!(cut_text(&out), vec![out.as_str()]);
    }
    let mut out = "x".to_string();
    push_escaped(&mut out, "a\"b\\");
    assert_eq!(out, "xa\\\"b\\\\");
}

#[test]
fn well_quoted_texts() {
    for t in ["", "a", "\"\"", "\"a,b\"", "\"a\\\"b\"", "a\\\"b", "\"a\\\\\""] {
        assert!(is_well_quoted(t), "{t}");
    }
    for t in ["\"", "\"a", "a\"", "\"a\"b", "\"a\"b\"", "\"a\\\"", "a\\\\\"b"] {
        assert!(!is_well_quoted(t), "{t}");
    }
}
