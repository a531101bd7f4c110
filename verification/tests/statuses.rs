//! How statuses are written and read.

use std::collections::BTreeMap;

use zjstatus::pipe::{deserialize_tab_statuses, serialize_tab_statuses};
use zjstatus::statuses::{drop_status, keys_in_order, put_status};

fn table(entries: &[(usize, &str)]) -> BTreeMap<usize, String> {
    entries.iter().map(|(k, v)| (*k, v.to_string())).collect()
}

#[test]
fn written_in_the_order_of_tabs() {
    let map = table(&[(10, "c"), (2, "b"), (0, "a")]);
    assert_eq!(serialize_tab_statuses(&map), "{\"0\":\"a\",\"2\":\"b\",\"10\":\"c\"}");
    assert_eq!(keys_in_order(&map), vec![0, 2, 10]);
}

#[test]
fn written_with_escapes() {
    let map = table(&[(0, "a\"b\\c")]);
    assert_eq!(serialize_tab_statuses(&map), "{\"0\":\"a\\\"b\\\\c\"}");
}

#[test]
fn largest_position() {
    let map = table(&[(usize::MAX, "x")]);
    assert_eq!(deserialize_tab_statuses(&serialize_tab_statuses(&map)), Some(map));
    assert_eq!(deserialize_tab_statuses("{\"18446744073709551616\":\"x\"}"), None);
}

#[test]
fn read_back_unchanged() {
    for map in [
        table(&[]),
        table(&[(0, "🤖"), (1, "✅")]),
        table(&[(3, " spaced ")]),
        table(&[(4, "")]),
        table(&[(5, "a:b::c{}")]),
        table(&[(6, "line\nbreak")]),
        table(&[(0, "a,b"), (1, "c")]),
        table(&[(0, "say \"hi\"")]),
        table(&[(0, "back\\slash"), (1, "\""), (2, "\\"), (3, "\\\\\"")]),
        table(&[(0, "\",\""), (1, "},{"), (2, "\\,")]),
    ] {
        assert_eq!(deserialize_tab_statuses(&serialize_tab_statuses(&map)), Some(map));
    }
}

#[test]
fn commas_and_escapes_in_values() {
    assert_eq!(
        deserialize_tab_statuses("{\"0\":\"a,b\",\"1\":\"c\"}"),
        Some(table(&[(0, "a,b"), (1, "c")]))
    );
    assert_eq!(
        deserialize_tab_statuses("{\"0\":\"say \\\"hi\\\"\"}"),
        Some(table(&[(0, "say \"hi\"")]))
    );
    assert_eq!(
        deserialize_tab_statuses("{\"0\":\"a\\\\\",\"1\":\"b\"}"),
        Some(table(&[(0, "a\\"), (1, "b")]))
    );
}

#[test]
fn different_tables_are_written_differently() {
    let tables = [
        table(&[]),
        table(&[(0, "a\",\"1\":\"b")]),
        table(&[(0, "a"), (1, "b")]),
        table(&[(0, "a\\"), (1, "b")]),
    ];
    for (i, a) in tables.iter().enumerate() {
        for b in &tables[..i] {
            assert_ne!(serialize_tab_statuses(a), serialize_tab_statuses(b));
        }
    }
}

#[test]
fn read_with_white_space() {
    assert_eq!(
        deserialize_tab_statuses("  { \"0\" : \"a\" , 1 : b }\n"),
        Some(table(&[(0, "a"), (1, "b")]))
    );
    assert_eq!(deserialize_tab_statuses("{  }"), Some(table(&[])));
}

#[test]
fn read_leniently() {
    assert_eq!(deserialize_tab_statuses("{0:}"), Some(table(&[(0, "")])));
    assert_eq!(deserialize_tab_statuses("{+7:x}"), Some(table(&[(7, "x")])));
    assert_eq!(deserialize_tab_statuses("{0:a:b}"), Some(table(&[(0, "a:b")])));
    assert_eq!(deserialize_tab_statuses("{0:a,0:b}"), Some(table(&[(0, "b")])));
    assert_eq!(deserialize_tab_statuses("{0:\"\"a\"\"}"), Some(table(&[(0, "a")])));
    assert_eq!(deserialize_tab_statuses("{\"0:a}"), Some(table(&[(0, "a")])));
    assert_eq!(deserialize_tab_statuses("{0:a\\b,1:c}"), Some(table(&[(0, "a\\b"), (1, "c")])));
}

#[test]
fn unreadable() {
    for json in ["", "{", "}", "x", "{\"0\":\"a\"", "\"0\":\"a\"}", "{0}", "{,}", "{0:a,}", "{x:a}",
        "{-1:a}", "{:a}"]
    {
        assert_eq!(deserialize_tab_statuses(json), None, "{json}");
    }
}

#[test]
fn put_and_drop() {
    let mut map = table(&[(0, "a")]);
    put_status(&mut map, 1, "b".to_string());
    put_status(&mut map, 0, "c".to_string());
    assert_eq!(map, table(&[(0, "c"), (1, "b")]));
    drop_status(&mut map, 0);
    drop_status(&mut map, 7);
    assert_eq!(map, table(&[(1, "b")]));
}

/// Reads a table in which every comma separates, and quotes mean nothing.
fn every_comma(json: &str) -> Option<BTreeMap<usize, String>> {
    let json = json.trim();
    let inner = json.strip_prefix('{')?.strip_suffix('}')?;
    if inner.trim().is_empty() {
        return Some(BTreeMap::new());
    }
    let mut map = BTreeMap::new();
    for part in inner.split(',') {
        let (key, value) = part.trim().split_once(':')?;
        let key = key.trim().trim_matches('"').parse::<usize>().ok()?;
        map.insert(key, value.trim().trim_matches('"').to_string());
    }
    Some(map)
}

#[test]
fn quotes_that_do_not_pair_up() {
    assert_eq!(
        deserialize_tab_statuses("{\"0\":\"a,\"1\":\"b\"}"),
        Some(table(&[(0, "a"), (1, "b")]))
    );
    assert_eq!(
        deserialize_tab_statuses("{\"0\":\"a,\"1\":b\"}"),
        Some(table(&[(0, "a"), (1, "b")]))
    );
    for json in [
        "{\"0\":\"a,\"1\":\"b\"}",
        "{\"0\":\"a,\"1\":b\"}",
        "{0:\"a,1:b}",
        "{0:a\"b,1:c\"d}",
        "{0:a\"b,c\"d}",
        "{\"0:1\":\"x\"}",
        "{\"0:1,2\":\"x\"}",
        "{\"0\":\"a\\\",1:b}",
        "{0:\"\"a,1:b\"\"}",
        "{\"0\"x:\"a,1:b\"}",
        "{0:\\\"a,1:b\\\"}",
        "{\"0\":\"a\\\\b\",1:\"c}",
        "{\"0,1\":x}",
        "{\"a,b\"}",
    ] {
        assert_eq!(deserialize_tab_statuses(json), every_comma(json), "{json}");
    }
}

#[test]
fn every_short_text() {
    let alphabet = ['"', ',', ':', '0', '1', 'x', ' '];
    let mut texts = vec![String::new()];
    for _ in 0..7 {
        let mut longer = Vec::new();
        for text in &texts {
            for c in alphabet {
                longer.push(format!("{text}{c}"));
            }
        }
        texts = longer;
    }
    for text in texts {
        let json = format!("{{{text}}}");
        let read = deserialize_tab_statuses(&json);
        if read != every_comma(&json) {
            let map = read.unwrap();
            assert!(map.values().any(|v| v.contains(',')), "{json}");
        }
    }
}
