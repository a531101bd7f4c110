//! Tab statuses as text: a table from tab positions to status strings, written
//! as one JSON object.

use crate::json::{
    cut_text, escape, is_well_quoted, pieces, push_escaped, unquote, unquote_text, well_quoted,
};
use crate::number::{decimal, parse_number, parse_unsigned, push_decimal};
use crate::text::{
    chars_of, find_char, first_at, has_text, lemma_first_unique, split, split_text, texts, trim,
    trim_text, Strip,
};
use std::collections::BTreeMap;
use vstd::prelude::*;
use vstd::std_specs::btree::increasing_seq;
use vstd::std_specs::cmp::OrdSpec;
use vstd::std_specs::iter::IteratorSpec;

verus! {

/// What a status table holds: a text for each tab position that has one.
pub open spec fn status_map(m: Map<usize, String>) -> Map<usize, Seq<char>> {
    m.map_values(|v: String| v@)
}

/// `keys` is `dom` in increasing order.
pub open spec fn lists(keys: Seq<usize>, dom: Set<usize>) -> bool {
    &&& forall|i: int, j: int| 0 <= i < j < keys.len() ==> keys[i] < keys[j]
    &&& forall|k: usize| #[trigger] dom.contains(k) <==> keys.contains(k)
}

/// The members of `dom` in increasing order.
pub open spec fn ordered_keys(dom: Set<usize>) -> Seq<usize> {
    choose|keys: Seq<usize>| lists(keys, dom)
}

/// A key and its value, both quoted, with a colon between them.
pub open spec fn entry_text(k: usize, v: Seq<char>) -> Seq<char> {
    (seq!['"'] + decimal(k as nat) + seq!['"']) + seq![':'] + (seq!['"'] + escape(v) + seq!['"'])
}

/// The parts in order, with `sep` between each two.
pub open spec fn join(parts: Seq<Seq<char>>, sep: char) -> Seq<char>
    decreases parts.len(),
{
    if parts.len() == 0 {
        Seq::empty()
    } else if parts.len() == 1 {
        parts[0]
    } else {
        join(parts.drop_last(), sep) + seq![sep] + parts.last()
    }
}

/// The entries of a table in the order `keys`.
pub open spec fn entry_texts(keys: Seq<usize>, m: Map<usize, Seq<char>>) -> Seq<Seq<char>> {
    keys.map_values(|k: usize| entry_text(k, m[k]))
}

/// A table as text: its entries by increasing key, between braces.
pub open spec fn render_statuses(m: Map<usize, Seq<char>>) -> Seq<char> {
    seq!['{'] + join(entry_texts(ordered_keys(m.dom()), m), ',') + seq!['}']
}

/// How double quotes in a table are read.
#[derive(Clone, Copy, Debug, PartialEq, Eq, Structural)]
pub enum Quoting {
    /// They enclose strings, in which commas do not separate, and escapes are undone.
    Strings,
    /// They mean nothing, and are taken off the ends of keys and values.
    Loose,
}

/// The key and the value of an entry as they stand: before and behind the first colon,
/// without surrounding white space.
pub open spec fn halves(part: Seq<char>) -> Option<(Seq<char>, Seq<char>)> {
    let p = trim(part, Strip::White);
    if exists|i: int| first_at(p, seq![':'], i) {
        let i = choose|i: int| first_at(p, seq![':'], i);
        Some((trim(p.take(i), Strip::White), trim(p.skip(i + 1), Strip::White)))
    } else {
        None
    }
}

/// What a key or a value stands for.
pub open spec fn plain_text(t: Seq<char>, quoting: Quoting) -> Seq<char> {
    match quoting {
        Quoting::Strings => unquote(t),
        Quoting::Loose => trim(t, Strip::Quotes),
    }
}

/// Reads one entry.
pub open spec fn parse_entry(part: Seq<char>, quoting: Quoting) -> Option<(usize, Seq<char>)> {
    match halves(part) {
        Some((key, value)) => match parse_unsigned(plain_text(key, quoting), usize::MAX as nat) {
            Some(k) => Some((k as usize, plain_text(value, quoting))),
            None => None,
        },
        None => None,
    }
}

/// Reads entries in order, a later one over an earlier one with the same key.
/// One that cannot be read makes the whole unreadable.
pub open spec fn parse_entries(parts: Seq<Seq<char>>, quoting: Quoting) -> Option<
    Map<usize, Seq<char>>,
>
    decreases parts.len(),
{
    if parts.len() == 0 {
        Some(Map::empty())
    } else {
        match (parse_entries(parts.drop_last(), quoting), parse_entry(parts.last(), quoting)) {
            (Some(m), Some((k, v))) => Some(m.insert(k, v)),
            _ => None,
        }
    }
}

/// The key and the value of an entry are each a string in double quotes, or bare.
pub open spec fn sound_entry(part: Seq<char>) -> bool {
    match halves(part) {
        Some((key, value)) => well_quoted(key) && well_quoted(value),
        None => false,
    }
}

/// The double quotes of a text pair up: they enclose whole keys and whole values.
pub open spec fn sound(inner: Seq<char>) -> bool {
    forall|i: int| 0 <= i < pieces(inner).len() ==> sound_entry(#[trigger] pieces(inner)[i])
}

/// Reads what stands between the braces of a table. Where the double quotes pair up,
/// they enclose strings, and a comma inside one does not separate entries. Where they do
/// not, every comma separates.
pub open spec fn parse_inner(inner: Seq<char>) -> Option<Map<usize, Seq<char>>> {
    if sound(inner) {
        parse_entries(pieces(inner), Quoting::Strings)
    } else {
        parse_entries(split(inner, seq![',']), Quoting::Loose)
    }
}

/// Reads a table: entries between commas, all between braces. White space around the
/// braces counts for nothing, and so does an all-white inside.
pub open spec fn parse_statuses(json: Seq<char>) -> Option<Map<usize, Seq<char>>> {
    let t = trim(json, Strip::White);
    if t.len() == 0 || t.first() != '{' || t.last() != '}' {
        None
    } else {
        let inner = t.subrange(1, t.len() - 1);
        if trim(inner, Strip::White).len() == 0 {
            Some(Map::empty())
        } else {
            parse_inner(inner)
        }
    }
}

/// There is only one increasing order of a set.
pub proof fn lemma_listing_unique(a: Seq<usize>, b: Seq<usize>, dom: Set<usize>)
    requires
        lists(a, dom),
        lists(b, dom),
    ensures
        a == b,
    decreases a.len(),
{
    if a.len() == 0 {
        if b.len() > 0 {
            assert(b.contains(b[0]));
            assert(dom.contains(b[0]));
        }
        assert(a =~= b);
    } else {
        let x = a.last();
        assert(a.contains(x));
        assert(dom.contains(x));
        assert(b.contains(x));
        let y = b.last();
        assert(b.contains(y));
        assert(dom.contains(y));
        assert(a.contains(y));
        assert(x == y);
        let rest = dom.remove(x);
        lemma_listing_front(a, dom);
        lemma_listing_front(b, dom);
        lemma_listing_unique(a.drop_last(), b.drop_last(), rest);
        assert(a =~= a.drop_last().push(x));
        assert(b =~= b.drop_last().push(x));
    }
}

/// All but the last of an ordered set list the set without its greatest member.
pub proof fn lemma_listing_front(a: Seq<usize>, dom: Set<usize>)
    requires
        lists(a, dom),
        a.len() > 0,
    ensures
        lists(a.drop_last(), dom.remove(a.last())),
{
    let front = a.drop_last();
    assert forall|k: usize| #[trigger]
        dom.remove(a.last()).contains(k) <==> front.contains(k) by {
        if dom.remove(a.last()).contains(k) {
            assert(a.contains(k));
            let i = choose|i: int| 0 <= i < a.len() && a[i] == k;
            assert(front[i] == k);
        }
        if front.contains(k) {
            let i = choose|i: int| 0 <= i < front.len() && front[i] == k;
            assert(a[i] == k);
            assert(a.contains(k));
        }
    }
}

/// Whatever lists a set is its ordered listing.
pub proof fn lemma_ordered_keys(keys: Seq<usize>, dom: Set<usize>)
    requires
        lists(keys, dom),
    ensures
        ordered_keys(dom) == keys,
{
    lemma_listing_unique(keys, ordered_keys(dom), dom);
}

/// The keys of a table in increasing order.
pub fn keys_in_order<V>(map: &BTreeMap<usize, V>) -> (keys: Vec<usize>)
    ensures
        lists(keys@, map@.dom()),
        forall|i: int, j: int| 0 <= i < j < keys@.len() ==> keys@[i] < keys@[j],
        forall|k: usize| #[trigger] map@.contains_key(k) <==> keys@.contains(k),
{
    broadcast use vstd::laws_cmp::group_laws_cmp;

    let mut keys: Vec<usize> = Vec::new();
    let iter = map.iter();
    let ghost all = iter.remaining();
    let ghost order = all.map_values(|kv: (&usize, &V)| *kv.0);
    for kv in it: iter
        invariant
            it.seq() == all,
            order == all.map_values(|kv: (&usize, &V)| *kv.0),
            keys@.len() == it.index(),
            forall|i: int| 0 <= i < keys@.len() ==> keys@[i] == order[i],
    {
        keys.push(*kv.0);
    }
    proof {
        assert(keys@ =~= order);
        assert(increasing_seq(order));
        assert forall|i: int, j: int| 0 <= i < j < order.len() implies order[i] < order[j] by {
            assert(order[i].cmp_spec(&order[j]) is Less);
        }
        assert forall|k: usize| #[trigger] map@.contains_key(k) <==> order.contains(k) by {
            if map@.contains_key(k) {
                let i = choose|i: int| 0 <= i < all.len() && all[i] == (&k, &map@[k]);
                assert(order[i] == k);
            }
            if order.contains(k) {
                let i = choose|i: int| 0 <= i < order.len() && order[i] == k;
                assert(map@.contains_key(*all[i].0));
            }
        }
    }
    keys
}

/// The status under a key that has one.
fn status_at(map: &BTreeMap<usize, String>, k: usize) -> (v: &String)
    requires
        map@.contains_key(k),
    ensures
        v@ == status_map(map@)[k],
{
    broadcast use vstd::laws_cmp::group_laws_cmp;

    map.get(&k).unwrap()
}

/// Sets the status under a key.
pub fn put_status(map: &mut BTreeMap<usize, String>, k: usize, v: String)
    ensures
        status_map(final(map)@) == status_map(old(map)@).insert(k, v@),
{
    broadcast use vstd::laws_cmp::group_laws_cmp;

    map.insert(k, v);
    assert(status_map(map@) =~= status_map(old(map)@).insert(k, v@));
}

/// Removes the status under a key, if there is one.
pub fn drop_status(map: &mut BTreeMap<usize, String>, k: usize)
    ensures
        status_map(final(map)@) == status_map(old(map)@).remove(k),
{
    broadcast use vstd::laws_cmp::group_laws_cmp;

    map.remove(&k);
    assert(status_map(map@) =~= status_map(old(map)@).remove(k));
}

fn push_entry(out: &mut String, k: usize, v: &str)
    ensures
        final(out)@ == old(out)@ + entry_text(k, v@),
{
    out.push('"');
    push_decimal(out, k as u64);
    out.push('"');
    out.push(':');
    out.push('"');
    push_escaped(out, v);
    out.push('"');
    assert(out@ =~= old(out)@ + entry_text(k, v@));
}

/// Writes a status table as a JSON object.
pub fn serialize_tab_statuses(map: &BTreeMap<usize, String>) -> (json: String)
    ensures
        json@ == render_statuses(status_map(map@)),
{
    let keys = keys_in_order(map);
    let ghost m = status_map(map@);
    let ghost entries = entry_texts(keys@, m);
    let mut out: String = String::new();
    out.push('{');
    assert(out@ =~= seq!['{'] + join(entries.take(0), ','));
    let mut i: usize = 0;
    while i < keys.len()
        invariant
            i <= keys@.len(),
            lists(keys@, map@.dom()),
            m == status_map(map@),
            entries == entry_texts(keys@, m),
            out@ == seq!['{'] + join(entries.take(i as int), ','),
        decreases keys@.len() - i,
    {
        let k = keys[i];
        assert(keys@.contains(k));
        assert(map@.dom().contains(k));
        if i > 0 {
            out.push(',');
        }
        push_entry(&mut out, k, status_at(map, k).as_str());
        proof {
            assert(entries[i as int] == entry_text(k, m[k]));
            assert(entries.take(i + 1).drop_last() =~= entries.take(i as int));
            assert(entries.take(i + 1).last() == entries[i as int]);
            assert(out@ =~= seq!['{'] + join(entries.take(i + 1), ','));
        }
        i += 1;
    }
    out.push('}');
    proof {
        assert(entries.take(entries.len() as int) =~= entries);
        assert(m.dom() =~= map@.dom());
        lemma_ordered_keys(keys@, m.dom());
        assert(out@ =~= render_statuses(m));
    }
    out
}

/// Finds the key and the value of an entry.
fn read_halves<'a>(part: &'a str) -> (found: Option<(&'a str, &'a str)>)
    ensures
        match found {
            Some(h) => halves(part@) == Some((h.0@, h.1@)),
            None => halves(part@) is None,
        },
{
    let p = trim_text(part, Strip::White);
    let cs = chars_of(p);
    match find_char(&cs, ':') {
        Some(i) => {
            proof {
                let k = choose|k: int| first_at(p@, seq![':'], k);
                lemma_first_unique(p@, seq![':'], i as int, k);
                assert(p@.subrange(0, i as int) =~= p@.take(i as int));
                assert(p@.subrange(i + 1, p@.len() as int) =~= p@.skip(i + 1));
            }
            let key = trim_text(p.substring_char(0, i), Strip::White);
            let value = trim_text(p.substring_char(i + 1, cs.len()), Strip::White);
            Some((key, value))
        },
        None => {
            assert forall|k: int| !first_at(p@, seq![':'], k) by {
                if first_at(p@, seq![':'], k) {
                    assert(has_text(p@, seq![':']));
                }
            }
            None
        },
    }
}

/// Reads a key or a value.
fn read_text(t: &str, quoting: Quoting) -> (text: String)
    ensures
        text@ == plain_text(t@, quoting),
{
    match quoting {
        Quoting::Strings => unquote_text(t),
        Quoting::Loose => trim_text(t, Strip::Quotes).to_owned(),
    }
}

/// Reads one entry.
fn read_entry(part: &str, quoting: Quoting) -> (entry: Option<(usize, String)>)
    ensures
        match entry {
            Some(e) => parse_entry(part@, quoting) == Some((e.0, e.1@)),
            None => parse_entry(part@, quoting) is None,
        },
{
    match read_halves(part) {
        Some((key, value)) => {
            let key = read_text(key, quoting);
            match parse_number(key.as_str(), usize::MAX as u64) {
                Some(k) => Some((k as usize, read_text(value, quoting))),
                None => None,
            }
        },
        None => None,
    }
}

/// Whether double quotes enclose whole keys and whole values only.
fn all_sound(parts: &Vec<&str>) -> (yes: bool)
    ensures
        yes == (forall|i: int|
            0 <= i < parts@.len() ==> sound_entry((#[trigger] texts(parts@)[i]))),
{
    let ghost all = texts(parts@);
    let mut i: usize = 0;
    while i < parts.len()
        invariant
            i <= parts.len(),
            all == texts(parts@),
            forall|j: int| 0 <= j < i ==> sound_entry(#[trigger] all[j]),
        decreases parts.len() - i,
    {
        assert(all[i as int] == parts@[i as int]@);
        let sound = match read_halves(parts[i]) {
            Some((key, value)) => is_well_quoted(key) && is_well_quoted(value),
            None => false,
        };
        if !sound {
            assert(!sound_entry(all[i as int]));
            return false;
        }
        i += 1;
    }
    true
}

/// Once an entry cannot be read, the whole cannot.
proof fn lemma_unreadable(parts: Seq<Seq<char>>, quoting: Quoting, n: int)
    requires
        0 <= n <= parts.len(),
        parse_entries(parts.take(n), quoting) is None,
    ensures
        parse_entries(parts, quoting) is None,
    decreases parts.len() - n,
{
    if n < parts.len() {
        assert(parts.take(n + 1).drop_last() =~= parts.take(n));
        lemma_unreadable(parts, quoting, n + 1);
    } else {
        assert(parts.take(n) =~= parts);
    }
}

/// Reads entries in order.
fn read_entries(parts: &Vec<&str>, quoting: Quoting) -> (statuses: Option<BTreeMap<usize, String>>)
    ensures
        match statuses {
            Some(map) => parse_entries(texts(parts@), quoting) == Some(status_map(map@)),
            None => parse_entries(texts(parts@), quoting) is None,
        },
{
    let mut map: BTreeMap<usize, String> = BTreeMap::new();
    assert(status_map(map@) =~= Map::empty());
    let ghost all = texts(parts@);
    let mut i: usize = 0;
    while i < parts.len()
        invariant
            i <= parts@.len(),
            all == texts(parts@),
            parse_entries(all.take(i as int), quoting) == Some(status_map(map@)),
        decreases parts@.len() - i,
    {
        proof {
            assert(all.take(i + 1).drop_last() =~= all.take(i as int));
            assert(all.take(i + 1).last() == parts@[i as int]@);
        }
        match read_entry(parts[i], quoting) {
            Some(entry) => {
                put_status(&mut map, entry.0, entry.1);
            },
            None => {
                proof {
                    lemma_unreadable(all, quoting, i + 1);
                }
                return None;
            },
        }
        i += 1;
    }
    assert(all.take(all.len() as int) =~= all);
    Some(map)
}

/// Reads a status table from text. `None` if it is not one.
pub fn deserialize_tab_statuses(json: &str) -> (statuses: Option<BTreeMap<usize, String>>)
    ensures
        match statuses {
            Some(map) => parse_statuses(json@) == Some(status_map(map@)),
            None => parse_statuses(json@) is None,
        },
{
    let t = trim_text(json, Strip::White);
    let cs = chars_of(t);
    let n: usize = cs.len();
    if n == 0 || cs[0] != '{' || cs[n - 1] != '}' {
        return None;
    }
    let inner = t.substring_char(1, n - 1);
    if trim_text(inner, Strip::White).is_empty() {
        let map: BTreeMap<usize, String> = BTreeMap::new();
        assert(status_map(map@) =~= Map::empty());
        return Some(map);
    }
    let parts = cut_text(inner);
    if all_sound(&parts) {
        assert(sound(inner@));
        return read_entries(&parts, Quoting::Strings);
    }
    assert(!sound(inner@));
    proof {
        reveal_strlit(",");
        assert(","@ =~= seq![',']);
    }
    read_entries(&split_text(inner, ","), Quoting::Loose)
}

} // verus!
