//! What writing a status table and reading it back gives.

use crate::json::{
    cut_at, escape, escape_char, escaped, first_cut, lemma_pieces_at, lemma_pieces_whole, pieces,
    quote_at, quoted, unescape, unquote, within_quotes,
};
use crate::number::{decimal, is_digit, lemma_decimal_digits, lemma_parse_decimal};
use crate::statuses::{
    entry_text, entry_texts, halves, join, lists, ordered_keys, parse_entries, parse_entry,
    parse_inner, parse_statuses, plain_text, render_statuses, sound, sound_entry, Quoting,
};
use crate::text::{
    first_at, has_text, lemma_first_exists, lemma_first_unique, occurs_at, split, trim,
    white_space, Strip,
};
use vstd::prelude::*;

verus! {

/// Escaping leaves a text alone that has nothing to escape.
proof fn lemma_escape_plain(v: Seq<char>)
    requires
        !v.contains('"'),
        !v.contains('\\'),
    ensures
        escape(v) == v,
    decreases v.len(),
{
    if v.len() > 0 {
        let front = v.drop_last();
        assert forall|c: char| front.contains(c) implies v.contains(c) by {
            let i = choose|i: int| 0 <= i < front.len() && front[i] == c;
            assert(v[i] == c);
        }
        assert(v.contains(v.last())) by {
            assert(v[v.len() - 1] == v.last());
        }
        lemma_escape_plain(front);
        assert(escape(v) =~= v);
    }
}

/// Escaping brings in no characters but backslashes.
pub proof fn lemma_escape_chars(v: Seq<char>, c: char)
    requires
        !v.contains(c),
        c != '\\',
    ensures
        !escape(v).contains(c),
    decreases v.len(),
{
    if v.len() > 0 {
        let front = v.drop_last();
        assert forall|d: char| front.contains(d) implies v.contains(d) by {
            let i = choose|i: int| 0 <= i < front.len() && front[i] == d;
            assert(v[i] == d);
        }
        assert(v.contains(v.last())) by {
            assert(v[v.len() - 1] == v.last());
        }
        lemma_escape_chars(front, c);
        if escape(v).contains(c) {
            let i = choose|i: int| 0 <= i < escape(v).len() && escape(v)[i] == c;
            if i < escape(front).len() {
                assert(escape(front)[i] == c);
            } else {
                assert(escape_char(v.last())[i - escape(front).len()] == c);
            }
        }
    }
}

/// A single character occurs where it stands.
pub proof fn lemma_char_at(s: Seq<char>, c: char, i: int)
    requires
        0 <= i < s.len(),
    ensures
        occurs_at(s, seq![c], i) <==> s[i] == c,
{
    if s[i] == c {
        assert(s.subrange(i, i + 1) =~= seq![c]);
    } else {
        assert(s.subrange(i, i + 1)[0] != c);
    }
}

/// A text holds a character exactly if it occurs in it.
pub proof fn lemma_has_char(s: Seq<char>, c: char)
    ensures
        has_text(s, seq![c]) <==> s.contains(c),
{
    if s.contains(c) {
        let i = choose|i: int| 0 <= i < s.len() && s[i] == c;
        lemma_char_at(s, c, i);
    }
    if has_text(s, seq![c]) {
        let i = choose|i: int| occurs_at(s, seq![c], i);
        lemma_char_at(s, c, i);
    }
}

/// The first separator of a joined text ends its first part.
pub proof fn lemma_first_char(a: Seq<char>, c: char, b: Seq<char>)
    requires
        !a.contains(c),
    ensures
        first_at(a + seq![c] + b, seq![c], a.len() as int),
{
    let s = a + seq![c] + b;
    lemma_char_at(s, c, a.len() as int);
    assert forall|j: int| 0 <= j < a.len() implies !occurs_at(s, seq![c], j) by {
        lemma_char_at(s, c, j);
        assert(a.contains(a[j]));
    }
}

/// Joining, seen from the front.
pub proof fn lemma_join_front(parts: Seq<Seq<char>>, sep: char)
    requires
        parts.len() >= 2,
    ensures
        join(parts, sep) == parts[0] + seq![sep] + join(parts.drop_first(), sep),
    decreases parts.len(),
{
    let front = parts.drop_last();
    if parts.len() == 2 {
        reveal_with_fuel(join, 2);
        assert(join(parts, sep) =~= parts[0] + seq![sep] + join(parts.drop_first(), sep));
    } else {
        lemma_join_front(front, sep);
        assert(front.drop_first() =~= parts.drop_first().drop_last());
        assert(join(parts, sep) =~= parts[0] + seq![sep] + join(parts.drop_first(), sep));
    }
}

/// Escaping, seen from the front.
proof fn lemma_escape_front(v: Seq<char>)
    requires
        v.len() > 0,
    ensures
        escape(v) == escape_char(v.first()) + escape(v.drop_first()),
    decreases v.len(),
{
    if v.len() == 1 {
        assert(v.drop_first() =~= v.drop_last());
        assert(escape(v.drop_last()) =~= Seq::<char>::empty());
        assert(escape(v) =~= escape_char(v.first()) + escape(v.drop_first()));
    } else {
        lemma_escape_front(v.drop_last());
        assert(v.drop_last().drop_first() =~= v.drop_first().drop_last());
        assert(escape(v) =~= escape_char(v.first()) + escape(v.drop_first()));
    }
}

/// Undoing escapes undoes escaping.
pub proof fn law_unescape(v: Seq<char>)
    ensures
        unescape(escape(v)) == v,
    decreases v.len(),
{
    if v.len() > 0 {
        let c = v.first();
        let rest = v.drop_first();
        let e = escape(v);
        lemma_escape_front(v);
        law_unescape(rest);
        if c == '\\' || c == '"' {
            assert(e[0] == '\\' && e[1] == c);
            assert(e.skip(2) =~= escape(rest));
        } else {
            assert(e[0] == c);
            assert(e.skip(1) =~= escape(rest));
        }
        assert(unescape(e) =~= v);
    }
}

/// What precedes a position decides about it, not what follows.
proof fn lemma_prefix(a: Seq<char>, b: Seq<char>, i: int)
    requires
        0 <= i <= a.len(),
    ensures
        escaped(a + b, i) == escaped(a, i),
        within_quotes(a + b, i) == within_quotes(a, i),
        i < a.len() ==> quote_at(a + b, i) == quote_at(a, i) && cut_at(a + b, i) == cut_at(a, i),
    decreases i,
{
    if i > 0 {
        lemma_prefix(a, b, i - 1);
    }
}

/// An escaped text has no open quote in it, and leaves no character behind it escaped.
proof fn lemma_escape_closed(pre: Seq<char>, v: Seq<char>)
    requires
        !escaped(pre, pre.len() as int),
    ensures
        ({
            let s = pre + escape(v);
            &&& !escaped(s, s.len() as int)
            &&& within_quotes(s, s.len() as int) == within_quotes(pre, pre.len() as int)
            &&& forall|i: int|
                pre.len() <= i < s.len() ==> !quote_at(s, i) && within_quotes(s, i)
                    == within_quotes(pre, pre.len() as int)
        }),
    decreases v.len(),
{
    let s = pre + escape(v);
    if v.len() == 0 {
        assert(s =~= pre);
    } else {
        let front = v.drop_last();
        let c = v.last();
        let t = pre + escape(front);
        let n = t.len() as int;
        lemma_escape_closed(pre, front);
        assert(s =~= t + escape_char(c));
        lemma_prefix(t, escape_char(c), n);
        assert(s[n] == escape_char(c)[0]);
        if c == '\\' || c == '"' {
            assert(s[n + 1] == c);
            assert(escaped(s, n + 1));
            assert(!quote_at(s, n) && !quote_at(s, n + 1));
            assert(within_quotes(s, n + 1) == within_quotes(s, n));
            assert(within_quotes(s, n + 2) == within_quotes(s, n + 1));
            assert(!escaped(s, n + 2));
        } else {
            assert(!quote_at(s, n));
            assert(within_quotes(s, n + 1) == within_quotes(s, n));
        }
        assert forall|i: int| pre.len() <= i < s.len() implies !quote_at(s, i) && within_quotes(s, i)
            == within_quotes(pre, pre.len() as int) by {
            if i < n {
                lemma_prefix(t, escape_char(c), i);
            }
        }
    }
}

/// A text in which no comma is a cut, and which leaves nothing open or escaped.
spec fn closed(s: Seq<char>) -> bool {
    &&& !escaped(s, s.len() as int)
    &&& !within_quotes(s, s.len() as int)
    &&& forall|i: int| !cut_at(s, i)
}

/// An escaped text in double quotes behind a closed one gives a closed one.
proof fn lemma_quoted_closed(pre: Seq<char>, v: Seq<char>)
    requires
        closed(pre),
    ensures
        closed(pre + (seq!['"'] + escape(v) + seq!['"'])),
{
    let open = pre + seq!['"'];
    let body = open + escape(v);
    let s = body + seq!['"'];
    let n = pre.len() as int;
    let m = body.len() as int;
    assert(s =~= pre + (seq!['"'] + escape(v) + seq!['"']));
    lemma_prefix(pre, seq!['"'], n);
    assert(quote_at(open, n));
    assert(!escaped(open, n + 1));
    assert(within_quotes(open, n + 1));
    lemma_escape_closed(open, v);
    lemma_prefix(body, seq!['"'], m);
    assert(quote_at(s, m));
    assert(!within_quotes(s, m + 1));
    assert forall|i: int| !cut_at(s, i) by {
        if 0 <= i < m {
            lemma_prefix(body, seq!['"'], i);
            if i <= n {
                lemma_prefix(open, escape(v), i);
                if i < n {
                    lemma_prefix(pre, seq!['"'], i);
                }
            }
        }
    }
}

/// An escaped text in double quotes is a quoted string, which stands for the text.
proof fn lemma_unquote_quoted(v: Seq<char>)
    ensures
        quoted(seq!['"'] + escape(v) + seq!['"']),
        unquote(seq!['"'] + escape(v) + seq!['"']) == v,
{
    let open = seq!['"'];
    let body = open + escape(v);
    let t = body + seq!['"'];
    let m = body.len() as int;
    assert(!escaped(open, 0));
    assert(!escaped(open, 1));
    lemma_escape_closed(open, v);
    lemma_prefix(body, seq!['"'], m);
    assert(quote_at(t, 0));
    assert(quote_at(t, m));
    assert forall|i: int| 0 < i < t.len() - 1 implies !quote_at(t, i) by {
        lemma_prefix(body, seq!['"'], i);
    }
    assert(t.subrange(1, t.len() - 1) =~= escape(v));
    law_unescape(v);
}

/// A written entry is closed.
proof fn lemma_entry_closed(k: usize, v: Seq<char>)
    ensures
        closed(entry_text(k, v)),
{
    let dec = decimal(k as nat);
    let key = seq!['"'] + dec + seq!['"'];
    let value = seq!['"'] + escape(v) + seq!['"'];
    let none = Seq::<char>::empty();
    lemma_decimal_plain(k as nat);
    lemma_escape_plain(dec);
    lemma_quoted_closed(none, dec);
    assert(none + key =~= key);
    let pre = key + seq![':'];
    let n = key.len() as int;
    lemma_prefix(key, seq![':'], n);
    assert(!quote_at(pre, n));
    assert(!within_quotes(pre, n + 1));
    assert forall|i: int| !cut_at(pre, i) by {
        if 0 <= i < n {
            lemma_prefix(key, seq![':'], i);
        }
    }
    lemma_quoted_closed(pre, v);
    assert(pre + value =~= entry_text(k, v));
}

/// Decimal notation has nothing to escape.
proof fn lemma_decimal_plain(n: nat)
    ensures
        !decimal(n).contains('"'),
        !decimal(n).contains('\\'),
{
    let dec = decimal(n);
    lemma_decimal_digits(n);
    if dec.contains('"') {
        let i = choose|i: int| 0 <= i < dec.len() && dec[i] == '"';
        assert(is_digit(dec[i]));
    }
    if dec.contains('\\') {
        let i = choose|i: int| 0 <= i < dec.len() && dec[i] == '\\';
        assert(is_digit(dec[i]));
    }
}

/// Cutting undoes joining.
proof fn lemma_pieces_join(parts: Seq<Seq<char>>)
    requires
        parts.len() > 0,
        forall|i: int| 0 <= i < parts.len() ==> closed(#[trigger] parts[i]),
    ensures
        pieces(join(parts, ',')) == parts,
    decreases parts.len(),
{
    let s = join(parts, ',');
    if parts.len() == 1 {
        lemma_pieces_whole(s);
        assert(parts =~= seq![s]);
    } else {
        let first = parts[0];
        let rest = parts.drop_first();
        let n = first.len() as int;
        let tail = seq![','] + join(rest, ',');
        lemma_join_front(parts, ',');
        assert(s =~= first + tail);
        lemma_prefix(first, tail, n);
        assert(cut_at(s, n));
        assert forall|j: int| 0 <= j < n implies !cut_at(s, j) by {
            lemma_prefix(first, tail, j);
        }
        assert(first_cut(s, n));
        lemma_pieces_at(s, n);
        assert(s.take(n) =~= first);
        assert(s.skip(n + 1) =~= join(rest, ','));
        assert forall|i: int| 0 <= i < rest.len() implies closed(#[trigger] rest[i]) by {
            assert(rest[i] == parts[i + 1]);
        }
        lemma_pieces_join(rest);
        assert(parts =~= seq![first] + rest);
    }
}

/// Reading a written entry gives its key and its value.
proof fn lemma_entry(k: usize, v: Seq<char>)
    ensures
        sound_entry(entry_text(k, v)),
        parse_entry(entry_text(k, v), Quoting::Strings) == Some((k, v)),
{
    let dec = decimal(k as nat);
    let key = seq!['"'] + dec + seq!['"'];
    let value = seq!['"'] + escape(v) + seq!['"'];
    let e = entry_text(k, v);
    lemma_decimal_digits(k as nat);
    lemma_decimal_plain(k as nat);
    lemma_escape_plain(dec);
    assert(!key.contains(':')) by {
        if key.contains(':') {
            let i = choose|i: int| 0 <= i < key.len() && key[i] == ':';
            assert(0 < i && i < key.len() - 1);
            assert(is_digit(dec[i - 1]));
        }
    }
    assert(e.first() == '"' && e.last() == '"');
    assert(!white_space('"'));
    lemma_first_char(key, ':', value);
    assert(e =~= key + seq![':'] + value);
    let i = choose|i: int| first_at(e, seq![':'], i);
    lemma_first_unique(e, seq![':'], key.len() as int, i);
    assert(e.take(i) =~= key);
    assert(e.skip(i + 1) =~= value);
    assert(key.first() == '"' && key.last() == '"');
    assert(value.first() == '"' && value.last() == '"');
    assert(trim(e, Strip::White) == e);
    assert(trim(key, Strip::White) == key);
    assert(trim(value, Strip::White) == value);
    assert(halves(e) == Some((key, value)));
    lemma_unquote_quoted(dec);
    lemma_unquote_quoted(v);
    lemma_parse_decimal(k as nat, usize::MAX as nat);
}

/// Reading written entries gives their keys and values.
proof fn lemma_entries(keys: Seq<usize>, m: Map<usize, Seq<char>>)
    ensures
        parse_entries(entry_texts(keys, m), Quoting::Strings) == Some(
            Map::new(|k: usize| keys.contains(k), |k: usize| m[k]),
        ),
    decreases keys.len(),
{
    let all = Map::new(|k: usize| keys.contains(k), |k: usize| m[k]);
    let parts = entry_texts(keys, m);
    if keys.len() == 0 {
        assert(all =~= Map::empty());
    } else {
        let front = keys.drop_last();
        let k = keys.last();
        lemma_entries(front, m);
        lemma_entry(k, m[k]);
        assert(parts.drop_last() =~= entry_texts(front, m));
        let some = Map::new(|k: usize| front.contains(k), |k: usize| m[k]);
        assert(all =~= some.insert(k, m[k])) by {
            assert forall|j: usize| keys.contains(j) <==> front.contains(j) || j == k by {
                if keys.contains(j) {
                    let i = choose|i: int| 0 <= i < keys.len() && keys[i] == j;
                    if i < front.len() {
                        assert(front[i] == j);
                    }
                }
                if front.contains(j) {
                    let i = choose|i: int| 0 <= i < front.len() && front[i] == j;
                    assert(keys[i] == j);
                }
                assert(keys[keys.len() - 1] == k);
            }
        }
    }
}

/// A finite set has an increasing order.
pub proof fn lemma_listing_exists(dom: Set<usize>)
    requires
        dom.finite(),
    ensures
        lists(ordered_keys(dom), dom),
    decreases dom.len(),
{
    if dom.is_empty() {
        assert(lists(Seq::<usize>::empty(), dom));
    } else {
        lemma_greatest(dom);
        let top = choose|top: usize|
            dom.contains(top) && forall|k: usize| #[trigger] dom.contains(k) ==> k <= top;
        let rest = dom.remove(top);
        lemma_listing_exists(rest);
        let front = ordered_keys(rest);
        let keys = front.push(top);
        assert forall|i: int, j: int| 0 <= i < j < keys.len() implies keys[i] < keys[j] by {
            if j == front.len() {
                assert(front.contains(front[i]));
                assert(rest.contains(front[i]));
            }
        }
        assert forall|k: usize| #[trigger] dom.contains(k) <==> keys.contains(k) by {
            if dom.contains(k) {
                if k == top {
                    assert(keys[front.len() as int] == k);
                } else {
                    assert(rest.contains(k));
                    let i = choose|i: int| 0 <= i < front.len() && front[i] == k;
                    assert(keys[i] == k);
                }
            }
            if keys.contains(k) {
                let i = choose|i: int| 0 <= i < keys.len() && keys[i] == k;
                if i < front.len() {
                    assert(front.contains(k));
                    assert(rest.contains(k));
                }
            }
        }
        assert(lists(keys, dom));
    }
}

/// A finite set of positions that is not empty has a greatest member.
proof fn lemma_greatest(dom: Set<usize>)
    requires
        dom.finite(),
        !dom.is_empty(),
    ensures
        exists|top: usize|
            dom.contains(top) && forall|k: usize| #[trigger] dom.contains(k) ==> k <= top,
    decreases dom.len(),
{
    let a = dom.choose();
    let rest = dom.remove(a);
    if rest.is_empty() {
        assert forall|k: usize| #[trigger] dom.contains(k) implies k <= a by {
            if k != a {
                assert(rest.contains(k));
            }
        }
    } else {
        lemma_greatest(rest);
        let b = choose|top: usize|
            rest.contains(top) && forall|k: usize| #[trigger] rest.contains(k) ==> k <= top;
        let top = if a <= b {
            b
        } else {
            a
        };
        assert forall|k: usize| #[trigger] dom.contains(k) implies k <= top by {
            if k != a {
                assert(rest.contains(k));
            }
        }
        assert(dom.contains(top));
    }
}

/// Every table is read back as it was written.
pub proof fn law_round_trip(m: Map<usize, Seq<char>>)
    requires
        m.dom().finite(),
    ensures
        parse_statuses(render_statuses(m)) == Some(m),
{
    let keys = ordered_keys(m.dom());
    lemma_listing_exists(m.dom());
    let entries = entry_texts(keys, m);
    let inner = join(entries, ',');
    let t = render_statuses(m);
    assert(t.first() == '{' && t.last() == '}');
    assert(!white_space('{') && !white_space('}'));
    assert(trim(t, Strip::White) == t);
    assert(t.subrange(1, t.len() - 1) =~= inner);
    if keys.len() == 0 {
        assert(m =~= Map::empty()) by {
            assert forall|k: usize| !m.contains_key(k) by {
                assert(m.dom().contains(k) <==> keys.contains(k));
            }
        }
    } else {
        assert forall|i: int| 0 <= i < entries.len() implies closed(#[trigger] entries[i]) by {
            lemma_entry_closed(keys[i], m[keys[i]]);
        }
        lemma_pieces_join(entries);
        assert(sound(inner)) by {
            assert forall|i: int| 0 <= i < entries.len() implies sound_entry(
                #[trigger] entries[i],
            ) by {
                lemma_entry(keys[i], m[keys[i]]);
            }
        }
        if entries.len() >= 2 {
            lemma_join_front(entries, ',');
        }
        assert(inner.len() > 0 && inner.first() == '"' && inner.last() == '"');
        assert(!white_space('"'));
        lemma_entries(keys, m);
        assert(m =~= Map::new(|k: usize| keys.contains(k), |k: usize| m[k])) by {
            assert forall|k: usize| m.contains_key(k) <==> keys.contains(k) by {
                assert(m.dom().contains(k) <==> keys.contains(k));
            }
        }
    }
}

/// Different tables are written differently.
pub proof fn law_written_apart(a: Map<usize, Seq<char>>, b: Map<usize, Seq<char>>)
    requires
        a.dom().finite(),
        b.dom().finite(),
        render_statuses(a) == render_statuses(b),
    ensures
        a == b,
{
    law_round_trip(a);
    law_round_trip(b);
}

/// What stands in a part of a text stands in the text.
pub proof fn lemma_within(whole: Seq<char>, part: Seq<char>, piece: Seq<char>)
    requires
        has_text(whole, part),
        has_text(part, piece),
    ensures
        has_text(whole, piece),
{
    let i = choose|i: int| occurs_at(whole, part, i);
    let j = choose|j: int| occurs_at(part, piece, j);
    assert(whole.subrange(i + j, i + j + piece.len()) =~= part.subrange(j, j + piece.len())) by {
        assert(part =~= whole.subrange(i, i + part.len()));
    }
    assert(occurs_at(whole, piece, i + j));
}

/// A range of a text stands in it.
pub proof fn lemma_range_within(s: Seq<char>, from: int, to: int)
    requires
        0 <= from <= to <= s.len(),
    ensures
        has_text(s, s.subrange(from, to)),
{
    assert(occurs_at(s, s.subrange(from, to), from));
}

pub proof fn lemma_trim_within(s: Seq<char>, what: Strip)
    ensures
        has_text(s, trim(s, what)),
    decreases s.len(),
{
    lemma_range_within(s, 0, s.len() as int);
    assert(s.subrange(0, s.len() as int) =~= s);
    if s.len() > 0 {
        lemma_trim_within(s.drop_first(), what);
        lemma_range_within(s, 1, s.len() as int);
        assert(s.subrange(1, s.len() as int) =~= s.drop_first());
        lemma_trim_within(s.drop_last(), what);
        lemma_range_within(s, 0, s.len() - 1);
        assert(s.subrange(0, s.len() - 1) =~= s.drop_last());
        lemma_within(s, s.drop_first(), trim(s.drop_first(), what));
        lemma_within(s, s.drop_last(), trim(s.drop_last(), what));
    }
}

/// The pieces of a text stand in it, and hold no separator.
pub proof fn lemma_split_within(s: Seq<char>, pat: Seq<char>, n: int)
    requires
        pat.len() > 0,
        0 <= n < split(s, pat).len(),
    ensures
        has_text(s, split(s, pat)[n]),
        !has_text(split(s, pat)[n], pat),
    decreases s.len(),
{
    if exists|i: int| first_at(s, pat, i) {
        let i = choose|i: int| first_at(s, pat, i);
        let rest = s.skip(i + pat.len());
        if n == 0 {
            lemma_range_within(s, 0, i);
            assert(s.subrange(0, i) =~= s.take(i));
            if has_text(s.take(i), pat) {
                let j = choose|j: int| occurs_at(s.take(i), pat, j);
                assert(s.subrange(j, j + pat.len()) =~= s.take(i).subrange(j, j + pat.len()));
                assert(occurs_at(s, pat, j));
            }
        } else {
            lemma_split_within(rest, pat, n - 1);
            lemma_range_within(s, i + pat.len(), s.len() as int);
            assert(s.subrange(i + pat.len(), s.len() as int) =~= rest);
            assert(split(s, pat)[n] == split(rest, pat)[n - 1]);
            lemma_within(s, rest, split(rest, pat)[n - 1]);
        }
    } else {
        lemma_range_within(s, 0, s.len() as int);
        assert(s.subrange(0, s.len() as int) =~= s);
        if has_text(s, pat) {
            let j = choose|j: int| occurs_at(s, pat, j);
            lemma_first_exists(s, pat, j);
        }
    }
}

/// The pieces of a text stand in it.
proof fn lemma_pieces_within(s: Seq<char>, n: int)
    requires
        0 <= n < pieces(s).len(),
    ensures
        has_text(s, pieces(s)[n]),
    decreases s.len(),
{
    if exists|i: int| first_cut(s, i) {
        let i = choose|i: int| first_cut(s, i);
        let rest = s.skip(i + 1);
        if n == 0 {
            lemma_range_within(s, 0, i);
            assert(s.subrange(0, i) =~= s.take(i));
        } else {
            lemma_pieces_within(rest, n - 1);
            lemma_range_within(s, i + 1, s.len() as int);
            assert(s.subrange(i + 1, s.len() as int) =~= rest);
            assert(pieces(s)[n] == pieces(rest)[n - 1]);
            lemma_within(s, rest, pieces(rest)[n - 1]);
        }
    } else {
        lemma_range_within(s, 0, s.len() as int);
        assert(s.subrange(0, s.len() as int) =~= s);
    }
}

/// A value is read from a raw text: it is that text, or that text with escapes undone.
pub open spec fn read_from(raw: Seq<char>, v: Seq<char>) -> bool {
    v == raw || v == unescape(raw)
}

/// What a text stands for is read from a raw text within it.
proof fn lemma_plain_within(t: Seq<char>, quoting: Quoting) -> (raw: Seq<char>)
    ensures
        has_text(t, raw),
        read_from(raw, plain_text(t, quoting)),
{
    if quoting == Quoting::Strings && quoted(t) {
        lemma_range_within(t, 1, t.len() - 1);
        t.subrange(1, t.len() - 1)
    } else {
        lemma_trim_within(t, Strip::Quotes);
        trim(t, Strip::Quotes)
    }
}

proof fn lemma_entry_within(part: Seq<char>, quoting: Quoting, k: usize, v: Seq<char>) -> (raw: Seq<
    char,
>)
    requires
        parse_entry(part, quoting) == Some((k, v)),
    ensures
        has_text(part, raw),
        read_from(raw, v),
{
    let p = trim(part, Strip::White);
    let i = choose|i: int| first_at(p, seq![':'], i);
    let behind = p.skip(i + 1);
    let t = trim(behind, Strip::White);
    let raw = lemma_plain_within(t, quoting);
    lemma_trim_within(part, Strip::White);
    lemma_range_within(p, i + 1, p.len() as int);
    assert(p.subrange(i + 1, p.len() as int) =~= behind);
    lemma_trim_within(behind, Strip::White);
    lemma_within(behind, t, raw);
    lemma_within(p, behind, raw);
    lemma_within(part, p, raw);
    raw
}

proof fn lemma_entries_within(parts: Seq<Seq<char>>, quoting: Quoting, k: usize) -> (found: (
    int,
    Seq<char>,
))
    requires
        parse_entries(parts, quoting) is Some,
        parse_entries(parts, quoting)->0.contains_key(k),
    ensures
        0 <= found.0 < parts.len(),
        has_text(parts[found.0], found.1),
        read_from(found.1, parse_entries(parts, quoting)->0[k]),
    decreases parts.len(),
{
    let last = parse_entry(parts.last(), quoting)->0;
    if last.0 == k {
        let raw = lemma_entry_within(parts.last(), quoting, last.0, last.1);
        (parts.len() - 1, raw)
    } else {
        lemma_entries_within(parts.drop_last(), quoting, k)
    }
}

proof fn lemma_inner_within(inner: Seq<char>, k: usize) -> (raw: Seq<char>)
    requires
        parse_inner(inner) is Some,
        parse_inner(inner)->0.contains_key(k),
    ensures
        has_text(inner, raw),
        read_from(raw, parse_inner(inner)->0[k]),
{
    if sound(inner) {
        let (n, raw) = lemma_entries_within(pieces(inner), Quoting::Strings, k);
        lemma_pieces_within(inner, n);
        lemma_within(inner, pieces(inner)[n], raw);
        raw
    } else {
        let parts = split(inner, seq![',']);
        let (n, raw) = lemma_entries_within(parts, Quoting::Loose, k);
        lemma_split_within(inner, seq![','], n);
        lemma_within(inner, parts[n], raw);
        raw
    }
}

/// The values read from a text are read from raw texts that stand in it.
pub proof fn lemma_parsed_within(json: Seq<char>, k: usize) -> (raw: Seq<char>)
    requires
        parse_statuses(json) is Some,
        parse_statuses(json)->0.contains_key(k),
    ensures
        has_text(json, raw),
        read_from(raw, parse_statuses(json)->0[k]),
{
    let t = trim(json, Strip::White);
    let inner = t.subrange(1, t.len() - 1);
    let raw = lemma_inner_within(inner, k);
    lemma_range_within(t, 1, t.len() - 1);
    lemma_trim_within(json, Strip::White);
    lemma_within(t, inner, raw);
    lemma_within(json, t, raw);
    raw
}

/// Undoing escapes brings in no character.
pub proof fn lemma_unescape_chars(v: Seq<char>, c: char)
    requires
        !v.contains(c),
    ensures
        !unescape(v).contains(c),
    decreases v.len(),
{
    if v.len() > 0 {
        let n: int = if v.len() >= 2 && v[0] == '\\' && (v[1] == '\\' || v[1] == '"') {
            2
        } else {
            1
        };
        let rest = v.skip(n);
        assert(!rest.contains(c)) by {
            if rest.contains(c) {
                let i = choose|i: int| 0 <= i < rest.len() && rest[i] == c;
                assert(v[n + i] == c);
            }
        }
        lemma_unescape_chars(rest, c);
        let u = unescape(v);
        if u.contains(c) {
            let i = choose|i: int| 0 <= i < u.len() && u[i] == c;
            if i == 0 {
                assert(v.contains(v[n - 1]));
            } else {
                assert(unescape(rest)[i - 1] == c);
            }
        }
    }
}

/// What is read is finite.
pub proof fn lemma_parsed_finite(json: Seq<char>)
    requires
        parse_statuses(json) is Some,
    ensures
        parse_statuses(json)->0.dom().finite(),
{
    let t = trim(json, Strip::White);
    let inner = t.subrange(1, t.len() - 1);
    if trim(inner, Strip::White).len() > 0 {
        if sound(inner) {
            lemma_entries_finite(pieces(inner), Quoting::Strings);
        } else {
            lemma_entries_finite(split(inner, seq![',']), Quoting::Loose);
        }
    }
}

proof fn lemma_entries_finite(parts: Seq<Seq<char>>, quoting: Quoting)
    requires
        parse_entries(parts, quoting) is Some,
    ensures
        parse_entries(parts, quoting)->0.dom().finite(),
    decreases parts.len(),
{
    if parts.len() > 0 {
        lemma_entries_finite(parts.drop_last(), quoting);
    }
}

/// A text without backslashes has no escapes to undo.
proof fn lemma_unescape_plain(v: Seq<char>)
    requires
        !v.contains('\\'),
    ensures
        unescape(v) == v,
    decreases v.len(),
{
    if v.len() > 0 {
        let rest = v.skip(1);
        assert(v.contains(v[0]));
        assert(!rest.contains('\\')) by {
            if rest.contains('\\') {
                let i = choose|i: int| 0 <= i < rest.len() && rest[i] == '\\';
                assert(v[i + 1] == '\\');
            }
        }
        lemma_unescape_plain(rest);
        assert(unescape(v) =~= v);
    }
}

/// Double quotes around a text that has none are what trimming takes off.
proof fn lemma_trim_quoted(v: Seq<char>)
    requires
        !v.contains('"'),
    ensures
        trim(seq!['"'] + v + seq!['"'], Strip::Quotes) == v,
{
    let q = seq!['"'] + v + seq!['"'];
    assert(q.drop_first() =~= v + seq!['"']);
    if v.len() == 0 {
        assert(q.drop_first().drop_first() =~= v);
    } else {
        assert(v.contains(v[0]));
        assert(v.contains(v[v.len() - 1]));
        assert((v + seq!['"']).drop_last() =~= v);
    }
    reveal_with_fuel(trim, 3);
}

/// A text without backslashes stands for the same whichever way its double quotes are
/// read.
proof fn lemma_same_text(t: Seq<char>)
    requires
        !t.contains('\\'),
    ensures
        plain_text(t, Quoting::Strings) == plain_text(t, Quoting::Loose),
{
    if quoted(t) {
        let v = t.subrange(1, t.len() - 1);
        assert forall|i: int| 0 <= i < t.len() implies !escaped(t, i) by {
            if i > 0 {
                assert(t.contains(t[i - 1]));
            }
        }
        assert(!v.contains('"')) by {
            if v.contains('"') {
                let i = choose|i: int| 0 <= i < v.len() && v[i] == '"';
                assert(quote_at(t, i + 1));
            }
        }
        assert(!v.contains('\\')) by {
            if v.contains('\\') {
                let i = choose|i: int| 0 <= i < v.len() && v[i] == '\\';
                assert(t[i + 1] == '\\');
            }
        }
        lemma_unescape_plain(v);
        lemma_trim_quoted(v);
        assert(t =~= seq!['"'] + v + seq!['"']);
    }
}

/// What stands in a text without a character does not have it.
pub proof fn lemma_lacks(whole: Seq<char>, part: Seq<char>, c: char)
    requires
        has_text(whole, part),
        !whole.contains(c),
    ensures
        !part.contains(c),
{
    lemma_has_char(whole, c);
    lemma_has_char(part, c);
    if has_text(part, seq![c]) {
        lemma_within(whole, part, seq![c]);
    }
}

proof fn lemma_same_entry(part: Seq<char>)
    requires
        !part.contains('\\'),
    ensures
        parse_entry(part, Quoting::Strings) == parse_entry(part, Quoting::Loose),
{
    if halves(part) is Some {
        let p = trim(part, Strip::White);
        let i = choose|i: int| first_at(p, seq![':'], i);
        let (key, value) = halves(part)->0;
        lemma_trim_within(part, Strip::White);
        lemma_lacks(part, p, '\\');
        lemma_range_within(p, 0, i);
        assert(p.subrange(0, i) =~= p.take(i));
        lemma_lacks(p, p.take(i), '\\');
        lemma_trim_within(p.take(i), Strip::White);
        lemma_lacks(p.take(i), key, '\\');
        lemma_range_within(p, i + 1, p.len() as int);
        assert(p.subrange(i + 1, p.len() as int) =~= p.skip(i + 1));
        lemma_lacks(p, p.skip(i + 1), '\\');
        lemma_trim_within(p.skip(i + 1), Strip::White);
        lemma_lacks(p.skip(i + 1), value, '\\');
        lemma_same_text(key);
        lemma_same_text(value);
    }
}

proof fn lemma_same_entries(parts: Seq<Seq<char>>)
    requires
        forall|i: int| 0 <= i < parts.len() ==> !(#[trigger] parts[i]).contains('\\'),
    ensures
        parse_entries(parts, Quoting::Strings) == parse_entries(parts, Quoting::Loose),
    decreases parts.len(),
{
    if parts.len() > 0 {
        lemma_same_entries(parts.drop_last());
        assert(!parts[parts.len() - 1].contains('\\'));
        lemma_same_entry(parts.last());
    }
}

/// Double quotes matter to what is read only by commas within them and by backslashes:
/// without either, every comma separates, and quotes are taken off the ends of keys and
/// values.
pub proof fn law_quotes_matter(inner: Seq<char>)
    requires
        !inner.contains('\\'),
        pieces(inner) == split(inner, seq![',']),
    ensures
        parse_inner(inner) == parse_entries(split(inner, seq![',']), Quoting::Loose),
{
    let parts = split(inner, seq![',']);
    assert forall|i: int| 0 <= i < parts.len() implies !(#[trigger] parts[i]).contains('\\') by {
        lemma_split_within(inner, seq![','], i);
        lemma_lacks(inner, parts[i], '\\');
    }
    lemma_same_entries(parts);
}

} // verus!
