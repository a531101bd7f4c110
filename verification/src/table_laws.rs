//! What a table of statuses looks like as text, and which texts are tables.

use crate::json::{
    cut_at, escape, escaped, first_cut, lemma_pieces_at, pieces, quote_at, quoted, unescape,
    unquote, well_quoted, within_quotes,
};
use crate::number::{decimal, is_digit, lemma_decimal_digits, lemma_parse_decimal, parse_unsigned};
use crate::statuses::{
    entry_text, entry_texts, halves, join, lemma_ordered_keys, lists, ordered_keys, parse_entries,
    parse_entry, parse_inner, parse_statuses, render_statuses, sound, sound_entry, Quoting,
};
use crate::statuses_laws::{
    law_quotes_matter, lemma_char_at, lemma_first_char, lemma_has_char, lemma_lacks,
    lemma_listing_exists, lemma_trim_within,
};
use crate::text::{
    first_at, has_text, lemma_first_exists, lemma_first_unique, lemma_split_at, lemma_split_whole,
    occurs_at, split, trim, white_space, Strip,
};
use crate::text_laws::{law_trim_white, white_ends};
use vstd::prelude::*;

verus! {

/// No statuses are written as two braces.
pub proof fn law_render_none()
    ensures
        render_statuses(Map::<usize, Seq<char>>::empty()) == seq!['{', '}'],
{
    let m = Map::<usize, Seq<char>>::empty();
    let none = Seq::<usize>::empty();
    assert(lists(none, m.dom()));
    lemma_ordered_keys(none, m.dom());
    assert(render_statuses(m) =~= seq!['{', '}']);
}

/// A status behind all others is written behind them, after a comma: its position and its
/// text, both in double quotes, with a colon between them.
pub proof fn law_render_next(m: Map<usize, Seq<char>>, k: usize, v: Seq<char>)
    requires
        m.dom().finite(),
        forall|j: usize| #[trigger] m.contains_key(j) ==> j < k,
    ensures
        ({
            let comma = if m.dom() == Set::<usize>::empty() {
                Seq::<char>::empty()
            } else {
                seq![',']
            };
            let entry = seq!['"'] + decimal(k as nat) + seq!['"', ':', '"'] + escape(v) + seq!['"'];
            render_statuses(m.insert(k, v)) == render_statuses(m).drop_last() + comma + entry + seq![
                '}',
            ]
        }),
{
    let keys = ordered_keys(m.dom());
    lemma_listing_exists(m.dom());
    let more = keys.push(k);
    let n = m.insert(k, v);
    assert forall|i: int, j: int| 0 <= i < j < more.len() implies more[i] < more[j] by {
        if j == keys.len() {
            assert(keys.contains(keys[i]));
            assert(m.dom().contains(keys[i]));
            assert(m.contains_key(keys[i]));
        }
    }
    assert forall|x: usize| #[trigger] n.dom().contains(x) <==> more.contains(x) by {
        if n.dom().contains(x) {
            if x == k {
                assert(more[keys.len() as int] == k);
            } else {
                assert(m.dom().contains(x));
                let i = choose|i: int| 0 <= i < keys.len() && keys[i] == x;
                assert(more[i] == x);
            }
        }
        if more.contains(x) {
            let i = choose|i: int| 0 <= i < more.len() && more[i] == x;
            if i < keys.len() {
                assert(keys.contains(x));
                assert(m.dom().contains(x));
            }
        }
    }
    assert(lists(more, n.dom()));
    lemma_ordered_keys(more, n.dom());
    let old_entries = entry_texts(keys, m);
    let entries = entry_texts(more, n);
    assert(entries.drop_last() =~= old_entries) by {
        assert forall|i: int| 0 <= i < keys.len() implies entries[i] == old_entries[i] by {
            assert(keys.contains(keys[i]));
            assert(m.dom().contains(keys[i]));
            assert(m.contains_key(keys[i]));
        }
    }
    assert(entries.last() == entry_text(k, v));
    if keys.len() == 0 {
        assert(m.dom() =~= Set::<usize>::empty()) by {
            assert forall|x: usize| !m.dom().contains(x) by {
                assert(m.dom().contains(x) <==> keys.contains(x));
            }
        }
    } else {
        assert(m.dom().contains(keys[0])) by {
            assert(keys.contains(keys[0]));
        }
    }
    let entry = seq!['"'] + decimal(k as nat) + seq!['"', ':', '"'] + escape(v) + seq!['"'];
    assert(entry =~= entry_text(k, v));
    assert(render_statuses(m).drop_last() =~= seq!['{'] + join(old_entries, ','));
    let comma = if m.dom() == Set::<usize>::empty() {
        Seq::<char>::empty()
    } else {
        seq![',']
    };
    assert(render_statuses(n) =~= render_statuses(m).drop_last() + comma + entry + seq!['}']);
}

/// Inside double quotes a backslash stands before each backslash and double quote, and
/// every other character stands for itself.
pub proof fn law_escape(v: Seq<char>, c: char)
    ensures
        escape(Seq::<char>::empty()).len() == 0,
        escape(v.push(c)) == (if c == '\\' || c == '"' {
            escape(v).push('\\').push(c)
        } else {
            escape(v).push(c)
        }),
{
    assert(v.push(c).drop_last() =~= v);
    assert(escape(v.push(c)) =~= (if c == '\\' || c == '"' {
        escape(v).push('\\').push(c)
    } else {
        escape(v).push(c)
    }));
}

/// Undoing escapes takes the backslash off `\\` and `\"`, and leaves everything else.
pub proof fn law_unescape_step(v: Seq<char>, c: char)
    ensures
        c == '\\' || c == '"' ==> unescape(seq!['\\', c] + v) == seq![c] + unescape(v),
        c != '\\' ==> unescape(seq![c] + v) == seq![c] + unescape(v),
        c != '\\' && c != '"' ==> unescape(seq!['\\', c] + v) == seq!['\\', c] + unescape(v),
{
    let two = seq!['\\', c] + v;
    let one = seq![c] + v;
    assert(two.skip(2) =~= v);
    assert(two.skip(1) =~= one);
    assert(one.skip(1) =~= v);
    if c != '\\' && c != '"' {
        assert(one[0] == c);
        assert(unescape(one) == seq![c] + unescape(v));
        assert(two[0] == '\\' && two[1] == c);
        assert(unescape(two) == seq!['\\'] + unescape(one));
        assert(unescape(two) =~= seq!['\\', c] + unescape(v));
    }
}

/// Nothing but white space.
pub open spec fn blank(w: Seq<char>) -> bool {
    forall|i: int| 0 <= i < w.len() ==> white_space(#[trigger] w[i])
}

/// No white space at the ends.
pub open spec fn core_text(x: Seq<char>) -> bool {
    x.len() > 0 ==> !white_space(x[0]) && !white_space(x[x.len() - 1])
}

/// White space around a text is what trimming takes off.
proof fn lemma_trim_core(a: Seq<char>, x: Seq<char>, b: Seq<char>)
    requires
        blank(a),
        core_text(x),
        blank(b),
    ensures
        trim(a + x + b, Strip::White) == x,
    decreases a.len() + b.len(), b.len(),
{
    let s = a + x + b;
    if a.len() > 0 {
        assert(s.first() == a[0]);
        let rest = a.drop_first();
        assert(blank(rest)) by {
            assert forall|i: int| 0 <= i < rest.len() implies white_space(#[trigger] rest[i]) by {
                assert(rest[i] == a[i + 1]);
            }
        }
        assert(s.drop_first() =~= rest + x + b);
        lemma_trim_core(rest, x, b);
    } else if b.len() > 0 {
        assert(s.last() == b[b.len() - 1]);
        if x.len() > 0 {
            let rest = b.drop_last();
            assert(blank(rest)) by {
                assert forall|i: int| 0 <= i < rest.len() implies white_space(
                    #[trigger] rest[i],
                ) by {
                    assert(rest[i] == b[i]);
                }
            }
            assert(s.first() == x[0]);
            assert(s.drop_last() =~= a + x + rest);
            lemma_trim_core(a, x, rest);
        } else {
            assert(s =~= b + x + a);
            lemma_trim_core(b, x, a);
        }
    } else {
        assert(s =~= x);
    }
}

/// Without double quotes every comma cuts.
proof fn lemma_pieces_plain(x: Seq<char>)
    requires
        !x.contains('"'),
    ensures
        pieces(x) == split(x, seq![',']),
    decreases x.len(),
{
    assert forall|i: int| 0 <= i < x.len() implies (cut_at(x, i) <==> occurs_at(x, seq![','], i)) by {
        lemma_char_at(x, ',', i);
        lemma_never_within(x, i);
    }
    assert forall|i: int| first_cut(x, i) <==> #[trigger] first_at(x, seq![','], i) by {
        if first_cut(x, i) {
            assert forall|j: int| 0 <= j < i implies !occurs_at(x, seq![','], j) by {
                assert(!cut_at(x, j));
            }
        }
        if first_at(x, seq![','], i) {
            assert forall|j: int| 0 <= j < i implies !cut_at(x, j) by {
                assert(!occurs_at(x, seq![','], j));
            }
        }
    }
    if exists|i: int| first_cut(x, i) {
        let i = choose|i: int| first_cut(x, i);
        assert(first_at(x, seq![','], i));
        let rest = x.skip(i + 1);
        assert(!rest.contains('"')) by {
            if rest.contains('"') {
                let j = choose|j: int| 0 <= j < rest.len() && rest[j] == '"';
                assert(x[i + 1 + j] == '"');
            }
        }
        lemma_pieces_plain(rest);
        lemma_pieces_at(x, i);
        lemma_split_at(x, seq![','], i);
    } else {
        assert forall|i: int| !first_at(x, seq![','], i) by {
            assert(!first_cut(x, i));
        }
    }
}

proof fn lemma_never_within(x: Seq<char>, i: int)
    requires
        !x.contains('"'),
        0 <= i <= x.len(),
    ensures
        !within_quotes(x, i),
    decreases i,
{
    if i > 0 {
        lemma_never_within(x, i - 1);
        assert(x.contains(x[i - 1]));
    }
}

/// A text without double quotes and backslashes.
pub open spec fn quoteless(x: Seq<char>) -> bool {
    !x.contains('"') && !x.contains('\\')
}

/// Entries without double quotes and backslashes are separated by every comma.
proof fn lemma_inner_plain(x: Seq<char>)
    requires
        quoteless(x),
    ensures
        parse_inner(x) == parse_entries(split(x, seq![',']), Quoting::Loose),
{
    lemma_pieces_plain(x);
    law_quotes_matter(x);
}

/// Trimming double quotes leaves a text alone that has none.
proof fn lemma_trim_quoteless(x: Seq<char>)
    requires
        !x.contains('"'),
    ensures
        trim(x, Strip::Quotes) == x,
{
    if x.len() > 0 {
        assert(x.contains(x[0]));
        assert(x.contains(x[x.len() - 1]));
    }
}

/// The sides of the first colon, without the white space around them.
proof fn lemma_halves(
    w1: Seq<char>,
    key: Seq<char>,
    w2: Seq<char>,
    w3: Seq<char>,
    v: Seq<char>,
    w4: Seq<char>,
)
    requires
        blank(w1),
        blank(w2),
        blank(w3),
        blank(w4),
        core_text(key),
        core_text(v),
        !key.contains(':'),
    ensures
        halves((w1 + key + w2) + seq![':'] + (w3 + v + w4)) == Some((key, v)),
{
    let none = Seq::<char>::empty();
    let e = (w1 + key + w2) + seq![':'] + (w3 + v + w4);
    let head = if key.len() > 0 {
        w1
    } else {
        w1 + w2
    };
    let p_a = if key.len() > 0 {
        key + w2
    } else {
        none
    };
    let p_b = if v.len() > 0 {
        w3 + v
    } else {
        none
    };
    let tail = if v.len() > 0 {
        w4
    } else {
        w3 + w4
    };
    let x = p_a + seq![':'] + p_b;
    assert(e =~= head + x + tail);
    lemma_blank_sum(w1, w2);
    lemma_blank_sum(w3, w4);
    assert(!white_space(':'));
    assert(core_text(x)) by {
        if key.len() > 0 {
            assert(x[0] == key[0]);
        } else {
            assert(x[0] == ':');
        }
        if v.len() > 0 {
            assert(x[x.len() - 1] == v[v.len() - 1]);
        } else {
            assert(x[x.len() - 1] == ':');
        }
    }
    lemma_trim_core(head, x, tail);
    assert(!p_a.contains(':')) by {
        if p_a.contains(':') {
            let i = choose|i: int| 0 <= i < p_a.len() && p_a[i] == ':';
            if i < key.len() {
                assert(key[i] == ':');
            } else {
                assert(white_space(w2[i - key.len()]));
            }
        }
    }
    lemma_first_char(p_a, ':', p_b);
    let i = choose|i: int| first_at(x, seq![':'], i);
    lemma_first_unique(x, seq![':'], p_a.len() as int, i);
    assert(x.take(i) =~= p_a);
    assert(x.skip(i + 1) =~= p_b);
    assert(trim(p_a, Strip::White) == key) by {
        if key.len() > 0 {
            assert(p_a =~= none + key + w2);
            lemma_trim_core(none, key, w2);
        } else {
            assert(key =~= p_a);
        }
    }
    assert(trim(p_b, Strip::White) == v) by {
        if v.len() > 0 {
            assert(p_b =~= w3 + v + none);
            lemma_trim_core(w3, v, none);
        } else {
            assert(v =~= p_b);
        }
    }
}

proof fn lemma_blank_sum(a: Seq<char>, b: Seq<char>)
    requires
        blank(a),
        blank(b),
    ensures
        blank(a + b),
{
    let s = a + b;
    assert forall|i: int| 0 <= i < s.len() implies white_space(#[trigger] s[i]) by {
        if i < a.len() {
            assert(s[i] == a[i]);
        } else {
            assert(s[i] == b[i - a.len()]);
        }
    }
}

/// An entry is a key and a value with the first colon between them, each without the white
/// space around it.
pub proof fn law_halves(a: Seq<char>, b: Seq<char>)
    requires
        !a.contains(':'),
    ensures
        halves(a + seq![':'] + b) == Some((trim(a, Strip::White), trim(b, Strip::White))),
{
    let (f, t) = law_trim_white(a);
    let (g, u) = law_trim_white(b);
    let w1 = a.subrange(0, f);
    let key = a.subrange(f, t);
    let w2 = a.subrange(t, a.len() as int);
    let w3 = b.subrange(0, g);
    let v = b.subrange(g, u);
    let w4 = b.subrange(u, b.len() as int);
    assert(a =~= w1 + key + w2);
    assert(b =~= w3 + v + w4);
    lemma_ends_blank(a, f, t);
    lemma_ends_blank(b, g, u);
    assert(!key.contains(':')) by {
        if key.contains(':') {
            let i = choose|i: int| 0 <= i < key.len() && key[i] == ':';
            assert(a[f + i] == ':');
        }
    }
    lemma_halves(w1, key, w2, w3, v, w4);
}

proof fn lemma_ends_blank(s: Seq<char>, from: int, to: int)
    requires
        white_ends(s, from, to),
    ensures
        blank(s.subrange(0, from)),
        core_text(s.subrange(from, to)),
        blank(s.subrange(to, s.len() as int)),
{
    let a = s.subrange(0, from);
    let b = s.subrange(to, s.len() as int);
    assert forall|i: int| 0 <= i < a.len() implies white_space(#[trigger] a[i]) by {
        assert(a[i] == s[i]);
    }
    assert forall|i: int| 0 <= i < b.len() implies white_space(#[trigger] b[i]) by {
        assert(b[i] == s[to + i]);
    }
}

/// An entry is read if its key is a number, and gives that number and its value. Where
/// quotes enclose strings, key and value are unquoted; otherwise quotes are taken off
/// their ends.
pub proof fn law_entry(a: Seq<char>, b: Seq<char>)
    requires
        !a.contains(':'),
    ensures
        ({
            let e = a + seq![':'] + b;
            let key = trim(a, Strip::White);
            let value = trim(b, Strip::White);
            &&& parse_entry(e, Quoting::Loose) == (match parse_unsigned(
                trim(key, Strip::Quotes),
                usize::MAX as nat,
            ) {
                Some(k) => Some((k as usize, trim(value, Strip::Quotes))),
                None => None,
            })
            &&& parse_entry(e, Quoting::Strings) == (match parse_unsigned(
                unquote(key),
                usize::MAX as nat,
            ) {
                Some(k) => Some((k as usize, unquote(value))),
                None => None,
            })
        }),
{
    law_halves(a, b);
}

/// A text in double quotes, with no other double quote in it that is not escaped and none
/// of the two escaped, stands for what is between them with escapes undone; any other for
/// itself without double quotes at its ends.
pub proof fn law_unquote(t: Seq<char>)
    ensures
        ({
            let n = t.len() as int;
            let whole = n >= 2 && t[0] == '"' && t[n - 1] == '"' && !escaped(t, n - 1) && forall|
                i: int,
            |
                0 < i < n - 1 && #[trigger] t[i] == '"' ==> escaped(t, i);
            unquote(t) == (if whole {
                unescape(t.subrange(1, n - 1))
            } else {
                trim(t, Strip::Quotes)
            })
        }),
{
    let n = t.len() as int;
    if quoted(t) {
        assert forall|i: int| 0 < i < n - 1 && #[trigger] t[i] == '"' implies escaped(t, i) by {
            assert(!quote_at(t, i));
        }
    }
}

/// Where a text is cut: nowhere if no comma stands outside quotes, otherwise at the
/// leftmost, and then in what is behind it.
pub proof fn law_pieces(s: Seq<char>)
    ensures
        ({
            let p = pieces(s);
            &&& p.len() > 0
            &&& forall|j: int| 0 <= j < p[0].len() ==> !(#[trigger] cut_at(s, j))
            &&& if p.len() == 1 {
                &&& p[0] == s
                &&& forall|j: int| !(#[trigger] cut_at(s, j))
            } else {
                &&& cut_at(s, p[0].len() as int)
                &&& s == p[0] + seq![','] + s.skip(p[0].len() as int + 1)
                &&& pieces(s.skip(p[0].len() as int + 1)) == p.drop_first()
            }
        }),
{
    let p = pieces(s);
    if exists|i: int| first_cut(s, i) {
        let i = choose|i: int| first_cut(s, i);
        let rest = s.skip(i + 1);
        lemma_pieces_at(s, i);
        lemma_some_piece(rest);
        assert(p[0] == s.take(i));
        assert(s =~= p[0] + seq![','] + rest);
        assert(p.drop_first() =~= pieces(rest));
    } else {
        assert forall|j: int| !(#[trigger] cut_at(s, j)) by {
            if cut_at(s, j) {
                lemma_first_cut(s, j);
            }
        }
    }
}

proof fn lemma_some_piece(s: Seq<char>)
    ensures
        pieces(s).len() > 0,
{
}

proof fn lemma_first_cut(s: Seq<char>, j: int)
    requires
        cut_at(s, j),
    ensures
        exists|i: int| first_cut(s, i),
    decreases j,
{
    if exists|k: int| 0 <= k < j && cut_at(s, k) {
        let k = choose|k: int| 0 <= k < j && cut_at(s, k);
        lemma_first_cut(s, k);
    } else {
        assert(first_cut(s, j));
    }
}

/// A side of an entry is in order: no double quote in it counts, or it is in double quotes
/// from end to end and no other in it counts.
pub open spec fn side_in_order(t: Seq<char>) -> bool {
    let n = t.len() as int;
    ||| forall|i: int| 0 <= i < n && #[trigger] t[i] == '"' ==> escaped(t, i)
    ||| n >= 2 && t[0] == '"' && t[n - 1] == '"' && !escaped(t, n - 1) && forall|i: int|
        0 < i < n - 1 && #[trigger] t[i] == '"' ==> escaped(t, i)
}

/// An entry has a key and a value, and both are in order.
pub open spec fn in_order(part: Seq<char>) -> bool {
    match halves(part) {
        Some((key, value)) => side_in_order(key) && side_in_order(value),
        None => false,
    }
}

/// Double quotes enclose strings exactly if they pair up in every entry; otherwise every
/// comma separates and double quotes mean nothing.
pub proof fn law_when_quotes_count(x: Seq<char>)
    ensures
        parse_inner(x) == (if forall|n: int|
            0 <= n < pieces(x).len() ==> in_order(#[trigger] pieces(x)[n]) {
            parse_entries(pieces(x), Quoting::Strings)
        } else {
            parse_entries(split(x, seq![',']), Quoting::Loose)
        }),
{
    assert forall|n: int| 0 <= n < pieces(x).len() implies (in_order(#[trigger] pieces(x)[n])
        <==> sound_entry(pieces(x)[n])) by {
        let part = pieces(x)[n];
        if halves(part) is Some {
            let (key, value) = halves(part)->0;
            lemma_side(key);
            lemma_side(value);
        }
    }
    if sound(x) {
        assert forall|n: int| 0 <= n < pieces(x).len() implies in_order(#[trigger] pieces(x)[n]) by {
            assert(sound_entry(pieces(x)[n]));
        }
    } else {
        let n = choose|n: int| 0 <= n < pieces(x).len() && !sound_entry(#[trigger] pieces(x)[n]);
        assert(!in_order(pieces(x)[n]));
    }
}

proof fn lemma_side(t: Seq<char>)
    ensures
        side_in_order(t) <==> well_quoted(t),
{
    let n = t.len() as int;
    if well_quoted(t) {
        if quoted(t) {
            assert forall|i: int| 0 < i < n - 1 && #[trigger] t[i] == '"' implies escaped(t, i) by {
                assert(!quote_at(t, i));
            }
        } else {
            assert forall|i: int| 0 <= i < n && #[trigger] t[i] == '"' implies escaped(t, i) by {
                assert(!quote_at(t, i));
            }
        }
    }
    if side_in_order(t) && !quoted(t) {
        assert forall|i: int| !quote_at(t, i) by {
            if quote_at(t, i) {
                assert(t[i] == '"');
            }
        }
    }
}

/// Reading one bare entry with white space around its key and its value.
proof fn lemma_bare_entry(
    k: usize,
    v: Seq<char>,
    w1: Seq<char>,
    w2: Seq<char>,
    w3: Seq<char>,
    w4: Seq<char>,
)
    requires
        blank(w1),
        blank(w2),
        blank(w3),
        blank(w4),
        core_text(v),
        quoteless(v),
    ensures
        parse_entry(
            (w1 + decimal(k as nat) + w2) + seq![':'] + (w3 + v + w4),
            Quoting::Loose,
        ) == Some((k, v)),
{
    let dec = decimal(k as nat);
    lemma_decimal_digits(k as nat);
    assert(is_digit(dec[0]) && is_digit(dec[dec.len() - 1]));
    assert(!dec.contains(':')) by {
        if dec.contains(':') {
            let j = choose|j: int| 0 <= j < dec.len() && dec[j] == ':';
            assert(is_digit(dec[j]));
        }
    }
    assert(!dec.contains('"')) by {
        if dec.contains('"') {
            let j = choose|j: int| 0 <= j < dec.len() && dec[j] == '"';
            assert(is_digit(dec[j]));
        }
    }
    lemma_halves(w1, dec, w2, w3, v, w4);
    lemma_trim_quoteless(dec);
    lemma_trim_quoteless(v);
    lemma_parse_decimal(k as nat, usize::MAX as nat);
}

/// A position and a text without quotes need none: they are read from between braces, with
/// a colon between them, whatever white space stands around each. The text may have colons
/// in it.
pub proof fn law_bare_entry(
    k: usize,
    v: Seq<char>,
    before: Seq<char>,
    w1: Seq<char>,
    w2: Seq<char>,
    w3: Seq<char>,
    w4: Seq<char>,
    behind: Seq<char>,
)
    requires
        blank(before),
        blank(w1),
        blank(w2),
        blank(w3),
        blank(w4),
        blank(behind),
        core_text(v),
        quoteless(v),
        !v.contains(','),
    ensures
        parse_statuses(
            before + (seq!['{'] + ((w1 + decimal(k as nat) + w2) + seq![':'] + (w3 + v + w4))
                + seq!['}']) + behind,
        ) == Some(Map::<usize, Seq<char>>::empty().insert(k, v)),
{
    let dec = decimal(k as nat);
    let e = (w1 + dec + w2) + seq![':'] + (w3 + v + w4);
    lemma_entry_chars(k, v, w1, w2, w3, w4);
    law_braces(before, e, behind);
    assert(!blank(e)) by {
        assert(e[w1.len() as int] == dec[0]) by {
            lemma_decimal_digits(k as nat);
        }
        lemma_decimal_digits(k as nat);
        assert(is_digit(dec[0]));
    }
    lemma_inner_plain(e);
    lemma_has_char(e, ',');
    lemma_split_whole(e, seq![',']);
    let parts = seq![e];
    assert(parts.drop_last() =~= Seq::<Seq<char>>::empty());
    assert(parts.last() == e);
    lemma_bare_entry(k, v, w1, w2, w3, w4);
    reveal_with_fuel(parse_entries, 2);
}

proof fn lemma_entry_chars(
    k: usize,
    v: Seq<char>,
    w1: Seq<char>,
    w2: Seq<char>,
    w3: Seq<char>,
    w4: Seq<char>,
)
    requires
        blank(w1),
        blank(w2),
        blank(w3),
        blank(w4),
        quoteless(v),
        !v.contains(','),
    ensures
        ({
            let e = (w1 + decimal(k as nat) + w2) + seq![':'] + (w3 + v + w4);
            quoteless(e) && !e.contains(',')
        }),
{
    let dec = decimal(k as nat);
    let e = (w1 + dec + w2) + seq![':'] + (w3 + v + w4);
    lemma_decimal_digits(k as nat);
    assert forall|i: int| 0 <= i < e.len() implies e[i] != '"' && e[i] != '\\' && e[i] != ',' by {
        let a = w1.len() as int;
        let b = a + dec.len();
        let c = b + w2.len();
        let d = c + 1 + w3.len();
        let f = d + v.len();
        if i < a {
            assert(white_space(w1[i]));
        } else if i < b {
            assert(is_digit(dec[i - a]));
        } else if i < c {
            assert(white_space(w2[i - b]));
        } else if i == c {
        } else if i < d {
            assert(white_space(w3[i - c - 1]));
        } else if i < f {
            assert(v.contains(v[i - d]));
            assert(e[i] == v[i - d]);
        } else {
            assert(white_space(w4[i - f]));
        }
    }
}

/// What is between braces, with white space around them, is what is read.
pub proof fn law_braces(before: Seq<char>, inner: Seq<char>, behind: Seq<char>)
    requires
        blank(before),
        blank(behind),
    ensures
        parse_statuses(before + (seq!['{'] + inner + seq!['}']) + behind) == (if blank(inner) {
            Some(Map::<usize, Seq<char>>::empty())
        } else {
            parse_inner(inner)
        }),
{
    let t = seq!['{'] + inner + seq!['}'];
    assert(!white_space('{') && !white_space('}'));
    assert(t[0] == '{' && t[t.len() - 1] == '}');
    lemma_trim_core(before, t, behind);
    assert(t.subrange(1, t.len() - 1) =~= inner);
    lemma_blank_trim(inner);
}

proof fn lemma_blank_trim(w: Seq<char>)
    ensures
        trim(w, Strip::White).len() == 0 <==> blank(w),
{
    let none = Seq::<char>::empty();
    if blank(w) {
        assert(w =~= w + none + none);
        lemma_trim_core(w, none, none);
    } else {
        let i = choose|i: int| 0 <= i < w.len() && !white_space(w[i]);
        lemma_trim_keeps(w, i);
    }
}

/// Trimming never takes everything where something is not white space.
proof fn lemma_trim_keeps(w: Seq<char>, i: int)
    requires
        0 <= i < w.len(),
        !white_space(w[i]),
    ensures
        trim(w, Strip::White).len() > 0,
    decreases w.len(),
{
    if white_space(w.first()) {
        assert(w.drop_first()[i - 1] == w[i]);
        lemma_trim_keeps(w.drop_first(), i - 1);
    } else if white_space(w.last()) {
        assert(w.drop_last()[i] == w[i]);
        lemma_trim_keeps(w.drop_last(), i);
    }
}

/// Braces with nothing or white space between them are an empty table.
pub proof fn law_empty_braces(before: Seq<char>, inner: Seq<char>, behind: Seq<char>)
    requires
        blank(before),
        blank(inner),
        blank(behind),
    ensures
        parse_statuses(before + (seq!['{'] + inner + seq!['}']) + behind) == Some(
            Map::<usize, Seq<char>>::empty(),
        ),
{
    law_braces(before, inner, behind);
}

/// Text that is not between braces is no table.
pub proof fn law_no_braces(before: Seq<char>, x: Seq<char>, behind: Seq<char>)
    requires
        blank(before),
        blank(behind),
        core_text(x),
        x.len() == 0 || x[0] != '{' || x[x.len() - 1] != '}',
    ensures
        parse_statuses(before + x + behind) is None,
{
    lemma_trim_core(before, x, behind);
}

/// Two lists of entries without double quotes and backslashes make one with a comma between
/// them: it is a table if both are, and what the second says goes before the first.
pub proof fn law_entries_compose(a: Seq<char>, b: Seq<char>)
    requires
        quoteless(a),
        quoteless(b),
    ensures
        parse_inner(a + seq![','] + b) == (match (parse_inner(a), parse_inner(b)) {
            (Some(m), Some(n)) => Some(m.union_prefer_right(n)),
            _ => None,
        }),
{
    let s = a + seq![','] + b;
    assert(quoteless(s)) by {
        assert forall|i: int| 0 <= i < s.len() implies s[i] != '"' && s[i] != '\\' by {
            if i < a.len() {
                assert(a.contains(a[i]));
            } else if i > a.len() {
                assert(b.contains(b[i - a.len() - 1]));
            }
        }
    }
    lemma_inner_plain(a);
    lemma_inner_plain(b);
    lemma_inner_plain(s);
    lemma_split_comma(a, b);
    law_entries_merge(split(a, seq![',']), split(b, seq![',']), a, Quoting::Loose);
}

proof fn lemma_split_comma(a: Seq<char>, b: Seq<char>)
    ensures
        split(a + seq![','] + b, seq![',']) == split(a, seq![',']) + split(b, seq![',']),
    decreases a.len(),
{
    let c = seq![','];
    let s = a + c + b;
    if a.contains(',') {
        lemma_has_char(a, ',');
        let j = choose|j: int| occurs_at(a, c, j);
        lemma_first_exists(a, c, j);
        let i = choose|i: int| first_at(a, c, i);
        lemma_char_at(a, ',', i);
        lemma_char_at(s, ',', i);
        assert forall|k: int| 0 <= k < i implies !occurs_at(s, c, k) by {
            lemma_char_at(a, ',', k);
            lemma_char_at(s, ',', k);
        }
        assert(first_at(s, c, i));
        lemma_split_at(s, c, i);
        lemma_split_at(a, c, i);
        let rest = a.skip(i + 1);
        assert(s.take(i) =~= a.take(i));
        assert(s.skip(i + 1) =~= rest + c + b);
        lemma_split_comma(rest, b);
        assert(split(s, c) =~= split(a, c) + split(b, c));
    } else {
        lemma_has_char(a, ',');
        lemma_first_char(a, ',', b);
        lemma_split_at(s, c, a.len() as int);
        lemma_split_whole(a, c);
        assert(s.take(a.len() as int) =~= a);
        assert(s.skip(a.len() as int + 1) =~= b);
    }
}

/// Entries behind entries: both lists have to be read, and what the second says goes before
/// the first. A single entry is a table by itself.
pub proof fn law_entries_merge(p: Seq<Seq<char>>, q: Seq<Seq<char>>, part: Seq<char>, l: Quoting)
    ensures
        parse_entries(p + q, l) == (match (parse_entries(p, l), parse_entries(q, l)) {
            (Some(m), Some(n)) => Some(m.union_prefer_right(n)),
            _ => None,
        }),
        parse_entries(seq![part], l) == (match parse_entry(part, l) {
            Some((k, v)) => Some(Map::<usize, Seq<char>>::empty().insert(k, v)),
            None => None,
        }),
        parse_entries(Seq::<Seq<char>>::empty(), l) == Some(Map::<usize, Seq<char>>::empty()),
    decreases q.len(),
{
    let one = seq![part];
    assert(one.drop_last() =~= Seq::<Seq<char>>::empty());
    assert(one.last() == part);
    assert(parse_entries(one.drop_last(), l) == Some(Map::<usize, Seq<char>>::empty()));
    if q.len() == 0 {
        assert(p + q =~= p);
        if parse_entries(p, l) is Some {
            let m = parse_entries(p, l)->0;
            assert(m.union_prefer_right(Map::<usize, Seq<char>>::empty()) =~= m);
        }
    } else {
        let front = q.drop_last();
        law_entries_merge(p, front, part, l);
        assert((p + q).drop_last() =~= p + front);
        assert((p + q).last() == q.last());
        if parse_entries(p, l) is Some && parse_entries(front, l) is Some && parse_entry(
            q.last(),
            l,
        ) is Some {
            let m = parse_entries(p, l)->0;
            let n = parse_entries(front, l)->0;
            let (k, v) = parse_entry(q.last(), l)->0;
            assert(m.union_prefer_right(n).insert(k, v) =~= m.union_prefer_right(n.insert(k, v)));
        }
    }
}

/// An entry without a colon is none.
pub proof fn law_no_colon(x: Seq<char>)
    requires
        quoteless(x),
        !x.contains(':'),
        !x.contains(','),
    ensures
        parse_inner(x) is None,
{
    lemma_inner_plain(x);
    lemma_has_char(x, ',');
    lemma_split_whole(x, seq![',']);
    let parts = seq![x];
    assert(parts.last() == x);
    let p = trim(x, Strip::White);
    lemma_trim_within(x, Strip::White);
    lemma_lacks(x, p, ':');
    lemma_has_char(p, ':');
    assert forall|i: int| !first_at(p, seq![':'], i) by {
        if first_at(p, seq![':'], i) {
            assert(has_text(p, seq![':']));
        }
    }
    assert(halves(x) is None);
}

/// Which double quotes count, and where text is cut: by what stands before.
pub proof fn law_quotes(s: Seq<char>, c: char)
    ensures
        !escaped(Seq::<char>::empty(), 0),
        !within_quotes(s, 0),
        escaped(s.push(c), s.len() as int + 1) <==> c == '\\' && !escaped(s, s.len() as int),
        quote_at(s.push(c), s.len() as int) <==> c == '"' && !escaped(s, s.len() as int),
        within_quotes(s.push(c), s.len() as int + 1) <==> (within_quotes(s, s.len() as int) != (c
            == '"' && !escaped(s, s.len() as int))),
        cut_at(s.push(c), s.len() as int) <==> c == ',' && !within_quotes(s, s.len() as int),
{
    lemma_same_before(s, c, s.len() as int);
}

proof fn lemma_same_before(s: Seq<char>, c: char, i: int)
    requires
        0 <= i <= s.len(),
    ensures
        escaped(s.push(c), i) == escaped(s, i),
        within_quotes(s.push(c), i) == within_quotes(s, i),
    decreases i,
{
    if i > 0 {
        lemma_same_before(s, c, i - 1);
    }
}

} // verus!
