//! What holds of the protocol as a whole.

use crate::clock::Timestamp;
use crate::config::{PaneInfo, ZellijStateView};
use crate::json::{escape, escape_char, unescape};
use crate::number::{decimal, is_digit, lemma_decimal_digits, lemma_parse_decimal};
use crate::pipe::{
    alters, command_of, effect, has_pane, line_effect, lines_alter, lines_effect, pane_id_of, request_line,
    resolves, status_set, sync_line, CommandView,
};
use crate::statuses::{
    entry_text, entry_texts, join, ordered_keys, parse_statuses, render_statuses,
};
use crate::statuses_laws::{
    law_round_trip, lemma_char_at, lemma_escape_chars, lemma_first_char, lemma_has_char,
    lemma_listing_exists, lemma_parsed_finite, lemma_parsed_within, lemma_split_within,
    lemma_unescape_chars, lemma_within,
};
use crate::text::{
    first_at, has_text, lemma_first_exists, lemma_split_at, lemma_split_whole, occurs_at, split,
};
use vstd::prelude::*;

verus! {

/// The separator of the protocol.
pub open spec fn colons() -> Seq<char> {
    seq![':', ':']
}

pub proof fn lemma_colons()
    ensures
        "::"@ == colons(),
{
    reveal_strlit("::");
    assert("::"@ =~= colons());
}

pub proof fn lemma_colons_at(s: Seq<char>, i: int)
    requires
        0 <= i,
        i + 2 <= s.len(),
    ensures
        occurs_at(s, colons(), i) <==> s[i] == ':' && s[i + 1] == ':',
{
    let r = s.subrange(i, i + 2);
    if s[i] == ':' && s[i + 1] == ':' {
        assert(r =~= colons());
    } else {
        assert(r[0] == s[i] && r[1] == s[i + 1]);
    }
}

/// Two texts without the separator have none together, unless a colon ends the
/// first and starts the second.
proof fn lemma_no_colons(a: Seq<char>, b: Seq<char>)
    requires
        !has_text(a, colons()),
        !has_text(b, colons()),
        !(a.len() > 0 && b.len() > 0 && a.last() == ':' && b.first() == ':'),
    ensures
        !has_text(a + b, colons()),
{
    let s = a + b;
    if has_text(s, colons()) {
        let i = choose|i: int| occurs_at(s, colons(), i);
        lemma_colons_at(s, i);
        if i + 2 <= a.len() {
            lemma_colons_at(a, i);
        } else if i >= a.len() {
            lemma_colons_at(b, i - a.len());
        } else {
            assert(a.last() == s[i]);
            assert(b.first() == s[i + 1]);
        }
    }
}

/// A text in which a colon never stands has no separator.
pub proof fn lemma_no_colon(s: Seq<char>)
    requires
        !s.contains(':'),
    ensures
        !has_text(s, colons()),
{
    if has_text(s, colons()) {
        let i = choose|i: int| occurs_at(s, colons(), i);
        lemma_colons_at(s, i);
        assert(s.contains(s[i]));
    }
}

/// The first separator ends a part that has none and does not end in a colon.
pub proof fn lemma_split_front(a: Seq<char>, b: Seq<char>)
    requires
        !has_text(a, colons()),
        a.len() > 0 ==> a.last() != ':',
    ensures
        split(a + colons() + b, colons()) == seq![a] + split(b, colons()),
{
    let s = a + colons() + b;
    let n = a.len() as int;
    lemma_colons_at(s, n);
    assert forall|j: int| 0 <= j < n implies !occurs_at(s, colons(), j) by {
        lemma_colons_at(s, j);
        if j + 2 <= n {
            lemma_colons_at(a, j);
        }
    }
    lemma_split_at(s, colons(), n);
    assert(s.take(n) =~= a);
    assert(s.skip(n + 2) =~= b);
}

/// Escaping makes no separator.
proof fn lemma_escape_colons(v: Seq<char>)
    requires
        !has_text(v, colons()),
    ensures
        !has_text(escape(v), colons()),
        v.len() > 0 ==> escape(v).len() > 0 && escape(v).last() == v.last(),
        v.len() == 0 ==> escape(v).len() == 0,
    decreases v.len(),
{
    if v.len() > 0 {
        let front = v.drop_last();
        let c = v.last();
        if has_text(front, colons()) {
            let i = choose|i: int| occurs_at(front, colons(), i);
            lemma_colons_at(front, i);
            lemma_colons_at(v, i);
        }
        lemma_escape_colons(front);
        if has_text(escape_char(c), colons()) {
            let i = choose|i: int| occurs_at(escape_char(c), colons(), i);
            lemma_colons_at(escape_char(c), i);
        }
        if front.len() > 0 && front.last() == ':' && c == ':' {
            lemma_colons_at(v, v.len() - 2);
        }
        lemma_no_colons(escape(front), escape_char(c));
    } else {
        lemma_no_colon(v);
    }
}

/// An entry whose value has no separator has none, and a quote at each end.
proof fn lemma_entry_colons(k: usize, v: Seq<char>)
    requires
        !has_text(v, colons()),
    ensures
        !has_text(entry_text(k, v), colons()),
        entry_text(k, v).len() > 0,
        entry_text(k, v).first() == '"',
        entry_text(k, v).last() == '"',
{
    let dec = decimal(k as nat);
    let key = seq!['"'] + dec + seq!['"'];
    let quote = seq!['"'];
    lemma_decimal_digits(k as nat);
    assert(!key.contains(':')) by {
        if key.contains(':') {
            let i = choose|i: int| 0 <= i < key.len() && key[i] == ':';
            assert(is_digit(dec[i - 1]));
        }
    }
    lemma_no_colon(key);
    lemma_no_colon(quote);
    let colon = seq![':'];
    if has_text(colon, colons()) {
        let i = choose|i: int| occurs_at(colon, colons(), i);
    }
    lemma_no_colons(key, colon);
    lemma_escape_colons(v);
    lemma_no_colons(quote, escape(v));
    lemma_no_colons(quote + escape(v), quote);
    lemma_no_colons(key + colon, quote + escape(v) + quote);
}

/// Entries without a separator have none when joined.
proof fn lemma_join_colons(parts: Seq<Seq<char>>)
    requires
        forall|i: int|
            0 <= i < parts.len() ==> !has_text(#[trigger] parts[i], colons()) && parts[i].len() > 0
                && parts[i].first() == '"' && parts[i].last() == '"',
    ensures
        !has_text(join(parts, ','), colons()),
        parts.len() > 0 ==> join(parts, ',').len() > 0 && join(parts, ',').first() == '"' && join(
            parts,
            ',',
        ).last() == '"',
        parts.len() == 0 ==> join(parts, ',').len() == 0,
    decreases parts.len(),
{
    if parts.len() == 0 {
        lemma_no_colon(join(parts, ','));
    } else if parts.len() >= 2 {
        let front = parts.drop_last();
        assert forall|i: int| 0 <= i < front.len() implies !has_text(#[trigger] front[i], colons())
            && front[i].len() > 0 && front[i].first() == '"' && front[i].last() == '"' by {
            assert(front[i] == parts[i]);
        }
        lemma_join_colons(front);
        lemma_no_colon(seq![',']);
        lemma_no_colons(join(front, ','), seq![',']);
        lemma_no_colons(join(front, ',') + seq![','], parts.last());
    }
}

/// A written table has no separator if none of its values has.
proof fn lemma_render_colons(m: Map<usize, Seq<char>>)
    requires
        m.dom().finite(),
        forall|k: usize| #[trigger] m.contains_key(k) ==> !has_text(m[k], colons()),
    ensures
        !has_text(render_statuses(m), colons()),
{
    let keys = ordered_keys(m.dom());
    lemma_listing_exists(m.dom());
    let parts = entry_texts(keys, m);
    assert forall|i: int| 0 <= i < parts.len() implies !has_text(#[trigger] parts[i], colons())
        && parts[i].len() > 0 && parts[i].first() == '"' && parts[i].last() == '"' by {
        assert(keys.contains(keys[i]));
        assert(m.dom().contains(keys[i]));
        lemma_entry_colons(keys[i], m[keys[i]]);
    }
    lemma_join_colons(parts);
    lemma_no_colon(seq!['{']);
    lemma_no_colon(seq!['}']);
    lemma_no_colons(seq!['{'], join(parts, ','));
    lemma_no_colons(seq!['{'] + join(parts, ','), seq!['}']);
}

/// The parts of a line of the protocol with a given command.
pub proof fn lemma_line_parts(name: Seq<char>, rest: Seq<char>)
    requires
        !name.contains(':'),
    ensures
        split("zjstatus"@ + colons() + (name + colons() + rest), colons()) == seq![
            "zjstatus"@,
            name,
        ] + split(rest, colons()),
{
    reveal_strlit("zjstatus");
    assert(!"zjstatus"@.contains(':'));
    lemma_no_colon("zjstatus"@);
    lemma_no_colon(name);
    assert(name.len() > 0 ==> name.contains(name.last())) by {
        if name.len() > 0 {
            assert(name[name.len() - 1] == name.last());
        }
    }
    lemma_split_front("zjstatus"@, name + colons() + rest);
    lemma_split_front(name, rest);
    assert(seq!["zjstatus"@] + (seq![name] + split(rest, colons())) =~= seq!["zjstatus"@, name]
        + split(rest, colons()));
}

/// Splitting gives at least one part.
pub proof fn lemma_split_some(s: Seq<char>, pat: Seq<char>)
    requires
        pat.len() > 0,
    ensures
        split(s, pat).len() > 0,
{
}

proof fn lemma_sync_parts(m: Map<usize, Seq<char>>)
    ensures
        split(sync_line(m), "::"@) == seq!["zjstatus"@, "status_sync"@] + split(
            render_statuses(m),
            colons(),
        ),
{
    lemma_colons();
    reveal_strlit("zjstatus::status_sync::");
    reveal_strlit("zjstatus");
    reveal_strlit("status_sync");
    assert(!"status_sync"@.contains(':'));
    lemma_line_parts("status_sync"@, render_statuses(m));
    assert("zjstatus::status_sync::"@ =~= "zjstatus"@ + colons() + ("status_sync"@ + colons()));
    assert(sync_line(m) =~= "zjstatus"@ + colons() + ("status_sync"@ + colons() + render_statuses(
        m,
    )));
}

/// The command names are all different.
proof fn lemma_names()
    ensures
        "status_sync"@ != "rerun"@,
        "status_sync"@ != "notify"@,
        "status_sync"@ != "pipe"@,
        "status_sync"@ != "set_status"@,
        "status_request"@ != "rerun"@,
        "status_request"@ != "notify"@,
        "status_request"@ != "pipe"@,
        "status_request"@ != "set_status"@,
        "status_request"@ != "status_sync"@,
        "set_status"@ != "rerun"@,
        "set_status"@ != "notify"@,
        "set_status"@ != "pipe"@,
        "clear_status"@ != "rerun"@,
        "clear_status"@ != "notify"@,
        "clear_status"@ != "pipe"@,
        "clear_status"@ != "set_status"@,
        "clear_status"@ != "status_sync"@,
        "clear_status"@ != "status_request"@,
{
    reveal_strlit("rerun");
    reveal_strlit("notify");
    reveal_strlit("pipe");
    reveal_strlit("set_status");
    reveal_strlit("status_sync");
    reveal_strlit("status_request");
    reveal_strlit("clear_status");
    assert("rerun"@.len() == 5);
    assert("notify"@.len() == 6);
    assert("pipe"@.len() == 4);
    assert("set_status"@.len() == 10);
    assert("status_sync"@.len() == 11);
    assert("status_request"@.len() == 14);
    assert("clear_status"@.len() == 12);
}

/// A table that a line of the protocol can carry: no value has two colons in a row.
pub open spec fn sendable(m: Map<usize, Seq<char>>) -> bool {
    forall|k: usize| #[trigger] m.contains_key(k) ==> !has_text(m[k], "::"@)
}

/// The line that tells a table is read up to the first separator within the table.
proof fn lemma_sync_command(m: Map<usize, Seq<char>>)
    ensures
        command_of(sync_line(m)) == (match parse_statuses(split(render_statuses(m), colons())[0]) {
            Some(statuses) => Some(CommandView::StatusSync { statuses }),
            None => None,
        }),
{
    let parts = split(sync_line(m), "::"@);
    let rest = split(render_statuses(m), colons());
    lemma_sync_parts(m);
    lemma_split_some(render_statuses(m), colons());
    lemma_names();
    assert(parts.len() >= 3);
    assert(parts[0] == "zjstatus"@);
    assert(parts[1] == "status_sync"@);
    assert(parts[2] == rest[0]);
}

/// Undoing escapes makes no separator.
proof fn lemma_unescape_colons(v: Seq<char>)
    requires
        !has_text(v, colons()),
    ensures
        !has_text(unescape(v), colons()),
    decreases v.len(),
{
    let u = unescape(v);
    if v.len() == 0 {
        lemma_no_colon(u);
    } else {
        let n: int = if v.len() >= 2 && v[0] == '\\' && (v[1] == '\\' || v[1] == '"') {
            2
        } else {
            1
        };
        let rest = v.skip(n);
        if has_text(rest, colons()) {
            let i = choose|i: int| occurs_at(rest, colons(), i);
            lemma_colons_at(rest, i);
            lemma_colons_at(v, n + i);
        }
        lemma_unescape_colons(rest);
        if has_text(u, colons()) {
            let i = choose|i: int| occurs_at(u, colons(), i);
            lemma_colons_at(u, i);
            if i == 0 {
                assert(v[0] == ':' && unescape(rest)[0] == ':');
                assert(rest[0] == ':');
                lemma_colons_at(v, 0);
            } else {
                lemma_colons_at(unescape(rest), i - 1);
            }
        }
    }
}

/// What is read from a text without a separator has none.
proof fn lemma_parsed_colons(t: Seq<char>, m: Map<usize, Seq<char>>)
    requires
        !has_text(t, colons()),
        parse_statuses(t) == Some(m),
    ensures
        forall|k: usize| #[trigger] m.contains_key(k) ==> !has_text(m[k], colons()),
{
    assert forall|k: usize| #[trigger] m.contains_key(k) implies !has_text(m[k], colons()) by {
        let raw = lemma_parsed_within(t, k);
        if has_text(raw, colons()) {
            lemma_within(t, raw, colons());
        }
        lemma_unescape_colons(raw);
    }
}

/// The line that tells a table tells that table exactly if the table is sendable.
pub proof fn law_sync_line(m: Map<usize, Seq<char>>)
    requires
        m.dom().finite(),
    ensures
        command_of(sync_line(m)) == Some(CommandView::StatusSync { statuses: m }) <==> sendable(m),
{
    let json = render_statuses(m);
    let t = split(json, colons())[0];
    lemma_colons();
    lemma_sync_command(m);
    lemma_split_some(json, colons());
    lemma_split_within(json, colons(), 0);
    law_round_trip(m);
    if parse_statuses(t) == Some(m) {
        lemma_parsed_colons(t, m);
        lemma_render_colons(m);
        lemma_split_whole(json, colons());
        assert(sendable(m));
    }
    if sendable(m) {
        lemma_render_colons(m);
        lemma_split_whole(json, colons());
    }
}

/// An instance that is told the statuses of another has those statuses afterwards,
/// whatever it had before, and is drawn again. It does not tell them on, and nothing
/// else of it changes.
pub proof fn law_sync_agrees(
    m: Map<usize, Seq<char>>,
    receiver: ZellijStateView,
    tab: Option<usize>,
    now: Timestamp,
)
    requires
        m.dom().finite(),
        sendable(m),
    ensures
        line_effect(receiver, sync_line(m), tab, now) == (
            (ZellijStateView { tab_statuses: m, ..receiver }),
            true,
            false,
        ),
{
    law_sync_line(m);
}

/// A character that no value has, and that writing does not bring in, is not in a
/// written table.
proof fn lemma_render_char(m: Map<usize, Seq<char>>, c: char)
    requires
        m.dom().finite(),
        !is_digit(c),
        c != '{' && c != '}' && c != ',' && c != '"' && c != ':' && c != '\\',
        forall|k: usize| #[trigger] m.contains_key(k) ==> !m[k].contains(c),
    ensures
        !render_statuses(m).contains(c),
{
    let keys = ordered_keys(m.dom());
    lemma_listing_exists(m.dom());
    let parts = entry_texts(keys, m);
    assert forall|i: int| 0 <= i < parts.len() implies !(#[trigger] parts[i]).contains(c) by {
        let k = keys[i];
        assert(keys.contains(k));
        assert(m.dom().contains(k));
        let dec = decimal(k as nat);
        let v = m[k];
        lemma_decimal_digits(k as nat);
        lemma_escape_chars(v, c);
        if parts[i].contains(c) {
            let j = choose|j: int| 0 <= j < parts[i].len() && parts[i][j] == c;
            let n = dec.len() as int;
            if 1 <= j < n + 1 {
                assert(is_digit(dec[j - 1]));
            } else if n + 4 <= j < parts[i].len() - 1 {
                assert(escape(v)[j - n - 4] == c);
            }
        }
    }
    lemma_join_char(parts, c);
    let inner = join(parts, ',');
    let t = render_statuses(m);
    if t.contains(c) {
        let j = choose|j: int| 0 <= j < t.len() && t[j] == c;
        assert(inner[j - 1] == c);
    }
}

proof fn lemma_join_char(parts: Seq<Seq<char>>, c: char)
    requires
        c != ',',
        forall|i: int| 0 <= i < parts.len() ==> !(#[trigger] parts[i]).contains(c),
    ensures
        !join(parts, ',').contains(c),
    decreases parts.len(),
{
    if parts.len() >= 2 {
        let front = parts.drop_last();
        lemma_join_char(front, c);
        let s = join(parts, ',');
        if s.contains(c) {
            let j = choose|j: int| 0 <= j < s.len() && s[j] == c;
            let n = join(front, ',').len();
            if j < n {
                assert(join(front, ',')[j] == c);
            } else if j > n {
                assert(parts.last()[j - n - 1] == c);
            }
        }
    }
}

pub proof fn lemma_newline()
    ensures
        "\n"@ == seq!['\n'],
{
    reveal_strlit("\n");
    assert("\n"@ =~= seq!['\n']);
}

/// A message without a line break is one line.
pub proof fn law_one_line(
    s: ZellijStateView,
    line: Seq<char>,
    tabs: Seq<Option<usize>>,
    nows: Seq<Timestamp>,
)
    requires
        !line.contains('\n'),
    ensures
        split(line, "\n"@) == seq![line],
        lines_effect(s, split(line, "\n"@), tabs, nows) == line_effect(
            s,
            line,
            tabs.last(),
            nows.last(),
        ),
        lines_alter(s, split(line, "\n"@), tabs, nows) == alters(s, line, tabs.last()),
{
    lemma_newline();
    lemma_has_char(line, '\n');
    lemma_split_whole(line, seq!['\n']);
    let lines = split(line, "\n"@);
    assert(lines.drop_last() =~= Seq::<Seq<char>>::empty());
    assert(lines.last() == line);
    reveal_with_fuel(lines_effect, 2);
    reveal_with_fuel(lines_alter, 2);
}

/// Statuses without line breaks are told in one line.
pub proof fn lemma_sync_one_line(m: Map<usize, Seq<char>>)
    requires
        m.dom().finite(),
        breakless(m),
    ensures
        !sync_line(m).contains('\n'),
{
    let line = sync_line(m);
    let prefix = "zjstatus::status_sync::"@;
    lemma_render_char(m, '\n');
    reveal_strlit("zjstatus::status_sync::");
    assert(!prefix.contains('\n'));
    if line.contains('\n') {
        let j = choose|j: int| 0 <= j < line.len() && line[j] == '\n';
        if j < prefix.len() {
            assert(prefix[j] == '\n');
        } else {
            assert(render_statuses(m)[j - prefix.len()] == '\n');
        }
    }
}

/// No status has a line break in it.
pub open spec fn breakless(m: Map<usize, Seq<char>>) -> bool {
    forall|k: usize| #[trigger] m.contains_key(k) ==> !m[k].contains('\n')
}

/// A message that tells sendable statuses without line breaks brings the receiver to
/// those statuses.
pub proof fn law_sync_message(
    m: Map<usize, Seq<char>>,
    receiver: ZellijStateView,
    tabs: Seq<Option<usize>>,
    nows: Seq<Timestamp>,
)
    requires
        m.dom().finite(),
        sendable(m),
        breakless(m),
    ensures
        lines_effect(receiver, split(sync_line(m), "\n"@), tabs, nows) == (
            (ZellijStateView { tab_statuses: m, ..receiver }),
            true,
            false,
        ),
{
    lemma_sync_one_line(m);
    law_one_line(receiver, sync_line(m), tabs, nows);
    law_sync_agrees(m, receiver, tabs.last(), nows.last());
}

/// Being told statuses without line breaks, whatever else they hold, never makes the
/// receiver tell statuses.
pub proof fn law_sync_silent(
    m: Map<usize, Seq<char>>,
    receiver: ZellijStateView,
    tabs: Seq<Option<usize>>,
    nows: Seq<Timestamp>,
)
    requires
        m.dom().finite(),
        breakless(m),
    ensures
        !lines_effect(receiver, split(sync_line(m), "\n"@), tabs, nows).2,
{
    lemma_sync_one_line(m);
    law_one_line(receiver, sync_line(m), tabs, nows);
    lemma_sync_command(m);
}

/// The line that sets the status of the tab with a pane.
pub open spec fn set_status_line(pane_id: u32, emoji: Seq<char>) -> Seq<char> {
    "zjstatus::set_status::"@ + decimal(pane_id as nat) + "::"@ + emoji
}

/// The line that clears the status of the tab with a pane.
pub open spec fn clear_status_line(pane_id: u32) -> Seq<char> {
    "zjstatus::clear_status::"@ + decimal(pane_id as nat)
}

proof fn lemma_pane_id(id: u32)
    ensures
        pane_id_of(decimal(id as nat)) == Some(id),
        !has_text(decimal(id as nat), colons()),
        decimal(id as nat).len() > 0,
        decimal(id as nat).last() != ':',
{
    let dec = decimal(id as nat);
    lemma_parse_decimal(id as nat, u32::MAX as nat);
    lemma_decimal_digits(id as nat);
    assert(!dec.contains(':')) by {
        if dec.contains(':') {
            let i = choose|i: int| 0 <= i < dec.len() && dec[i] == ':';
            assert(is_digit(dec[i]));
        }
    }
    lemma_no_colon(dec);
    assert(is_digit(dec[dec.len() - 1]));
}

proof fn lemma_set_status_parts(pane_id: u32, emoji: Seq<char>)
    ensures
        split(set_status_line(pane_id, emoji), "::"@) == seq![
            "zjstatus"@,
            "set_status"@,
            decimal(pane_id as nat),
        ] + split(emoji, colons()),
{
    let dec = decimal(pane_id as nat);
    let line = set_status_line(pane_id, emoji);
    lemma_colons();
    lemma_pane_id(pane_id);
    let rest = dec + colons() + emoji;
    assert(line == "zjstatus"@ + colons() + ("set_status"@ + colons() + rest)) by {
        reveal_strlit("zjstatus::set_status::");
        reveal_strlit("zjstatus");
        reveal_strlit("set_status");
        assert("zjstatus::set_status::"@ =~= "zjstatus"@ + colons() + ("set_status"@ + colons()));
        assert(line =~= "zjstatus"@ + colons() + ("set_status"@ + colons() + rest));
    }
    assert(!"set_status"@.contains(':')) by {
        reveal_strlit("set_status");
    }
    lemma_line_parts("set_status"@, rest);
    lemma_split_front(dec, emoji);
    assert(seq!["zjstatus"@, "set_status"@] + (seq![dec] + split(emoji, colons())) =~= seq![
        "zjstatus"@,
        "set_status"@,
        dec,
    ] + split(emoji, colons()));
}

/// The line that sets a status is read as such, with the emoji up to the first two
/// colons in a row: with the whole emoji if it has none.
pub proof fn law_set_status_line(pane_id: u32, emoji: Seq<char>)
    ensures
        command_of(set_status_line(pane_id, emoji)) == Some(
            CommandView::SetStatus { pane_id, emoji: split(emoji, "::"@)[0] },
        ),
        !has_text(emoji, "::"@) ==> split(emoji, "::"@)[0] == emoji,
{
    let parts = split(set_status_line(pane_id, emoji), "::"@);
    lemma_colons();
    lemma_set_status_parts(pane_id, emoji);
    lemma_pane_id(pane_id);
    lemma_names();
    lemma_split_some(emoji, colons());
    assert(parts.len() >= 4);
    assert(parts[0] == "zjstatus"@);
    assert(parts[1] == "set_status"@);
    assert(parts[2] == decimal(pane_id as nat));
    assert(parts[3] == split(emoji, colons())[0]);
    if !has_text(emoji, "::"@) {
        lemma_split_whole(emoji, colons());
    }
}

proof fn lemma_clear_status_head()
    ensures
        "zjstatus::clear_status::"@ == "zjstatus"@ + colons() + ("clear_status"@ + colons()),
        !"clear_status"@.contains(':'),
{
    reveal_strlit("zjstatus::clear_status::");
    reveal_strlit("zjstatus");
    reveal_strlit("clear_status");
    assert("zjstatus::clear_status::"@ =~= "zjstatus"@ + colons() + ("clear_status"@ + colons()));
}

/// The parts of a line of the protocol with a command and one argument.
proof fn lemma_three_parts(name: Seq<char>, argument: Seq<char>)
    requires
        !name.contains(':'),
        !has_text(argument, colons()),
    ensures
        split("zjstatus"@ + colons() + (name + colons() + argument), colons()) == seq![
            "zjstatus"@,
            name,
            argument,
        ],
{
    lemma_line_parts(name, argument);
    lemma_split_whole(argument, colons());
    assert(seq!["zjstatus"@, name] + seq![argument] =~= seq!["zjstatus"@, name, argument]);
}

proof fn lemma_clear_status_parts(pane_id: u32)
    ensures
        split(clear_status_line(pane_id), "::"@) == seq![
            "zjstatus"@,
            "clear_status"@,
            decimal(pane_id as nat),
        ],
{
    let dec = decimal(pane_id as nat);
    let line = clear_status_line(pane_id);
    lemma_colons();
    lemma_pane_id(pane_id);
    lemma_clear_status_head();
    let a = "zjstatus"@ + colons();
    let b = "clear_status"@ + colons();
    assert(line =~= a + (b + dec)) by {
        assert(line == a + b + dec);
    }
    lemma_three_parts("clear_status"@, dec);
}

/// The line that clears a status is read as such.
pub proof fn law_clear_status_line(pane_id: u32)
    ensures
        command_of(clear_status_line(pane_id)) == Some(CommandView::ClearStatus { pane_id }),
{
    let parts = split(clear_status_line(pane_id), "::"@);
    lemma_clear_status_parts(pane_id);
    lemma_pane_id(pane_id);
    lemma_names();
    assert(parts.len() == 3);
    assert(parts[0] == "zjstatus"@);
    assert(parts[1] == "clear_status"@);
    assert(parts[2] == decimal(pane_id as nat));
}

/// An instance that is asked for its statuses tells them, is not drawn again for it,
/// and does not change.
pub proof fn law_request(s: ZellijStateView, tab: Option<usize>, now: Timestamp)
    ensures
        line_effect(s, request_line(), tab, now) == (s, false, true),
{
    let line = request_line();
    lemma_colons();
    lemma_names();
    reveal_strlit("zjstatus::status_request::_");
    reveal_strlit("zjstatus");
    reveal_strlit("status_request");
    assert(!"status_request"@.contains(':'));
    let rest = seq!['_'];
    assert(line =~= "zjstatus"@ + colons() + ("status_request"@ + colons() + rest));
    lemma_line_parts("status_request"@, rest);
    lemma_split_some(rest, colons());
    let parts = split(line, "::"@);
    assert(parts[0] == "zjstatus"@);
    assert(parts[1] == "status_request"@);
    assert(parts.len() >= 3);
}

/// Only setting, clearing and asking make an instance tell its statuses. Above all
/// being told statuses does not, so telling them comes to an end.
pub proof fn law_who_tells(s: ZellijStateView, line: Seq<char>, tab: Option<usize>, now: Timestamp)
    ensures
        line_effect(s, line, tab, now).2 ==> (match command_of(line) {
            Some(CommandView::SetStatus { .. }) => tab is Some,
            Some(CommandView::ClearStatus { .. }) => tab is Some,
            Some(CommandView::StatusRequest) => true,
            _ => false,
        }),
{
}

/// A line that does not ask for the bar to be drawn again changes nothing.
pub proof fn law_undrawn_unchanged(
    s: ZellijStateView,
    line: Seq<char>,
    tab: Option<usize>,
    now: Timestamp,
)
    ensures
        !line_effect(s, line, tab, now).1 ==> line_effect(s, line, tab, now).0 == s,
{
}

/// A message that does not ask for the bar to be drawn again changes nothing.
pub proof fn law_undrawn_message(
    s: ZellijStateView,
    lines: Seq<Seq<char>>,
    tabs: Seq<Option<usize>>,
    nows: Seq<Timestamp>,
)
    ensures
        !lines_effect(s, lines, tabs, nows).1 ==> lines_effect(s, lines, tabs, nows).0 == s,
    decreases lines.len(),
{
    if lines.len() > 0 {
        law_undrawn_message(s, lines.drop_last(), tabs.drop_last(), nows.drop_last());
    }
}

/// A line changes nothing but results of commands and pipes, the notification and
/// the statuses.
pub proof fn law_what_lines_change(
    s: ZellijStateView,
    line: Seq<char>,
    tab: Option<usize>,
    now: Timestamp,
)
    ensures
        ({
            let after = line_effect(s, line, tab, now).0;
            after == ZellijStateView {
                command_results: after.command_results,
                pipe_results: after.pipe_results,
                incoming_notification: after.incoming_notification,
                tab_statuses: after.tab_statuses,
                ..s
            }
        }),
{
}

/// Setting a status sets it, for that tab alone.
pub proof fn law_set_status(
    s: ZellijStateView,
    pane_id: u32,
    emoji: Seq<char>,
    tab: usize,
    now: Timestamp,
)
    requires
        emoji.len() > 0,
    ensures
        ({
            let after = effect(
                s,
                CommandView::SetStatus { pane_id, emoji },
                Some(tab),
                now,
            ).0.tab_statuses;
            &&& after.contains_key(tab)
            &&& after[tab] == emoji
            &&& forall|t: usize|
                t != tab ==> (#[trigger] after.contains_key(t) <==> s.tab_statuses.contains_key(t))
            &&& forall|t: usize|
                t != tab && #[trigger] s.tab_statuses.contains_key(t) ==> after[t]
                    == s.tab_statuses[t]
        }),
{
}

/// The last status that was set for a tab is the one it has, from whichever of its
/// panes it was set.
pub proof fn law_last_write_wins(
    s: ZellijStateView,
    first: u32,
    second: u32,
    emoji1: Seq<char>,
    emoji2: Seq<char>,
    tab: usize,
    now: Timestamp,
)
    ensures
        ({
            let once = effect(
                s,
                CommandView::SetStatus { pane_id: first, emoji: emoji1 },
                Some(tab),
                now,
            ).0;
            effect(
                once,
                CommandView::SetStatus { pane_id: second, emoji: emoji2 },
                Some(tab),
                now,
            ) == effect(
                s,
                CommandView::SetStatus { pane_id: second, emoji: emoji2 },
                Some(tab),
                now,
            )
        }),
{
    assert(status_set(status_set(s.tab_statuses, tab, emoji1), tab, emoji2) =~= status_set(
        s.tab_statuses,
        tab,
        emoji2,
    ));
}

/// A status belongs to the tab: it makes no difference which of its panes asks.
pub proof fn law_panes_share(
    s: ZellijStateView,
    first: u32,
    second: u32,
    emoji: Seq<char>,
    tab: Option<usize>,
    now: Timestamp,
)
    ensures
        effect(s, CommandView::SetStatus { pane_id: first, emoji }, tab, now) == effect(
            s,
            CommandView::SetStatus { pane_id: second, emoji },
            tab,
            now,
        ),
        effect(s, CommandView::ClearStatus { pane_id: first }, tab, now) == effect(
            s,
            CommandView::ClearStatus { pane_id: second },
            tab,
            now,
        ),
{
}

/// Setting an empty status is clearing it.
pub proof fn law_empty_clears(
    s: ZellijStateView,
    pane_id: u32,
    tab: Option<usize>,
    now: Timestamp,
)
    ensures
        effect(s, CommandView::SetStatus { pane_id, emoji: Seq::empty() }, tab, now) == effect(
            s,
            CommandView::ClearStatus { pane_id },
            tab,
            now,
        ),
{
}

/// Clearing takes the status away, whatever was set before. Clearing again changes
/// nothing, and neither does clearing where no status is.
pub proof fn law_clear(
    s: ZellijStateView,
    pane_id: u32,
    emoji: Seq<char>,
    tab: usize,
    now: Timestamp,
)
    ensures
        ({
            let clear = CommandView::ClearStatus { pane_id };
            let set = CommandView::SetStatus { pane_id, emoji };
            let cleared = effect(s, clear, Some(tab), now);
            &&& !cleared.0.tab_statuses.contains_key(tab)
            &&& effect(cleared.0, clear, Some(tab), now) == cleared
            &&& effect(effect(s, set, Some(tab), now).0, clear, Some(tab), now) == cleared
            &&& !s.tab_statuses.contains_key(tab) ==> cleared.0 == s
        }),
{
    let m = s.tab_statuses;
    assert(m.remove(tab).remove(tab) =~= m.remove(tab));
    assert(status_set(m, tab, emoji).remove(tab) =~= m.remove(tab));
    if !m.contains_key(tab) {
        assert(m.remove(tab) =~= m);
    }
}

/// Where one tab alone has a pane with a number, that number means that tab.
pub proof fn law_pane_means_tab(
    panes: Map<usize, Vec<PaneInfo>>,
    id: u32,
    home: usize,
    tab: Option<usize>,
)
    requires
        panes.contains_key(home),
        has_pane(panes[home]@, id),
        forall|t: usize| t != home && #[trigger] panes.contains_key(t) ==> !has_pane(panes[t]@, id),
        resolves(panes, id, tab),
    ensures
        tab == Some(home),
{
}

/// Carrying out lines and then more lines is carrying out all of them.
pub proof fn law_lines_compose(
    s: ZellijStateView,
    a: Seq<Seq<char>>,
    b: Seq<Seq<char>>,
    tabs_a: Seq<Option<usize>>,
    tabs_b: Seq<Option<usize>>,
    nows_a: Seq<Timestamp>,
    nows_b: Seq<Timestamp>,
)
    requires
        tabs_a.len() == a.len(),
        nows_a.len() == a.len(),
        tabs_b.len() == b.len(),
        nows_b.len() == b.len(),
    ensures
        ({
            let first = lines_effect(s, a, tabs_a, nows_a);
            let second = lines_effect(first.0, b, tabs_b, nows_b);
            lines_effect(s, a + b, tabs_a + tabs_b, nows_a + nows_b) == (
                second.0,
                first.1 || second.1,
                first.2 || second.2,
            )
        }),
    decreases b.len(),
{
    if b.len() == 0 {
        assert(a + b =~= a);
        assert(tabs_a + tabs_b =~= tabs_a);
        assert(nows_a + nows_b =~= nows_a);
    } else {
        law_lines_compose(
            s,
            a,
            b.drop_last(),
            tabs_a,
            tabs_b.drop_last(),
            nows_a,
            nows_b.drop_last(),
        );
        assert((a + b).drop_last() =~= a + b.drop_last());
        assert((tabs_a + tabs_b).drop_last() =~= tabs_a + tabs_b.drop_last());
        assert((nows_a + nows_b).drop_last() =~= nows_a + nows_b.drop_last());
        assert((a + b).last() == b.last());
        assert((tabs_a + tabs_b).last() == tabs_b.last());
        assert((nows_a + nows_b).last() == nows_b.last());
    }
}

/// Lines set or clear a status where there are some exactly if the first of them do, or
/// those behind them do in the state that the first leave.
pub proof fn law_alter_compose(
    s: ZellijStateView,
    a: Seq<Seq<char>>,
    b: Seq<Seq<char>>,
    tabs_a: Seq<Option<usize>>,
    tabs_b: Seq<Option<usize>>,
    nows_a: Seq<Timestamp>,
    nows_b: Seq<Timestamp>,
)
    requires
        tabs_a.len() == a.len(),
        nows_a.len() == a.len(),
        tabs_b.len() == b.len(),
        nows_b.len() == b.len(),
    ensures
        lines_alter(s, a + b, tabs_a + tabs_b, nows_a + nows_b) == (lines_alter(
            s,
            a,
            tabs_a,
            nows_a,
        ) || lines_alter(lines_effect(s, a, tabs_a, nows_a).0, b, tabs_b, nows_b)),
    decreases b.len(),
{
    if b.len() == 0 {
        assert(a + b =~= a);
        assert(tabs_a + tabs_b =~= tabs_a);
        assert(nows_a + nows_b =~= nows_a);
    } else {
        let front = b.drop_last();
        let tabs_f = tabs_b.drop_last();
        let nows_f = nows_b.drop_last();
        law_alter_compose(s, a, front, tabs_a, tabs_f, nows_a, nows_f);
        law_lines_compose(s, a, front, tabs_a, tabs_f, nows_a, nows_f);
        assert((a + b).drop_last() =~= a + front);
        assert((tabs_a + tabs_b).drop_last() =~= tabs_a + tabs_f);
        assert((nows_a + nows_b).drop_last() =~= nows_a + nows_f);
        assert((a + b).last() == b.last());
        assert((tabs_a + tabs_b).last() == tabs_b.last());
    }
}

/// Two messages with a line break between them are the lines of the first and then
/// those of the second.
pub proof fn law_messages_compose(a: Seq<char>, b: Seq<char>)
    ensures
        split(a + "\n"@ + b, "\n"@) == split(a, "\n"@) + split(b, "\n"@),
    decreases a.len(),
{
    lemma_newline();
    let c = seq!['\n'];
    let s = a + c + b;
    if exists|i: int| first_at(a, c, i) {
        let i = choose|i: int| first_at(a, c, i);
        lemma_first_in_prefix(a, c + b, '\n', i);
        assert(s =~= a + (c + b));
        lemma_split_at(s, c, i);
        lemma_split_at(a, c, i);
        let rest = a.skip(i + 1);
        assert(s.take(i) =~= a.take(i));
        assert(s.skip(i + 1) =~= rest + c + b);
        law_messages_compose(rest, b);
        assert(split(s, c) =~= split(a, c) + split(b, c));
    } else {
        assert(!a.contains('\n')) by {
            if a.contains('\n') {
                lemma_has_char(a, '\n');
                let j = choose|j: int| occurs_at(a, c, j);
                lemma_first_exists(a, c, j);
            }
        }
        lemma_has_char(a, '\n');
        lemma_first_char(a, '\n', b);
        lemma_split_at(s, c, a.len() as int);
        lemma_split_whole(a, c);
        assert(s.take(a.len() as int) =~= a);
        assert(s.skip(a.len() as int + 1) =~= b);
    }
}

/// The first of a character in a text is its first in a longer one.
proof fn lemma_first_in_prefix(a: Seq<char>, b: Seq<char>, c: char, i: int)
    requires
        first_at(a, seq![c], i),
    ensures
        first_at(a + b, seq![c], i),
{
    lemma_char_at(a, c, i);
    lemma_char_at(a + b, c, i);
    assert forall|j: int| 0 <= j < i implies !occurs_at(a + b, seq![c], j) by {
        lemma_char_at(a, c, j);
        lemma_char_at(a + b, c, j);
    }
}

/// No status has a separator of the protocol or a line break in it.
pub open spec fn clean(m: Map<usize, Seq<char>>) -> bool {
    forall|k: usize| #[trigger]
        m.contains_key(k) ==> !has_text(m[k], "::"@) && !m[k].contains('\n')
}

/// What stands in a text without a line break has none.
proof fn lemma_part_one_line(whole: Seq<char>, part: Seq<char>)
    requires
        has_text(whole, part),
        !whole.contains('\n'),
    ensures
        !part.contains('\n'),
{
    lemma_has_char(whole, '\n');
    lemma_has_char(part, '\n');
    if has_text(part, seq!['\n']) {
        lemma_within(whole, part, seq!['\n']);
    }
}

/// A line keeps the statuses clean.
proof fn lemma_line_clean(s: ZellijStateView, line: Seq<char>, tab: Option<usize>, now: Timestamp)
    requires
        clean(s.tab_statuses),
        !line.contains('\n'),
    ensures
        clean(line_effect(s, line, tab, now).0.tab_statuses),
{
    lemma_colons();
    let parts = split(line, "::"@);
    let after = line_effect(s, line, tab, now).0.tab_statuses;
    match command_of(line) {
        Some(CommandView::SetStatus { pane_id, emoji }) => {
            lemma_split_within(line, "::"@, 3);
            lemma_part_one_line(line, parts[3]);
            assert(emoji == parts[3]);
        },
        Some(CommandView::StatusSync { statuses }) => {
            let t = parts[2];
            lemma_split_within(line, "::"@, 2);
            lemma_part_one_line(line, t);
            assert(parse_statuses(t) == Some(statuses));
            lemma_parsed_colons(t, statuses);
            assert forall|k: usize| #[trigger] statuses.contains_key(k) implies !statuses[k].contains(
                '\n',
            ) by {
                let raw = lemma_parsed_within(t, k);
                lemma_part_one_line(t, raw);
                lemma_unescape_chars(raw, '\n');
            }
        },
        _ => {},
    }
    assert forall|k: usize| #[trigger] after.contains_key(k) implies !has_text(after[k], "::"@)
        && !after[k].contains('\n') by {
        assert(s.tab_statuses.contains_key(k) ==> !has_text(s.tab_statuses[k], "::"@));
    }
}

proof fn lemma_lines_clean(
    s: ZellijStateView,
    lines: Seq<Seq<char>>,
    tabs: Seq<Option<usize>>,
    nows: Seq<Timestamp>,
)
    requires
        clean(s.tab_statuses),
        forall|i: int| 0 <= i < lines.len() ==> !(#[trigger] lines[i]).contains('\n'),
    ensures
        clean(lines_effect(s, lines, tabs, nows).0.tab_statuses),
    decreases lines.len(),
{
    if lines.len() > 0 {
        let front = lines.drop_last();
        lemma_lines_clean(s, front, tabs.drop_last(), nows.drop_last());
        let before = lines_effect(s, front, tabs.drop_last(), nows.drop_last()).0;
        assert(!lines[lines.len() - 1].contains('\n'));
        lemma_line_clean(before, lines.last(), tabs.last(), nows.last());
    }
}

/// No message brings a separator of the protocol or a line break into a status.
pub proof fn law_statuses_stay_clean(
    s: ZellijStateView,
    input: Seq<char>,
    tabs: Seq<Option<usize>>,
    nows: Seq<Timestamp>,
)
    requires
        clean(s.tab_statuses),
    ensures
        clean(lines_effect(s, split(input, "\n"@), tabs, nows).0.tab_statuses),
{
    let lines = split(input, "\n"@);
    lemma_newline();
    assert forall|i: int| 0 <= i < lines.len() implies !(#[trigger] lines[i]).contains('\n') by {
        lemma_split_within(input, seq!['\n'], i);
        lemma_has_char(lines[i], '\n');
    }
    lemma_lines_clean(s, lines, tabs, nows);
}

/// The message that tells statuses to a receiver without any brings it to those statuses
/// exactly if they are sendable and have no line breaks.
pub proof fn law_what_can_be_told(
    m: Map<usize, Seq<char>>,
    receiver: ZellijStateView,
    tabs: Seq<Option<usize>>,
    nows: Seq<Timestamp>,
)
    requires
        m.dom().finite(),
        receiver.tab_statuses == Map::<usize, Seq<char>>::empty(),
    ensures
        lines_effect(receiver, split(sync_line(m), "\n"@), tabs, nows).0.tab_statuses == m
            <==> sendable(m) && breakless(m),
{
    let after = lines_effect(receiver, split(sync_line(m), "\n"@), tabs, nows).0.tab_statuses;
    law_statuses_stay_clean(receiver, sync_line(m), tabs, nows);
    if sendable(m) && breakless(m) {
        law_sync_message(m, receiver, tabs, nows);
    }
    if after == m {
        assert(breakless(m)) by {
            assert forall|k: usize| #[trigger] m.contains_key(k) implies !m[k].contains('\n') by {
                assert(after.contains_key(k));
            }
        }
        lemma_sync_one_line(m);
        law_one_line(receiver, sync_line(m), tabs, nows);
        lemma_sync_command(m);
        law_sync_line(m);
        if !sendable(m) {
            assert(after == Map::<usize, Seq<char>>::empty());
            assert(forall|k: usize| !m.contains_key(k));
        }
    }
}

/// A line leaves finitely many statuses.
proof fn lemma_line_finite(s: ZellijStateView, line: Seq<char>, tab: Option<usize>, now: Timestamp)
    requires
        s.tab_statuses.dom().finite(),
    ensures
        line_effect(s, line, tab, now).0.tab_statuses.dom().finite(),
{
    let parts = split(line, "::"@);
    if command_of(line) is Some && command_of(line)->0 is StatusSync {
        lemma_parsed_finite(parts[2]);
    }
}

/// Lines leave finitely many statuses.
pub proof fn lemma_lines_finite(
    s: ZellijStateView,
    lines: Seq<Seq<char>>,
    tabs: Seq<Option<usize>>,
    nows: Seq<Timestamp>,
)
    requires
        s.tab_statuses.dom().finite(),
    ensures
        lines_effect(s, lines, tabs, nows).0.tab_statuses.dom().finite(),
    decreases lines.len(),
{
    if lines.len() > 0 {
        let front = lines.drop_last();
        lemma_lines_finite(s, front, tabs.drop_last(), nows.drop_last());
        let before = lines_effect(s, front, tabs.drop_last(), nows.drop_last()).0;
        lemma_line_finite(before, lines.last(), tabs.last(), nows.last());
    }
}

} // verus!
