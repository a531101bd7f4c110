//! What each command of the protocol is for, from the text of a line to the state after
//! it.

use crate::clock::Timestamp;
use crate::config::{CommandResultView, MessageView, PaneManifest, ZellijStateView};
use crate::number::{decimal, is_digit, lemma_decimal_digits, parse_unsigned};
use crate::pipe::{
    admissible, alters, command_of, command_view, effect, line_effect, locates, pane_id_of,
    Command, CommandView,
};
use crate::pipe_laws::{
    colons, lemma_colons, lemma_colons_at, lemma_line_parts, lemma_no_colon, lemma_split_front,
    lemma_split_some,
};
use crate::statuses::parse_statuses;
use crate::text::{first_at, has_text, lemma_split_whole, occurs_at, split};
use crate::text_laws::{law_no_number, law_numbers_read};
use vstd::prelude::*;

verus! {

/// A text without two colons in a row.
pub open spec fn apart(v: Seq<char>) -> bool {
    forall|i: int| 0 <= i < v.len() - 1 ==> !(#[trigger] v[i] == ':' && v[i + 1] == ':')
}

/// `v` is a whole argument in front of `tail`: the line ends there, or two colons follow
/// which no colon of `v` runs into.
pub open spec fn argument(v: Seq<char>, tail: Seq<char>) -> bool {
    &&& apart(v)
    &&& tail.len() > 0 ==> tail.len() >= 2 && tail[0] == ':' && tail[1] == ':' && (v.len() > 0
        ==> v.last() != ':')
}

proof fn lemma_apart(v: Seq<char>)
    requires
        apart(v),
    ensures
        !has_text(v, colons()),
{
    if has_text(v, colons()) {
        let i = choose|i: int| occurs_at(v, colons(), i);
        lemma_colons_at(v, i);
        assert(v[i] == ':' && v[i + 1] == ':');
    }
}

/// An argument is the first part of what it starts.
proof fn lemma_argument(v: Seq<char>, tail: Seq<char>)
    requires
        argument(v, tail),
    ensures
        ({
            let parts = split(v + tail, colons());
            &&& parts.len() > 0
            &&& parts[0] == v
            &&& tail.len() == 0 ==> parts.len() == 1
            &&& tail.len() > 0 ==> parts == seq![v] + split(tail.skip(2), colons())
        }),
{
    lemma_apart(v);
    if tail.len() == 0 {
        assert(v + tail =~= v);
        lemma_split_whole(v, colons());
    } else {
        let rest = tail.skip(2);
        assert(v + tail =~= v + colons() + rest);
        lemma_split_front(v, rest);
    }
}

/// The names of commands differ in their lengths.
proof fn lemma_name_lengths()
    ensures
        "rerun"@.len() == 5,
        "notify"@.len() == 6,
        "pipe"@.len() == 4,
        "set_status"@.len() == 10,
        "status_sync"@.len() == 11,
        "status_request"@.len() == 14,
        "clear_status"@.len() == 12,
{
    reveal_strlit("rerun");
    reveal_strlit("notify");
    reveal_strlit("pipe");
    reveal_strlit("set_status");
    reveal_strlit("status_sync");
    reveal_strlit("status_request");
    reveal_strlit("clear_status");
}

/// The parts of a line with a command and at least one argument.
proof fn lemma_parts(line: Seq<char>, name: Seq<char>, rest: Seq<char>)
    requires
        !name.contains(':'),
        line == "zjstatus"@ + colons() + (name + colons()) + rest,
    ensures
        ({
            let parts = split(line, "::"@);
            &&& parts == seq!["zjstatus"@, name] + split(rest, colons())
            &&& parts.len() >= 3
            &&& parts[0] == "zjstatus"@
            &&& parts[1] == name
            &&& parts[2] == split(rest, colons())[0]
            &&& parts.len() == 2 + split(rest, colons()).len()
            &&& parts.len() > 3 ==> parts[3] == split(rest, colons())[1]
        }),
{
    let a = "zjstatus"@ + colons();
    let b = name + colons();
    lemma_colons();
    assert(line =~= a + (b + rest));
    lemma_line_parts(name, rest);
    lemma_split_some(rest, colons());
}

proof fn lemma_rerun_head()
    ensures
        "zjstatus::rerun::"@ == "zjstatus"@ + colons() + ("rerun"@ + colons()),
        !"rerun"@.contains(':'),
{
    reveal_strlit("zjstatus::rerun::");
    reveal_strlit("zjstatus");
    reveal_strlit("rerun");
    assert("zjstatus::rerun::"@ =~= "zjstatus"@ + colons() + ("rerun"@ + colons()));
}

proof fn lemma_notify_head()
    ensures
        "zjstatus::notify::"@ == "zjstatus"@ + colons() + ("notify"@ + colons()),
        !"notify"@.contains(':'),
{
    reveal_strlit("zjstatus::notify::");
    reveal_strlit("zjstatus");
    reveal_strlit("notify");
    assert("zjstatus::notify::"@ =~= "zjstatus"@ + colons() + ("notify"@ + colons()));
}

proof fn lemma_pipe_head()
    ensures
        "zjstatus::pipe::"@ == "zjstatus"@ + colons() + ("pipe"@ + colons()),
        !"pipe"@.contains(':'),
{
    reveal_strlit("zjstatus::pipe::");
    reveal_strlit("zjstatus");
    reveal_strlit("pipe");
    assert("zjstatus::pipe::"@ =~= "zjstatus"@ + colons() + ("pipe"@ + colons()));
}

proof fn lemma_set_status_head()
    ensures
        "zjstatus::set_status::"@ == "zjstatus"@ + colons() + ("set_status"@ + colons()),
        !"set_status"@.contains(':'),
{
    reveal_strlit("zjstatus::set_status::");
    reveal_strlit("zjstatus");
    reveal_strlit("set_status");
    assert("zjstatus::set_status::"@ =~= "zjstatus"@ + colons() + ("set_status"@ + colons()));
}

proof fn lemma_status_sync_head()
    ensures
        "zjstatus::status_sync::"@ == "zjstatus"@ + colons() + ("status_sync"@ + colons()),
        !"status_sync"@.contains(':'),
{
    reveal_strlit("zjstatus::status_sync::");
    reveal_strlit("zjstatus");
    reveal_strlit("status_sync");
    assert("zjstatus::status_sync::"@ =~= "zjstatus"@ + colons() + ("status_sync"@ + colons()));
}

proof fn lemma_status_request_head()
    ensures
        "zjstatus::status_request::"@ == "zjstatus"@ + colons() + ("status_request"@ + colons()),
        !"status_request"@.contains(':'),
{
    reveal_strlit("zjstatus::status_request::");
    reveal_strlit("zjstatus");
    reveal_strlit("status_request");
    assert("zjstatus::status_request::"@ =~= "zjstatus"@ + colons() + ("status_request"@ + colons()));
}

proof fn lemma_clear_status_head()
    ensures
        "zjstatus::clear_status::"@ == "zjstatus"@ + colons() + ("clear_status"@ + colons()),
        !"clear_status"@.contains(':'),
{
    reveal_strlit("zjstatus::clear_status::");
    reveal_strlit("zjstatus");
    reveal_strlit("clear_status");
    assert("zjstatus::clear_status::"@ =~= "zjstatus"@ + colons() + ("clear_status"@ + colons()));
}

/// `zjstatus::notify::MESSAGE` shows the message with the time at which it came, in place
/// of whatever was shown before, and changes nothing else.
pub proof fn law_notify(
    s: ZellijStateView,
    message: Seq<char>,
    tail: Seq<char>,
    tab: Option<usize>,
    now: Timestamp,
)
    requires
        argument(message, tail),
    ensures
        line_effect(s, "zjstatus::notify::"@ + (message + tail), tab, now) == (
            (ZellijStateView {
                incoming_notification: Some(MessageView { body: message, received_at: now }),
                ..s
            }),
            true,
            false,
        ),
{
    let rest = message + tail;
    lemma_notify_head();
    lemma_parts("zjstatus::notify::"@ + rest, "notify"@, rest);
    lemma_argument(message, tail);
    lemma_name_lengths();
}

/// Of two notifications the later is shown.
pub proof fn law_later_notification(
    s: ZellijStateView,
    first: Seq<char>,
    second: Seq<char>,
    tab: Option<usize>,
    earlier: Timestamp,
    later: Timestamp,
)
    requires
        apart(first),
        apart(second),
    ensures
        ({
            let between = line_effect(s, "zjstatus::notify::"@ + first, tab, earlier).0;
            let after = line_effect(between, "zjstatus::notify::"@ + second, tab, later).0;
            after.incoming_notification == Some(MessageView { body: second, received_at: later })
        }),
{
    let none = Seq::<char>::empty();
    assert(first + none =~= first);
    assert(second + none =~= second);
    law_notify(s, first, none, tab, earlier);
    let between = line_effect(s, "zjstatus::notify::"@ + first, tab, earlier).0;
    law_notify(between, second, none, tab, later);
}

/// `zjstatus::pipe::NAME::CONTENT` makes the content what the widget shows, whole and in
/// place of what it showed before, and changes nothing else.
pub proof fn law_pipe(
    s: ZellijStateView,
    name: Seq<char>,
    content: Seq<char>,
    tail: Seq<char>,
    tab: Option<usize>,
    now: Timestamp,
)
    requires
        apart(name),
        name.len() > 0 ==> name.last() != ':',
        argument(content, tail),
    ensures
        line_effect(
            s,
            "zjstatus::pipe::"@ + (name + (seq![':', ':'] + (content + tail))),
            tab,
            now,
        ) == (
            (ZellijStateView { pipe_results: s.pipe_results.insert(name, content), ..s }),
            true,
            false,
        ),
{
    let more = content + tail;
    let rest = name + (seq![':', ':'] + more);
    lemma_pipe_head();
    lemma_parts("zjstatus::pipe::"@ + rest, "pipe"@, rest);
    lemma_two_arguments(name, content, tail);
    lemma_name_lengths();
}

/// The first two parts of what two arguments start.
proof fn lemma_two_arguments(a: Seq<char>, b: Seq<char>, tail: Seq<char>)
    requires
        apart(a),
        a.len() > 0 ==> a.last() != ':',
        argument(b, tail),
    ensures
        ({
            let parts = split(a + (seq![':', ':'] + (b + tail)), colons());
            parts.len() >= 2 && parts[0] == a && parts[1] == b
        }),
{
    let more = b + tail;
    let t = seq![':', ':'] + more;
    lemma_argument(a, t);
    assert(t.skip(2) =~= more);
    lemma_argument(b, tail);
}

/// Without content nothing is shown, and nothing changes.
pub proof fn law_pipe_without_content(
    s: ZellijStateView,
    name: Seq<char>,
    tab: Option<usize>,
    now: Timestamp,
)
    requires
        apart(name),
    ensures
        line_effect(s, "zjstatus::pipe::"@ + name, tab, now) == (s, false, false),
{
    let none = Seq::<char>::empty();
    assert(name + none =~= name);
    lemma_pipe_head();
    lemma_parts("zjstatus::pipe::"@ + name, "pipe"@, name);
    lemma_argument(name, none);
    lemma_name_lengths();
}

/// The time of the day before, in seconds since 1970.
pub open spec fn stamp(now: Timestamp) -> Seq<char> {
    if now.secs >= 86_400 {
        decimal((now.secs - 86_400) as nat)
    } else {
        seq!['-'] + decimal((86_400 - now.secs) as nat)
    }
}

/// `zjstatus::rerun::NAME` dates the result of the command back by a day, whatever that
/// result is, so that the command is due, and changes nothing else. A command without a
/// result is left alone.
pub proof fn law_rerun(
    s: ZellijStateView,
    name: Seq<char>,
    tail: Seq<char>,
    tab: Option<usize>,
    now: Timestamp,
)
    requires
        argument(name, tail),
    ensures
        ({
            let done = line_effect(s, "zjstatus::rerun::"@ + (name + tail), tab, now);
            let results = done.0.command_results;
            let before = s.command_results;
            &&& done.1 && !done.2
            &&& done.0 == (ZellijStateView { command_results: results, ..s })
            &&& results.dom() == before.dom()
            &&& forall|other: Seq<char>|
                other != name && #[trigger] before.contains_key(other) ==> results[other]
                    == before[other]
            &&& before.contains_key(name) ==> {
                &&& results[name].exit_code == before[name].exit_code
                &&& results[name].stdout == before[name].stdout
                &&& results[name].stderr == before[name].stderr
                &&& results[name].context == before[name].context.insert("timestamp"@, stamp(now))
            }
        }),
{
    let rest = name + tail;
    lemma_rerun_head();
    lemma_parts("zjstatus::rerun::"@ + rest, "rerun"@, rest);
    lemma_argument(name, tail);
    lemma_name_lengths();
    let done = line_effect(s, "zjstatus::rerun::"@ + (name + tail), tab, now);
    assert(done.0.command_results.dom() =~= s.command_results.dom());
}

/// A number, with or without zeros and a plus sign in front.
pub open spec fn number_text(n: nat, zeros: nat, plus: bool) -> Seq<char> {
    let digits = Seq::new(zeros, |i: int| '0') + decimal(n);
    if plus {
        seq!['+'] + digits
    } else {
        digits
    }
}

/// The number of a pane, with or without zeros and a plus sign in front.
pub open spec fn pane_text(id: u32, zeros: nat, plus: bool) -> Seq<char> {
    number_text(id as nat, zeros, plus)
}

proof fn lemma_pane_text(id: u32, zeros: nat, plus: bool)
    ensures
        pane_id_of(pane_text(id, zeros, plus)) == Some(id),
        apart(pane_text(id, zeros, plus)),
        pane_text(id, zeros, plus).len() > 0,
        pane_text(id, zeros, plus).last() != ':',
{
    law_numbers_read(id as nat, zeros, plus, u32::MAX as nat);
    lemma_number_text(id as nat, zeros, plus);
}

proof fn lemma_number_text(n: nat, zeros: nat, plus: bool)
    ensures
        apart(number_text(n, zeros, plus)),
        number_text(n, zeros, plus).len() > 0,
        number_text(n, zeros, plus).last() != ':',
{
    let t = number_text(n, zeros, plus);
    lemma_decimal_digits(n);
    let dec = decimal(n);
    let m = t.len() - dec.len();
    assert forall|i: int| 0 <= i < t.len() implies #[trigger] t[i] != ':' by {
        if i >= m {
            assert(t[i] == dec[i - m]);
            assert(is_digit(dec[i - m]));
        }
    }
    assert(t[t.len() - 1] != ':');
}

/// The line that sets the status of the tab with a pane.
pub open spec fn set_line(id: u32, zeros: nat, plus: bool, emoji: Seq<char>, tail: Seq<char>) -> Seq<
    char,
> {
    "zjstatus::set_status::"@ + (pane_text(id, zeros, plus) + (seq![':', ':'] + (emoji + tail)))
}

/// The line that clears the status of the tab with a pane.
pub open spec fn clear_line(id: u32, zeros: nat, plus: bool, tail: Seq<char>) -> Seq<char> {
    "zjstatus::clear_status::"@ + (pane_text(id, zeros, plus) + tail)
}

proof fn lemma_set_command(id: u32, zeros: nat, plus: bool, emoji: Seq<char>, tail: Seq<char>)
    requires
        argument(emoji, tail),
    ensures
        command_of(set_line(id, zeros, plus, emoji, tail)) == Some(
            CommandView::SetStatus { pane_id: id, emoji },
        ),
{
    let p = pane_text(id, zeros, plus);
    let rest = p + (seq![':', ':'] + (emoji + tail));
    lemma_pane_text(id, zeros, plus);
    lemma_set_status_head();
    lemma_parts("zjstatus::set_status::"@ + rest, "set_status"@, rest);
    lemma_two_arguments(p, emoji, tail);
    lemma_name_lengths();
}

proof fn lemma_clear_command(id: u32, zeros: nat, plus: bool, tail: Seq<char>)
    requires
        tail.len() > 0 ==> tail.len() >= 2 && tail[0] == ':' && tail[1] == ':',
    ensures
        command_of(clear_line(id, zeros, plus, tail)) == Some(
            CommandView::ClearStatus { pane_id: id },
        ),
{
    let p = pane_text(id, zeros, plus);
    lemma_pane_text(id, zeros, plus);
    lemma_clear_status_head();
    lemma_parts("zjstatus::clear_status::"@ + (p + tail), "clear_status"@, p + tail);
    lemma_argument(p, tail);
    lemma_name_lengths();
}

/// Setting a status from a pane sets it for the tab that has the pane, wherever among the
/// tab's panes it stands, in place of the status that the tab had. An empty status takes
/// the tab's status away. Nothing else changes, the bar is drawn again, and the others
/// are told.
pub proof fn law_set_status_of_pane(
    s: ZellijStateView,
    t: usize,
    i: int,
    zeros: nat,
    plus: bool,
    emoji: Seq<char>,
    tail: Seq<char>,
    tab: Option<usize>,
    now: Timestamp,
)
    requires
        s.panes.panes@.contains_key(t),
        0 <= i < s.panes.panes@[t]@.len(),
        forall|u: usize, j: int|
            u != t && s.panes.panes@.contains_key(u) && 0 <= j < s.panes.panes@[u]@.len()
                ==> #[trigger] s.panes.panes@[u]@[j].id != s.panes.panes@[t]@[i].id,
        argument(emoji, tail),
        locates(s.panes, set_line(s.panes.panes@[t]@[i].id, zeros, plus, emoji, tail), tab),
    ensures
        line_effect(
            s,
            set_line(s.panes.panes@[t]@[i].id, zeros, plus, emoji, tail),
            tab,
            now,
        ) == (
            (ZellijStateView {
                tab_statuses: if emoji.len() == 0 {
                    s.tab_statuses.remove(t)
                } else {
                    s.tab_statuses.insert(t, emoji)
                },
                ..s
            }),
            true,
            true,
        ),
{
    lemma_set_command(s.panes.panes@[t]@[i].id, zeros, plus, emoji, tail);
    assert(tab == Some(t));
}

/// Clearing a status from a pane takes it from the tab that has the pane, wherever among
/// the tab's panes it stands. Nothing else changes, the bar is drawn again, and the others
/// are told.
pub proof fn law_clear_status_of_pane(
    s: ZellijStateView,
    t: usize,
    i: int,
    zeros: nat,
    plus: bool,
    tail: Seq<char>,
    tab: Option<usize>,
    now: Timestamp,
)
    requires
        s.panes.panes@.contains_key(t),
        0 <= i < s.panes.panes@[t]@.len(),
        forall|u: usize, j: int|
            u != t && s.panes.panes@.contains_key(u) && 0 <= j < s.panes.panes@[u]@.len()
                ==> #[trigger] s.panes.panes@[u]@[j].id != s.panes.panes@[t]@[i].id,
        tail.len() > 0 ==> tail.len() >= 2 && tail[0] == ':' && tail[1] == ':',
        locates(s.panes, clear_line(s.panes.panes@[t]@[i].id, zeros, plus, tail), tab),
    ensures
        line_effect(s, clear_line(s.panes.panes@[t]@[i].id, zeros, plus, tail), tab, now) == (
            (ZellijStateView { tab_statuses: s.tab_statuses.remove(t), ..s }),
            true,
            true,
        ),
{
    lemma_clear_command(s.panes.panes@[t]@[i].id, zeros, plus, tail);
    assert(tab == Some(t));
}

/// Where several tabs have the pane, one of them is meant, and no other changes.
pub proof fn law_some_tab_is_meant(
    s: ZellijStateView,
    t: usize,
    i: int,
    emoji: Seq<char>,
    tab: Option<usize>,
    now: Timestamp,
) -> (found: (usize, int))
    requires
        s.panes.panes@.contains_key(t),
        0 <= i < s.panes.panes@[t]@.len(),
        apart(emoji),
        emoji.len() > 0,
        locates(
            s.panes,
            set_line(s.panes.panes@[t]@[i].id, 0, false, emoji, Seq::empty()),
            tab,
        ),
    ensures
        ({
            let id = s.panes.panes@[t]@[i].id;
            let (u, j) = found;
            &&& s.panes.panes@.contains_key(u)
            &&& 0 <= j < s.panes.panes@[u]@.len()
            &&& s.panes.panes@[u]@[j].id == id
            &&& line_effect(s, set_line(id, 0, false, emoji, Seq::empty()), tab, now)
                == (
                (ZellijStateView { tab_statuses: s.tab_statuses.insert(u, emoji), ..s }),
                true,
                true,
            )
        }),
{
    let id = s.panes.panes@[t]@[i].id;
    lemma_set_command(id, 0, false, emoji, Seq::empty());
    let u = tab->0;
    let j = choose|j: int|
        0 <= j < s.panes.panes@[u]@.len() && (#[trigger] s.panes.panes@[u]@[j]).id == id;
    (u, j)
}

/// A pane that no tab has stands for nothing: setting and clearing do nothing.
pub proof fn law_unknown_pane(
    s: ZellijStateView,
    id: u32,
    zeros: nat,
    plus: bool,
    emoji: Seq<char>,
    tail: Seq<char>,
    set_tab: Option<usize>,
    clear_tab: Option<usize>,
    now: Timestamp,
)
    requires
        forall|u: usize, j: int|
            s.panes.panes@.contains_key(u) && 0 <= j < s.panes.panes@[u]@.len()
                ==> #[trigger] s.panes.panes@[u]@[j].id != id,
        argument(emoji, tail),
        locates(s.panes, set_line(id, zeros, plus, emoji, tail), set_tab),
        locates(s.panes, clear_line(id, zeros, plus, tail), clear_tab),
    ensures
        line_effect(s, set_line(id, zeros, plus, emoji, tail), set_tab, now) == (s, false, false),
        line_effect(s, clear_line(id, zeros, plus, tail), clear_tab, now) == (s, false, false),
{
    lemma_set_command(id, zeros, plus, emoji, tail);
    lemma_clear_command(id, zeros, plus, tail);
    if set_tab is Some {
        let u = set_tab->0;
        let j = choose|j: int|
            0 <= j < s.panes.panes@[u]@.len() && (#[trigger] s.panes.panes@[u]@[j]).id == id;
        assert(s.panes.panes@[u]@[j].id != id);
    }
    if clear_tab is Some {
        let u = clear_tab->0;
        let j = choose|j: int|
            0 <= j < s.panes.panes@[u]@.len() && (#[trigger] s.panes.panes@[u]@[j]).id == id;
        assert(s.panes.panes@[u]@[j].id != id);
    }
}

/// What is no number names no pane: setting and clearing do nothing.
pub proof fn law_no_pane(
    s: ZellijStateView,
    p: Seq<char>,
    i: int,
    emoji: Seq<char>,
    tail: Seq<char>,
    tab: Option<usize>,
    now: Timestamp,
)
    requires
        apart(p),
        p.len() > 0 ==> p.last() != ':',
        p.len() == 0 || p == seq!['+'] || (0 <= i < p.len() && !('0' <= p[i] <= '9') && (i > 0
            || p[0] != '+')),
        argument(emoji, tail),
    ensures
        line_effect(
            s,
            "zjstatus::set_status::"@ + (p + (seq![':', ':'] + (emoji + tail))),
            tab,
            now,
        ) == (s, false, false),
        line_effect(s, "zjstatus::clear_status::"@ + (p + tail), tab, now) == (s, false, false),
{
    law_no_number(p, u32::MAX as nat, i);
    lemma_unread_pane(s, p, emoji, tail, tab, now);
}

/// A number that is too great names no pane: setting and clearing do nothing.
pub proof fn law_pane_too_great(
    s: ZellijStateView,
    n: nat,
    zeros: nat,
    plus: bool,
    emoji: Seq<char>,
    tail: Seq<char>,
    tab: Option<usize>,
    now: Timestamp,
)
    requires
        n > 0xffff_ffff,
        argument(emoji, tail),
    ensures
        line_effect(
            s,
            "zjstatus::set_status::"@ + (number_text(n, zeros, plus) + (seq![':', ':'] + (emoji
                + tail))),
            tab,
            now,
        ) == (s, false, false),
        line_effect(
            s,
            "zjstatus::clear_status::"@ + (number_text(n, zeros, plus) + tail),
            tab,
            now,
        ) == (s, false, false),
{
    law_numbers_read(n, zeros, plus, u32::MAX as nat);
    lemma_number_text(n, zeros, plus);
    lemma_unread_pane(s, number_text(n, zeros, plus), emoji, tail, tab, now);
}

proof fn lemma_unread_pane(
    s: ZellijStateView,
    p: Seq<char>,
    emoji: Seq<char>,
    tail: Seq<char>,
    tab: Option<usize>,
    now: Timestamp,
)
    requires
        apart(p),
        p.len() > 0 ==> p.last() != ':',
        parse_unsigned(p, u32::MAX as nat) is None,
        argument(emoji, tail),
    ensures
        line_effect(
            s,
            "zjstatus::set_status::"@ + (p + (seq![':', ':'] + (emoji + tail))),
            tab,
            now,
        ) == (s, false, false),
        line_effect(s, "zjstatus::clear_status::"@ + (p + tail), tab, now) == (s, false, false),
{
    let rest = p + (seq![':', ':'] + (emoji + tail));
    lemma_set_status_head();
    lemma_parts("zjstatus::set_status::"@ + rest, "set_status"@, rest);
    lemma_two_arguments(p, emoji, tail);
    lemma_clear_status_head();
    lemma_parts("zjstatus::clear_status::"@ + (p + tail), "clear_status"@, p + tail);
    lemma_argument(p, tail);
    lemma_name_lengths();
}

/// Without a status to set, setting does nothing.
pub proof fn law_set_without_status(
    s: ZellijStateView,
    p: Seq<char>,
    tab: Option<usize>,
    now: Timestamp,
)
    requires
        apart(p),
    ensures
        line_effect(s, "zjstatus::set_status::"@ + p, tab, now) == (s, false, false),
{
    let none = Seq::<char>::empty();
    assert(p + none =~= p);
    lemma_set_status_head();
    lemma_parts("zjstatus::set_status::"@ + p, "set_status"@, p);
    lemma_argument(p, none);
    lemma_name_lengths();
}

/// `zjstatus::status_sync::JSON` puts the table that the text holds in place of the
/// statuses, all of them, without telling anybody. Text that holds no table does nothing.
pub proof fn law_sync(
    s: ZellijStateView,
    json: Seq<char>,
    tail: Seq<char>,
    tab: Option<usize>,
    now: Timestamp,
)
    requires
        argument(json, tail),
    ensures
        line_effect(s, "zjstatus::status_sync::"@ + (json + tail), tab, now) == (
            match parse_statuses(json) {
                Some(statuses) => (
                    ZellijStateView { tab_statuses: statuses, ..s },
                    true,
                    false,
                ),
                None => (s, false, false),
            }
        ),
{
    let rest = json + tail;
    lemma_status_sync_head();
    lemma_parts("zjstatus::status_sync::"@ + rest, "status_sync"@, rest);
    lemma_argument(json, tail);
    lemma_name_lengths();
}

/// `zjstatus::status_request::` with whatever behind it makes an instance tell its
/// statuses, and does nothing else.
pub proof fn law_status_request(
    s: ZellijStateView,
    rest: Seq<char>,
    tab: Option<usize>,
    now: Timestamp,
)
    ensures
        line_effect(s, "zjstatus::status_request::"@ + rest, tab, now) == (s, false, true),
{
    lemma_status_request_head();
    lemma_parts("zjstatus::status_request::"@ + rest, "status_request"@, rest);
    lemma_name_lengths();
}

/// The parts of a line whose command may have colons in it.
proof fn lemma_named_parts(name: Seq<char>, rest: Seq<char>)
    requires
        apart(name),
        name.len() > 0 ==> name.last() != ':',
    ensures
        ({
            let parts = split(
                "zjstatus"@ + seq![':', ':'] + (name + seq![':', ':']) + rest,
                "::"@,
            );
            parts.len() >= 3 && parts[0] == "zjstatus"@ && parts[1] == name
        }),
{
    let line = "zjstatus"@ + seq![':', ':'] + (name + seq![':', ':']) + rest;
    let behind = name + colons() + rest;
    lemma_colons();
    assert(line =~= "zjstatus"@ + colons() + behind);
    reveal_strlit("zjstatus");
    assert(!"zjstatus"@.contains(':'));
    lemma_no_colon("zjstatus"@);
    lemma_split_front("zjstatus"@, behind);
    lemma_apart(name);
    lemma_split_front(name, rest);
    lemma_split_some(rest, colons());
}

/// A command that the protocol does not know does nothing.
pub proof fn law_unknown_command(
    s: ZellijStateView,
    name: Seq<char>,
    rest: Seq<char>,
    tab: Option<usize>,
    now: Timestamp,
)
    requires
        apart(name),
        name.len() > 0 ==> name.last() != ':',
        name != "rerun"@,
        name != "notify"@,
        name != "pipe"@,
        name != "set_status"@,
        name != "status_sync"@,
        name != "status_request"@,
        name != "clear_status"@,
    ensures
        line_effect(
            s,
            "zjstatus"@ + seq![':', ':'] + (name + seq![':', ':']) + rest,
            tab,
            now,
        ) == (s, false, false),
{
    lemma_named_parts(name, rest);
}

/// A command without an argument does nothing.
pub proof fn law_no_argument(
    s: ZellijStateView,
    name: Seq<char>,
    tab: Option<usize>,
    now: Timestamp,
)
    requires
        apart(name),
    ensures
        line_effect(s, "zjstatus"@ + (seq![':', ':'] + name), tab, now) == (s, false, false),
{
    let line = "zjstatus"@ + (seq![':', ':'] + name);
    lemma_colons();
    assert(line =~= "zjstatus"@ + colons() + name);
    reveal_strlit("zjstatus");
    assert(!"zjstatus"@.contains(':'));
    lemma_no_colon("zjstatus"@);
    lemma_split_front("zjstatus"@, name);
    lemma_apart(name);
    lemma_split_whole(name, colons());
    assert(split(line, "::"@).len() == 2);
}

/// A line that does not begin with `zjstatus::` does nothing.
pub proof fn law_foreign_line(
    s: ZellijStateView,
    line: Seq<char>,
    tab: Option<usize>,
    now: Timestamp,
)
    requires
        line.len() < 10 || line.take(10) != "zjstatus"@ + seq![':', ':'],
    ensures
        line_effect(s, line, tab, now) == (s, false, false),
{
    lemma_colons();
    let parts = split(line, "::"@);
    if command_of(line) is Some {
        assert(exists|i: int| first_at(line, "::"@, i));
        let i = choose|i: int| first_at(line, "::"@, i);
        assert(parts[0] == line.take(i));
        reveal_strlit("zjstatus");
        assert(i == 8);
        lemma_colons_at(line, 8);
        assert(line.take(10) =~= "zjstatus"@ + seq![':', ':']) by {
            assert forall|k: int| 0 <= k < 8 implies line[k] == "zjstatus"@[k] by {
                assert(line.take(8)[k] == line[k]);
            }
        }
    }
}

/// What two lines do to one another: content for one widget does not touch another's.
pub proof fn law_widgets_apart(
    s: ZellijStateView,
    name: Seq<char>,
    content: Seq<char>,
    other: Seq<char>,
    tab: Option<usize>,
    now: Timestamp,
)
    requires
        apart(name),
        name.len() > 0 ==> name.last() != ':',
        apart(content),
        other != name,
    ensures
        ({
            let line = "zjstatus::pipe::"@ + (name + (seq![':', ':'] + content));
            let after = line_effect(s, line, tab, now).0.pipe_results;
            &&& after.contains_key(name) && after[name] == content
            &&& after.contains_key(other) == s.pipe_results.contains_key(other)
            &&& s.pipe_results.contains_key(other) ==> after[other] == s.pipe_results[other]
        }),
{
    let none = Seq::<char>::empty();
    assert(content + none =~= content);
    law_pipe(s, name, content, none, tab, now);
}

/// What commands do once they are read.
pub proof fn law_effects(s: ZellijStateView, tab: Option<usize>, now: Timestamp)
    ensures
        forall|message: Seq<char>| #[trigger]
            effect(s, CommandView::Notify { message }, tab, now) == (
                (ZellijStateView {
                    incoming_notification: Some(MessageView { body: message, received_at: now }),
                    ..s
                }),
                true,
                false,
            ),
        forall|name: Seq<char>, content: Seq<char>| #[trigger]
            effect(s, CommandView::Pipe { name, content }, tab, now) == (
                (ZellijStateView { pipe_results: s.pipe_results.insert(name, content), ..s }),
                true,
                false,
            ),
        forall|name: Seq<char>|
            s.command_results.contains_key(name) ==> #[trigger] effect(
                s,
                CommandView::Rerun { name },
                tab,
                now,
            ) == (
                (ZellijStateView {
                    command_results: s.command_results.insert(
                        name,
                        CommandResultView {
                            context: s.command_results[name].context.insert(
                                "timestamp"@,
                                stamp(now),
                            ),
                            ..s.command_results[name]
                        },
                    ),
                    ..s
                }),
                true,
                false,
            ),
{
}

/// A line counts as setting or clearing a status where there are some exactly if it asks
/// both for the bar to be drawn again and for the statuses to be told, and there are some.
pub proof fn law_alters(s: ZellijStateView, line: Seq<char>, tab: Option<usize>, now: Timestamp)
    ensures
        alters(s, line, tab) <==> line_effect(s, line, tab, now).1 && line_effect(
            s,
            line,
            tab,
            now,
        ).2 && exists|k: usize| #[trigger] s.tab_statuses.contains_key(k),
{
    if !s.tab_statuses.is_empty() {
        let k = s.tab_statuses.dom().choose();
        assert(s.tab_statuses.contains_key(k));
    }
}

/// Every line of a message is carried out where its pane is, and at a time of the clock.
pub proof fn law_admissible(
    panes: PaneManifest,
    lines: Seq<Seq<char>>,
    tabs: Seq<Option<usize>>,
    nows: Seq<Timestamp>,
    i: int,
)
    requires
        admissible(panes, lines, tabs, nows),
        0 <= i < lines.len(),
    ensures
        tabs.len() == lines.len(),
        nows.len() == lines.len(),
        locates(panes, lines[i], tabs[i]),
        nows[i].secs >= 0,
        nows[i].nanos < 1_000_000_000,
{
    assert(locates(panes, lines[i], tabs[i]));
}

/// The contents of a command are those of its parts.
pub proof fn law_command_contents(c: Command)
    ensures
        match c {
            Command::Rerun { name } => c@ == (CommandView::Rerun { name: name@ }),
            Command::Notify { message } => c@ == (CommandView::Notify { message: message@ }),
            Command::Pipe { name, content } => c@ == (CommandView::Pipe {
                name: name@,
                content: content@,
            }),
            Command::SetStatus { pane_id, emoji } => c@ == (CommandView::SetStatus {
                pane_id,
                emoji: emoji@,
            }),
            Command::StatusSync { statuses } => {
                &&& c@ is StatusSync
                &&& forall|k: usize| #[trigger]
                    c@->statuses.contains_key(k) <==> statuses@.contains_key(k)
                &&& forall|k: usize| #[trigger]
                    statuses@.contains_key(k) ==> c@->statuses[k] == statuses@[k]@
            },
            Command::StatusRequest => c@ == CommandView::StatusRequest,
            Command::ClearStatus { pane_id } => c@ == (CommandView::ClearStatus { pane_id }),
        },
        command_view(Some(c)) == Some(c@),
        command_view(None) is None,
{
}

} // verus!
