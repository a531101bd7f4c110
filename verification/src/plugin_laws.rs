//! What holds of the plugin's instances as a whole.

use crate::clock::Timestamp;
use crate::config::{PaneInfo, TabInfo, ZellijStateView};
use crate::number::{decimal, is_digit, lemma_decimal_digits};
use crate::pipe::{lines_alter, request_line, status_set};
use crate::pipe_laws::{
    breakless, clean, clear_status_line, law_clear_status_line, law_one_line, law_request,
    law_set_status_line, law_statuses_stay_clean, law_sync_message, law_sync_silent,
    lemma_lines_finite, sendable, set_status_line,
};
use crate::plugin::{
    after_loading, broadcast, due_events, has_position, is_sibling, lists_siblings, pipe_answer,
    reaction, retained, tab_siblings, telling, walk_siblings, walks, ActionView, Event, PermissionStatus,
    StateView,
};
use crate::statuses::{parse_statuses, render_statuses};
use crate::statuses_laws::law_round_trip;
use crate::text::{has_text, split};
use vstd::prelude::*;

verus! {

/// An instance that loads what another saved has the other's statuses afterwards. If
/// there were none, it keeps its own.
pub proof fn law_saved_comes_back(m: Map<usize, Seq<char>>, s: StateView)
    requires
        m.dom().finite(),
    ensures
        after_loading(s, render_statuses(m)) == (if m.is_empty() {
            s
        } else {
            StateView { state: ZellijStateView { tab_statuses: m, ..s.state }, ..s }
        }),
{
    law_round_trip(m);
}

/// Loading gives the statuses of the file or leaves those that are there, and changes
/// nothing else.
pub proof fn law_loading(s: StateView, text: Seq<char>)
    ensures
        ({
            let after = after_loading(s, text);
            let statuses = after.state.tab_statuses;
            &&& after == (StateView {
                state: ZellijStateView { tab_statuses: statuses, ..s.state },
                ..s
            })
            &&& statuses == s.state.tab_statuses || parse_statuses(text) == Some(statuses)
        }),
{
}

/// When tabs are closed their statuses go, and all others stay.
pub proof fn law_closed_tabs(
    s: StateView,
    tabs: Vec<TabInfo>,
    found: Option<Option<Seq<char>>>,
    ids: Seq<u32>,
)
    ensures
        ({
            let before = s.state.tab_statuses;
            let after = reaction(s, Event::TabUpdate(tabs), found, ids).0.state.tab_statuses;
            &&& forall|k: usize| #[trigger]
                after.contains_key(k) <==> before.contains_key(k) && has_position(tabs@, k)
            &&& forall|k: usize| #[trigger] after.contains_key(k) ==> after[k] == before[k]
        }),
{
}

/// After an update of the tabs every status belongs to a tab that is there.
pub proof fn law_statuses_of_tabs(
    s: StateView,
    tabs: Vec<TabInfo>,
    found: Option<Option<Seq<char>>>,
    ids: Seq<u32>,
)
    ensures
        ({
            let after = reaction(s, Event::TabUpdate(tabs), found, ids).0.state;
            forall|k: usize| #[trigger]
                after.tab_statuses.contains_key(k) ==> has_position(after.tabs, k)
        }),
{
}

/// An update of the tabs makes an instance tell its statuses exactly if there are more
/// tabs than before, there are statuses, and there is somebody to tell them to.
pub proof fn law_tells_on_growth(
    s: StateView,
    tabs: Vec<TabInfo>,
    found: Option<Option<Seq<char>>>,
    ids: Seq<u32>,
)
    ensures
        ({
            let done = reaction(s, Event::TabUpdate(tabs), found, ids);
            done.2.len() > 0 <==> tabs@.len() > s.prev_tab_count
                && !done.0.state.tab_statuses.is_empty() && ids.len() > 0
        }),
{
}

/// Two updates of the tabs in a row with as many tabs make an instance tell its
/// statuses at most once.
pub proof fn law_tells_growth_once(
    s: StateView,
    first: Vec<TabInfo>,
    second: Vec<TabInfo>,
    found: Option<Option<Seq<char>>>,
    ids: Seq<u32>,
)
    requires
        second@.len() <= first@.len(),
    ensures
        ({
            let between = reaction(s, Event::TabUpdate(first), found, ids).0;
            reaction(between, Event::TabUpdate(second), found, ids).2.len() == 0
        }),
{
}

/// Where an event does not tell that the bar is to be drawn again, nothing changed but
/// the results of commands and the mark of the last event.
pub proof fn law_undrawn_events(
    s: StateView,
    event: Event,
    found: Option<Option<Seq<char>>>,
    ids: Seq<u32>,
)
    ensures
        ({
            let done = reaction(s, event, found, ids);
            !done.1 ==> done.0 == (StateView {
                state: ZellijStateView {
                    command_results: done.0.state.command_results,
                    cache_mask: done.0.state.cache_mask,
                    ..s.state
                },
                ..s
            })
        }),
{
}

/// No event but an update of the tabs changes the statuses.
pub proof fn law_events_keep_statuses(
    s: StateView,
    event: Event,
    found: Option<Option<Seq<char>>>,
    ids: Seq<u32>,
)
    requires
        !(event is TabUpdate),
    ensures
        reaction(s, event, found, ids).0.state.tab_statuses == s.state.tab_statuses,
{
}

/// An instance that knows where it was loaded from keeps to it.
pub proof fn law_url_stays(
    s: StateView,
    event: Event,
    found: Option<Option<Seq<char>>>,
    ids: Seq<u32>,
)
    requires
        s.plugin_url is Some,
    ensures
        reaction(s, event, found, ids).0.plugin_url == s.plugin_url,
{
}

/// No event is lost and none is doubled: what is due and what waits afterwards is what
/// waited before, and the event.
pub proof fn law_no_event_lost(s: StateView, event: Event)
    ensures
        ({
            let (after, due) = due_events(s, event);
            due.to_multiset().add(after.pending_events.to_multiset())
                =~= s.pending_events.to_multiset().insert(event)
        }),
{
    broadcast use vstd::seq_lib::group_to_multiset_ensures;
    let (after, due) = due_events(s, event);
    let pending = s.pending_events;
    assert(Seq::<Event>::empty().to_multiset() =~= vstd::multiset::Multiset::<Event>::empty());
    if event == Event::PermissionRequestResult(PermissionStatus::Granted) {
        lemma_reverse(pending);
        assert(pending.reverse().push(event).to_multiset()
            =~= pending.reverse().to_multiset().insert(event));
    } else if s.got_permissions {
        assert(seq![event] =~= Seq::<Event>::empty().push(event));
    }
}

/// A sequence and its reverse hold the same.
proof fn lemma_reverse(events: Seq<Event>)
    ensures
        events.reverse().to_multiset() == events.to_multiset(),
    decreases events.len(),
{
    broadcast use vstd::seq_lib::group_to_multiset_ensures;
    if events.len() == 0 {
        assert(events.reverse() =~= events);
    } else {
        let front = events.drop_last();
        let last = events.last();
        lemma_reverse(front);
        assert(events =~= front.push(last));
        assert(events.reverse() =~= seq![last] + front.reverse());
        vstd::seq_lib::lemma_multiset_commutative(seq![last], front.reverse());
        assert(seq![last] =~= Seq::<Event>::empty().push(last));
        assert(events.reverse().to_multiset() =~= events.to_multiset());
    }
}

/// Before the permissions are given nothing is due. When they are, everything that
/// waited is, the last to come first, and nothing waits any longer.
pub proof fn law_waiting(s: StateView, event: Event)
    ensures
        ({
            let granted = event == Event::PermissionRequestResult(PermissionStatus::Granted);
            let (after, due) = due_events(s, event);
            let n = s.pending_events.len() as int;
            &&& !after.got_permissions ==> due.len() == 0
            &&& after.got_permissions <==> s.got_permissions || granted
            &&& after.got_permissions ==> due.last() == event
            &&& granted ==> {
                &&& after.pending_events.len() == 0
                &&& due.len() == n + 1
                &&& forall|i: int| 0 <= i < n ==> #[trigger] due[i] == s.pending_events[n - 1 - i]
            }
        }),
{
}

/// Once the permissions were given events are handled one by one as they come.
pub proof fn law_no_waiting(s: StateView, event: Event)
    requires
        s.got_permissions,
        s.pending_events.len() == 0,
    ensures
        due_events(s, event) == (s, seq![event]),
{
    let (after, due) = due_events(s, event);
    assert(due =~= seq![event]);
    assert(after.pending_events =~= s.pending_events);
}

/// Where the permissions were given, nothing waits.
pub open spec fn settled(s: StateView) -> bool {
    s.got_permissions ==> s.pending_events.len() == 0
}

/// Nothing that happens to an instance leaves events waiting once the permissions were
/// given.
pub proof fn law_settled(
    s: StateView,
    event: Event,
    found: Option<Option<Seq<char>>>,
    ids: Seq<u32>,
    input: Seq<char>,
    tabs: Seq<Option<usize>>,
    nows: Seq<Timestamp>,
)
    requires
        settled(s),
    ensures
        settled(due_events(s, event).0),
        settled(reaction(s, event, found, ids).0),
        settled(pipe_answer(s, input, tabs, nows, ids).0),
        settled(after_loading(s, input)),
{
}

/// The instances in one tab.
pub proof fn lemma_tab_siblings(panes: Seq<PaneInfo>, url: Seq<char>, own_id: u32, id: u32)
    ensures
        tab_siblings(panes, url, own_id).contains(id) <==> exists|i: int|
            0 <= i < panes.len() && is_sibling(#[trigger] panes[i], url, own_id) && panes[i].id
                == id,
    decreases panes.len(),
{
    if panes.len() > 0 {
        let front = panes.drop_last();
        let some = tab_siblings(front, url, own_id);
        let all = tab_siblings(panes, url, own_id);
        lemma_tab_siblings(front, url, own_id, id);
        if all.contains(id) {
            let j = choose|j: int| 0 <= j < all.len() && all[j] == id;
            if j < some.len() {
                assert(some[j] == id);
                let i = choose|i: int|
                    0 <= i < front.len() && is_sibling(#[trigger] front[i], url, own_id)
                        && front[i].id == id;
                assert(panes[i] == front[i]);
            } else {
                assert(is_sibling(panes[panes.len() - 1], url, own_id));
            }
        }
        if exists|i: int|
            0 <= i < panes.len() && is_sibling(#[trigger] panes[i], url, own_id) && panes[i].id
                == id {
            let i = choose|i: int|
                0 <= i < panes.len() && is_sibling(#[trigger] panes[i], url, own_id) && panes[i].id
                    == id;
            if i < front.len() {
                assert(front[i] == panes[i]);
                let j = choose|j: int| 0 <= j < some.len() && some[j] == id;
                assert(all[j] == id);
            } else {
                assert(all[all.len() - 1] == id);
            }
        }
    }
}

/// The instances in the tabs of a walk.
pub proof fn lemma_walk_siblings(
    panes: Map<usize, Vec<PaneInfo>>,
    walk: Seq<usize>,
    url: Seq<char>,
    own_id: u32,
    id: u32,
)
    ensures
        walk_siblings(panes, walk, url, own_id).contains(id) <==> exists|n: int|
            0 <= n < walk.len() && tab_siblings(panes[#[trigger] walk[n]]@, url, own_id).contains(
                id,
            ),
    decreases walk.len(),
{
    if walk.len() > 0 {
        let front = walk.drop_last();
        let some = walk_siblings(panes, front, url, own_id);
        let last = tab_siblings(panes[walk.last()]@, url, own_id);
        let all = walk_siblings(panes, walk, url, own_id);
        lemma_walk_siblings(panes, front, url, own_id, id);
        if all.contains(id) {
            let j = choose|j: int| 0 <= j < all.len() && all[j] == id;
            if j < some.len() {
                assert(some[j] == id);
                let n = choose|n: int|
                    0 <= n < front.len() && tab_siblings(
                        panes[#[trigger] front[n]]@,
                        url,
                        own_id,
                    ).contains(id);
                assert(walk[n] == front[n]);
            } else {
                assert(last[j - some.len()] == id);
                assert(walk[walk.len() - 1] == walk.last());
            }
        }
        if exists|n: int|
            0 <= n < walk.len() && tab_siblings(panes[#[trigger] walk[n]]@, url, own_id).contains(
                id,
            ) {
            let n = choose|n: int|
                0 <= n < walk.len() && tab_siblings(
                    panes[#[trigger] walk[n]]@,
                    url,
                    own_id,
                ).contains(id);
            if n < front.len() {
                assert(front[n] == walk[n]);
                let j = choose|j: int| 0 <= j < some.len() && some[j] == id;
                assert(all[j] == id);
            } else {
                let j = choose|j: int| 0 <= j < last.len() && last[j] == id;
                assert(all[some.len() + j] == id);
            }
        }
    }
}

/// The listed instances are exactly the others that were loaded from the same place;
/// no instance lists itself.
pub proof fn law_siblings(
    panes: Map<usize, Vec<PaneInfo>>,
    url: Seq<char>,
    own_id: u32,
    ids: Seq<u32>,
    id: u32,
)
    requires
        lists_siblings(panes, Some(url), own_id, ids),
    ensures
        ids.contains(id) <==> exists|t: usize, i: int|
            #![trigger panes.contains_key(t), panes[t]@[i]]
            panes.contains_key(t) && 0 <= i < panes[t]@.len() && is_sibling(
                panes[t]@[i],
                url,
                own_id,
            ) && panes[t]@[i].id == id,
        !ids.contains(own_id),
{
    let walk = choose|walk: Seq<usize>|
        #[trigger] walks(panes, walk) && ids == walk_siblings(panes, walk, url, own_id);
    lemma_walk_siblings(panes, walk, url, own_id, id);
    if ids.contains(id) {
        let n = choose|n: int|
            0 <= n < walk.len() && tab_siblings(panes[#[trigger] walk[n]]@, url, own_id).contains(
                id,
            );
        let t = walk[n];
        lemma_tab_siblings(panes[t]@, url, own_id, id);
        assert(walk.contains(t));
        assert(panes.contains_key(t));
    }
    assert forall|t: usize, i: int|
        #![trigger panes.contains_key(t), panes[t]@[i]]
        panes.contains_key(t) && 0 <= i < panes[t]@.len() && is_sibling(panes[t]@[i], url, own_id)
            && panes[t]@[i].id == id implies ids.contains(id) by {
        lemma_tab_siblings(panes[t]@, url, own_id, id);
        assert(walk.contains(t));
        let n = choose|n: int| 0 <= n < walk.len() && walk[n] == t;
        assert(tab_siblings(panes[walk[n]]@, url, own_id).contains(id));
    }
    lemma_walk_siblings(panes, walk, url, own_id, own_id);
    if ids.contains(own_id) {
        let n = choose|n: int|
            0 <= n < walk.len() && tab_siblings(panes[#[trigger] walk[n]]@, url, own_id).contains(
                own_id,
            );
        lemma_tab_siblings(panes[walk[n]]@, url, own_id, own_id);
    }
}

/// An instance that does not know where it was loaded from tells nobody anything.
pub proof fn law_unplaced_is_silent(
    s: StateView,
    input: Seq<char>,
    tabs: Seq<Option<usize>>,
    nows: Seq<Timestamp>,
    ids: Seq<u32>,
)
    requires
        s.plugin_url is None,
    ensures
        pipe_answer(s, input, tabs, nows, ids).2.len() == 0,
{
}

/// What an instance tells reaches each of the others, and brings it to the same
/// statuses, none among them. The receiver is drawn again and tells nobody, so that
/// telling comes to an end. This holds of statuses that can be sent, without line breaks.
pub proof fn law_told_agrees(
    s: StateView,
    ids: Seq<u32>,
    i: int,
    receiver: StateView,
    tabs: Seq<Option<usize>>,
    nows: Seq<Timestamp>,
    others: Seq<u32>,
)
    requires
        s.plugin_url is Some,
        s.state.tab_statuses.dom().finite(),
        sendable(s.state.tab_statuses),
        breakless(s.state.tab_statuses),
        0 <= i < ids.len(),
    ensures
        ({
            let messages = telling(s, ids);
            &&& messages.len() == ids.len()
            &&& messages[i].0 == ids[i]
            &&& pipe_answer(receiver, messages[i].1, tabs, nows, others) == (
                (StateView {
                    state: ZellijStateView {
                        tab_statuses: s.state.tab_statuses,
                        ..receiver.state
                    },
                    ..receiver
                }),
                true,
                Seq::<(u32, Seq<char>)>::empty(),
            )
        }),
{
    law_sync_message(s.state.tab_statuses, receiver.state, tabs, nows);
}

/// Whatever statuses without line breaks an instance tells, no receiver tells anything
/// because of it.
pub proof fn law_telling_ends(
    s: StateView,
    ids: Seq<u32>,
    i: int,
    receiver: StateView,
    tabs: Seq<Option<usize>>,
    nows: Seq<Timestamp>,
    others: Seq<u32>,
)
    requires
        s.state.tab_statuses.dom().finite(),
        breakless(s.state.tab_statuses),
        0 <= i < telling(s, ids).len(),
    ensures
        pipe_answer(receiver, telling(s, ids)[i].1, tabs, nows, others).2.len() == 0,
{
    law_sync_silent(s.state.tab_statuses, receiver.state, tabs, nows);
}

/// Whatever a message makes an instance tell, each receiver of it has the same statuses
/// as the instance afterwards, is drawn again, and tells nobody. This holds of every
/// instance whose statuses came by messages: `law_statuses_stay_clean` keeps them clean.
pub proof fn law_message_spreads(
    s: StateView,
    input: Seq<char>,
    s_tabs: Seq<Option<usize>>,
    s_nows: Seq<Timestamp>,
    ids: Seq<u32>,
    i: int,
    receiver: StateView,
    tabs: Seq<Option<usize>>,
    nows: Seq<Timestamp>,
    others: Seq<u32>,
)
    requires
        s.state.tab_statuses.dom().finite(),
        clean(s.state.tab_statuses),
        0 <= i < pipe_answer(s, input, s_tabs, s_nows, ids).2.len(),
    ensures
        ({
            let (after, drawn, messages) = pipe_answer(s, input, s_tabs, s_nows, ids);
            &&& clean(after.state.tab_statuses)
            &&& messages.len() == ids.len()
            &&& messages[i].0 == ids[i]
            &&& pipe_answer(receiver, messages[i].1, tabs, nows, others) == (
                (StateView {
                    state: ZellijStateView {
                        tab_statuses: after.state.tab_statuses,
                        ..receiver.state
                    },
                    ..receiver
                }),
                true,
                Seq::<(u32, Seq<char>)>::empty(),
            )
        }),
{
    let after = pipe_answer(s, input, s_tabs, s_nows, ids).0;
    law_statuses_stay_clean(s.state, input, s_tabs, s_nows);
    lemma_lines_finite(s.state, split(input, "\n"@), s_tabs, s_nows);
    lemma_clean(after.state.tab_statuses);
    law_told_agrees(after, ids, i, receiver, tabs, nows, others);
}

/// Clean statuses can be sent, and have no line breaks.
proof fn lemma_clean(m: Map<usize, Seq<char>>)
    ensures
        clean(m) <==> sendable(m) && breakless(m),
{
    if sendable(m) && breakless(m) {
        assert forall|k: usize| #[trigger] m.contains_key(k) implies !has_text(m[k], "::"@)
            && !m[k].contains('\n') by {}
    }
}

/// An instance that is asked for its statuses tells them, and does not change.
pub proof fn law_asked_tells(
    s: StateView,
    tabs: Seq<Option<usize>>,
    nows: Seq<Timestamp>,
    ids: Seq<u32>,
)
    ensures
        pipe_answer(s, request_line(), tabs, nows, ids) == (s, false, broadcast(s, ids)),
{
    reveal_strlit("zjstatus::status_request::_");
    assert(!request_line().contains('\n'));
    law_one_line(s.state, request_line(), tabs, nows);
    law_request(s.state, tabs.last(), nows.last());
}

/// A status that is set from a pane is there afterwards, and each of the other
/// instances is told, and has the same statuses afterwards. Setting an empty one clears
/// the status instead; an instance without statuses then has nothing to tell. This holds
/// where the statuses and the new one are clean.
pub proof fn law_set_status_spreads(
    s: StateView,
    pane_id: u32,
    emoji: Seq<char>,
    tab: usize,
    now: Timestamp,
    ids: Seq<u32>,
    i: int,
    receiver: StateView,
    tabs: Seq<Option<usize>>,
    nows: Seq<Timestamp>,
    others: Seq<u32>,
)
    requires
        s.plugin_url is Some,
        s.state.tab_statuses.dom().finite(),
        clean(s.state.tab_statuses),
        !has_text(emoji, "::"@),
        !emoji.contains('\n'),
        emoji.len() > 0 || !s.state.tab_statuses.is_empty(),
        0 <= i < ids.len(),
    ensures
        ({
            let (after, drawn, messages) = pipe_answer(
                s,
                set_status_line(pane_id, emoji),
                seq![Some(tab)],
                seq![now],
                ids,
            );
            &&& drawn
            &&& after.state.tab_statuses == status_set(s.state.tab_statuses, tab, emoji)
            &&& messages.len() == ids.len()
            &&& messages[i].0 == ids[i]
            &&& pipe_answer(receiver, messages[i].1, tabs, nows, others) == (
                (StateView {
                    state: ZellijStateView {
                        tab_statuses: after.state.tab_statuses,
                        ..receiver.state
                    },
                    ..receiver
                }),
                true,
                Seq::<(u32, Seq<char>)>::empty(),
            )
        }),
{
    let line = set_status_line(pane_id, emoji);
    lemma_set_status_one_line(pane_id, emoji);
    law_one_line(s.state, line, seq![Some(tab)], seq![now]);
    law_set_status_line(pane_id, emoji);
    if emoji.len() > 0 {
        assert(s.state.tab_statuses.insert(tab, emoji).contains_key(tab));
    }
    law_message_spreads(
        s,
        line,
        seq![Some(tab)],
        seq![now],
        ids,
        i,
        receiver,
        tabs,
        nows,
        others,
    );
}

/// A status that is cleared from a pane is gone afterwards, and each of the other
/// instances is told, and has the same statuses afterwards, also if none is left. An
/// instance that had no statuses in the first place has nothing to tell. This holds
/// where the statuses are clean.
pub proof fn law_clear_status_spreads(
    s: StateView,
    pane_id: u32,
    tab: usize,
    now: Timestamp,
    ids: Seq<u32>,
    i: int,
    receiver: StateView,
    tabs: Seq<Option<usize>>,
    nows: Seq<Timestamp>,
    others: Seq<u32>,
)
    requires
        s.plugin_url is Some,
        s.state.tab_statuses.dom().finite(),
        clean(s.state.tab_statuses),
        !s.state.tab_statuses.is_empty(),
        0 <= i < ids.len(),
    ensures
        ({
            let (after, drawn, messages) = pipe_answer(
                s,
                clear_status_line(pane_id),
                seq![Some(tab)],
                seq![now],
                ids,
            );
            &&& drawn
            &&& after.state.tab_statuses == s.state.tab_statuses.remove(tab)
            &&& messages.len() == ids.len()
            &&& messages[i].0 == ids[i]
            &&& pipe_answer(receiver, messages[i].1, tabs, nows, others) == (
                (StateView {
                    state: ZellijStateView {
                        tab_statuses: after.state.tab_statuses,
                        ..receiver.state
                    },
                    ..receiver
                }),
                true,
                Seq::<(u32, Seq<char>)>::empty(),
            )
        }),
{
    let line = clear_status_line(pane_id);
    lemma_clear_status_one_line(pane_id);
    law_one_line(s.state, line, seq![Some(tab)], seq![now]);
    law_clear_status_line(pane_id);
    law_message_spreads(
        s,
        line,
        seq![Some(tab)],
        seq![now],
        ids,
        i,
        receiver,
        tabs,
        nows,
        others,
    );
}

/// A message that sets or clears nothing where there are statuses, and after which an
/// instance has none, makes the instance tell nobody anything.
pub proof fn law_silent_without_statuses(
    s: StateView,
    input: Seq<char>,
    tabs: Seq<Option<usize>>,
    nows: Seq<Timestamp>,
    ids: Seq<u32>,
)
    requires
        pipe_answer(s, input, tabs, nows, ids).0.state.tab_statuses.is_empty(),
        !lines_alter(s.state, split(input, "\n"@), tabs, nows),
    ensures
        pipe_answer(s, input, tabs, nows, ids).2.len() == 0,
{
}

/// Clearing a status where there are none tells nobody anything.
pub proof fn law_clear_on_nothing(
    s: StateView,
    pane_id: u32,
    tab: Option<usize>,
    now: Timestamp,
    ids: Seq<u32>,
)
    requires
        s.state.tab_statuses == Map::<usize, Seq<char>>::empty(),
    ensures
        ({
            let (after, drawn, messages) = pipe_answer(
                s,
                clear_status_line(pane_id),
                seq![tab],
                seq![now],
                ids,
            );
            after == s && messages.len() == 0
        }),
{
    let line = clear_status_line(pane_id);
    lemma_clear_status_one_line(pane_id);
    law_one_line(s.state, line, seq![tab], seq![now]);
    law_clear_status_line(pane_id);
    if tab is Some {
        assert(s.state.tab_statuses.remove(tab->0) =~= s.state.tab_statuses);
    }
}

proof fn lemma_clear_status_one_line(pane_id: u32)
    ensures
        !clear_status_line(pane_id).contains('\n'),
{
    let line = clear_status_line(pane_id);
    let head = "zjstatus::clear_status::"@;
    let dec = decimal(pane_id as nat);
    reveal_strlit("zjstatus::clear_status::");
    lemma_decimal_digits(pane_id as nat);
    if line.contains('\n') {
        let j = choose|j: int| 0 <= j < line.len() && line[j] == '\n';
        if j < head.len() {
            assert(head[j] == '\n');
        } else {
            assert(is_digit(dec[j - head.len()]));
        }
    }
}

proof fn lemma_set_status_one_line(pane_id: u32, emoji: Seq<char>)
    requires
        !emoji.contains('\n'),
    ensures
        !set_status_line(pane_id, emoji).contains('\n'),
{
    let line = set_status_line(pane_id, emoji);
    let head = "zjstatus::set_status::"@;
    let dec = decimal(pane_id as nat);
    reveal_strlit("zjstatus::set_status::");
    reveal_strlit("::");
    lemma_decimal_digits(pane_id as nat);
    if line.contains('\n') {
        let j = choose|j: int| 0 <= j < line.len() && line[j] == '\n';
        let n = head.len() as int;
        let d = dec.len() as int;
        if j < n {
            assert(head[j] == '\n');
        } else if j < n + d {
            assert(is_digit(dec[j - n]));
        } else if j < n + d + 2 {
            assert("::"@[j - n - d] == '\n');
        } else {
            assert(emoji[j - n - d - 2] == '\n');
        }
    }
}

/// An instance that comes with a new tab is told the statuses, and has them afterwards,
/// once an instance that has some learns of the new tab. This holds of statuses that
/// can be sent, without line breaks.
pub proof fn law_new_tab_is_told(
    s: StateView,
    tabs: Vec<TabInfo>,
    found: Option<Option<Seq<char>>>,
    ids: Seq<u32>,
    i: int,
    receiver: StateView,
    tabs_named: Seq<Option<usize>>,
    nows: Seq<Timestamp>,
    others: Seq<u32>,
)
    requires
        s.state.tab_statuses.dom().finite(),
        sendable(s.state.tab_statuses),
        breakless(s.state.tab_statuses),
        tabs@.len() > s.prev_tab_count,
        !retained(s.state.tab_statuses, tabs@).is_empty(),
        0 <= i < ids.len(),
    ensures
        ({
            let (after, drawn, actions) = reaction(s, Event::TabUpdate(tabs), found, ids);
            &&& actions.len() == ids.len()
            &&& actions[i] matches ActionView::Send { destination, payload } && destination
                == ids[i] && pipe_answer(receiver, payload, tabs_named, nows, others) == (
                (StateView {
                    state: ZellijStateView {
                        tab_statuses: after.state.tab_statuses,
                        ..receiver.state
                    },
                    ..receiver
                }),
                true,
                Seq::<(u32, Seq<char>)>::empty(),
            )
        }),
{
    let m = s.state.tab_statuses;
    let statuses = retained(m, tabs@);
    assert(statuses.dom().subset_of(m.dom()));
    vstd::set_lib::lemma_len_subset(statuses.dom(), m.dom());
    assert forall|k: usize| #[trigger] statuses.contains_key(k) implies m.contains_key(k)
        && statuses[k] == m[k] by {}
    law_sync_message(statuses, receiver.state, tabs_named, nows);
}

} // verus!
