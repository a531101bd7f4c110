//! What each event is for, and what an instance knows and tells, field by field.

use crate::clock::Timestamp;
use crate::config::{
    fresh_state, InputMode, ModeInfo, ModuleConfig, PaneInfo, PaneManifest, SessionInfo, TabInfo,
    UpdateEventMask, ZellijState, ZellijStateView,
};
use crate::pipe::{lines_alter, lines_effect};
use crate::plugin::{
    action_views, after_loading, broadcast, current_session, due_events, event_findings,
    finds_self, found_text, instance_at, is_instance, is_sibling, lists_siblings, loads,
    message_views, messages_to, option_text, path_of, pipe_answer, reaction, tab_siblings,
    telling, walk_siblings, walks, widget_names, Action, ActionView, Event, Mouse,
    PermissionStatus, PluginMessage, State, StateView, WidgetKind,
};
use crate::plugin_laws::{law_siblings, lemma_tab_siblings, lemma_walk_siblings};
use crate::statuses::{parse_statuses, render_statuses};
use crate::text::split;
use crate::text_map::TextMap;
use vstd::prelude::*;
use vstd::utf8::{decode_utf8, valid_utf8};

verus! {

/// A mouse event goes to the widgets, and changes nothing.
pub proof fn law_mouse(
    s: StateView,
    mouse: Mouse,
    found: Option<Option<Seq<char>>>,
    ids: Seq<u32>,
)
    ensures
        reaction(s, Event::Mouse(mouse), found, ids) == (
            s,
            false,
            seq![ActionView::HandleMouse(mouse)],
        ),
{
}

/// The mode is taken over as it comes, whatever it was before; the bar is drawn again, and
/// nothing else is done.
pub proof fn law_mode(
    s: StateView,
    mode: ModeInfo,
    found: Option<Option<Seq<char>>>,
    ids: Seq<u32>,
)
    ensures
        ({
            let done = reaction(s, Event::ModeUpdate(mode), found, ids);
            &&& done.0 == (StateView {
                state: ZellijStateView { mode, cache_mask: UpdateEventMask::Mode, ..s.state },
                ..s
            })
            &&& done.1
            &&& done.2.len() == 0
        }),
{
}

/// The answer to the request for permissions, whichever it is, makes the bar's pane
/// unselectable, and changes nothing in how it is handled.
pub proof fn law_permission(
    s: StateView,
    status: PermissionStatus,
    found: Option<Option<Seq<char>>>,
    ids: Seq<u32>,
)
    ensures
        reaction(s, Event::PermissionRequestResult(status), found, ids) == (
            s,
            false,
            seq![ActionView::SetSelectable(false)],
        ),
{
}

/// Other events are ignored.
pub proof fn law_other_event(s: StateView, found: Option<Option<Seq<char>>>, ids: Seq<u32>)
    ensures
        reaction(s, Event::Other, found, ids).0 == s,
        !reaction(s, Event::Other, found, ids).1,
        reaction(s, Event::Other, found, ids).2.len() == 0,
{
}

/// The result of a named command is kept under its name, in place of any earlier result,
/// with the exit code, the outputs as text and the context that the event has; a result
/// without a name is dropped. All other results stay, and nothing else changes.
pub proof fn law_command_result(
    s: StateView,
    exit_code: Option<i32>,
    stdout: Vec<u8>,
    stderr: Vec<u8>,
    context: TextMap<String>,
    found: Option<Option<Seq<char>>>,
    ids: Seq<u32>,
)
    ensures
        ({
            let done = reaction(
                s,
                Event::RunCommandResult { exit_code, stdout, stderr, context },
                found,
                ids,
            );
            let before = s.state.command_results;
            let after = done.0.state.command_results;
            &&& !done.1
            &&& done.2.len() == 0
            &&& done.0 == (StateView {
                state: ZellijStateView {
                    command_results: after,
                    cache_mask: UpdateEventMask::Command,
                    ..s.state
                },
                ..s
            })
            &&& if context@.contains_key("name"@) {
                let name = context@["name"@]@;
                &&& after.contains_key(name)
                &&& after[name].exit_code == exit_code
                &&& valid_utf8(stdout@) ==> after[name].stdout == decode_utf8(stdout@)
                &&& !valid_utf8(stdout@) ==> after[name].stdout.len() == 0
                &&& valid_utf8(stderr@) ==> after[name].stderr == decode_utf8(stderr@)
                &&& !valid_utf8(stderr@) ==> after[name].stderr.len() == 0
                &&& forall|key: Seq<char>| #[trigger]
                    after[name].context.contains_key(key) <==> context@.contains_key(key)
                &&& forall|key: Seq<char>| #[trigger]
                    context@.contains_key(key) ==> after[name].context[key] == context@[key]@
                &&& after.remove(name) == before.remove(name)
            } else {
                after == before
            }
        }),
{
    let done = reaction(
        s,
        Event::RunCommandResult { exit_code, stdout, stderr, context },
        found,
        ids,
    );
    if context@.contains_key("name"@) {
        let name = context@["name"@]@;
        assert(done.0.state.command_results.remove(name) =~= s.state.command_results.remove(name));
    }
}

/// Of two results of a command the later is kept, whatever the earlier was.
pub proof fn law_later_result(
    s: StateView,
    first: (Option<i32>, Vec<u8>, Vec<u8>, TextMap<String>),
    second: (Option<i32>, Vec<u8>, Vec<u8>, TextMap<String>),
    found: Option<Option<Seq<char>>>,
    ids: Seq<u32>,
)
    requires
        first.3@.contains_key("name"@),
        second.3@.contains_key("name"@),
        first.3@["name"@]@ == second.3@["name"@]@,
    ensures
        ({
            let a = Event::RunCommandResult {
                exit_code: first.0,
                stdout: first.1,
                stderr: first.2,
                context: first.3,
            };
            let b = Event::RunCommandResult {
                exit_code: second.0,
                stdout: second.1,
                stderr: second.2,
                context: second.3,
            };
            let between = reaction(s, a, found, ids).0;
            reaction(between, b, found, ids) == reaction(s, b, found, ids)
        }),
{
    let a = Event::RunCommandResult {
        exit_code: first.0,
        stdout: first.1,
        stderr: first.2,
        context: first.3,
    };
    let b = Event::RunCommandResult {
        exit_code: second.0,
        stdout: second.1,
        stderr: second.2,
        context: second.3,
    };
    let between = reaction(s, a, found, ids).0;
    let x = reaction(between, b, found, ids).0;
    let y = reaction(s, b, found, ids).0;
    assert(x.state.command_results =~= y.state.command_results);
}

/// The panes are taken over as they come, frames are hidden by them, and the bar is drawn
/// again. An instance that knows where it was loaded from does nothing else.
pub proof fn law_panes(
    s: StateView,
    panes: PaneManifest,
    found: Option<Option<Seq<char>>>,
    ids: Seq<u32>,
)
    ensures
        ({
            let done = reaction(s, Event::PaneUpdate(panes), found, ids);
            &&& done.1
            &&& done.0 == (StateView {
                state: ZellijStateView { panes, cache_mask: UpdateEventMask::Tab, ..s.state },
                plugin_url: done.0.plugin_url,
                ..s
            })
            &&& done.2.len() > 0
            &&& done.2[0] == ActionView::HideFrames(s.module_config)
            &&& s.plugin_url is Some ==> done.0.plugin_url == s.plugin_url && done.2.len() == 1
        }),
{
}

/// An instance that does not know where it was loaded from takes that from its own pane,
/// in whichever tab and wherever in it the pane stands.
pub proof fn law_finds_its_url(
    s: StateView,
    panes: PaneManifest,
    own_id: u32,
    t: usize,
    i: int,
    found: Option<Option<Seq<char>>>,
    ids: Seq<u32>,
)
    requires
        s.plugin_url is None,
        event_findings(s, Event::PaneUpdate(panes), own_id, found, ids),
        panes.panes@.contains_key(t),
        0 <= i < panes.panes@[t]@.len(),
        panes.panes@[t]@[i].is_plugin,
        panes.panes@[t]@[i].id == own_id,
        forall|u: usize, j: int|
            #![trigger panes.panes@[u]@[j]]
            panes.panes@.contains_key(u) && 0 <= j < panes.panes@[u]@.len() && (u != t || j != i)
                ==> !(panes.panes@[u]@[j].is_plugin && panes.panes@[u]@[j].id == own_id),
    ensures
        reaction(s, Event::PaneUpdate(panes), found, ids).0.plugin_url == (
            match panes.panes@[t]@[i].plugin_url {
                Some(url) => Some(url@),
                None => None,
            }
        ),
{
    let m = panes.panes@;
    assert(found is Some) by {
        if found is None {
            assert(m.contains_key(t));
            assert(m[t]@[i].is_plugin);
        }
    }
    let url = found->0;
    let (u, j) = choose|u: usize, j: int|
        #![trigger m.contains_key(u), m[u]@[j]]
        m.contains_key(u) && instance_at(m[u]@, own_id, j) && option_text(
            m[u]@[j].plugin_url,
        ) == url;
    assert(u == t && j == i);
}

/// An instance that finds its own pane nowhere learns nothing, and asks nobody.
pub proof fn law_finds_nothing(
    s: StateView,
    panes: PaneManifest,
    own_id: u32,
    found: Option<Option<Seq<char>>>,
    ids: Seq<u32>,
)
    requires
        event_findings(s, Event::PaneUpdate(panes), own_id, found, ids),
        forall|u: usize, j: int|
            #![trigger panes.panes@[u]@[j]]
            panes.panes@.contains_key(u) && 0 <= j < panes.panes@[u]@.len()
                ==> !(panes.panes@[u]@[j].is_plugin && panes.panes@[u]@[j].id == own_id),
    ensures
        ({
            let done = reaction(s, Event::PaneUpdate(panes), found, ids);
            done.0.plugin_url == s.plugin_url && done.2.len() == 1
        }),
{
    if s.plugin_url is None && found is Some {
        let m = panes.panes@;
        let (u, j) = choose|u: usize, j: int|
            #![trigger m.contains_key(u), m[u]@[j]]
            m.contains_key(u) && instance_at(m[u]@, own_id, j) && option_text(
                m[u]@[j].plugin_url,
            ) == found->0;
        assert(m[u]@[j].is_plugin);
    }
}

/// An instance that has just learnt where it was loaded from asks each of the others for
/// their statuses, and nobody else.
pub proof fn law_asks_the_others(
    s: StateView,
    panes: PaneManifest,
    own_id: u32,
    url: Seq<char>,
    ids: Seq<u32>,
    id: u32,
)
    requires
        s.plugin_url is None,
        event_findings(s, Event::PaneUpdate(panes), own_id, Some(Some(url)), ids),
    ensures
        ({
            let actions = reaction(s, Event::PaneUpdate(panes), Some(Some(url)), ids).2;
            let ask = ActionView::Send {
                destination: id,
                payload: "zjstatus::status_request::_"@,
            };
            &&& actions.len() == 1 + ids.len()
            &&& actions.contains(ask) <==> exists|t: usize, i: int|
                #![trigger panes.panes@[t]@[i]]
                panes.panes@.contains_key(t) && 0 <= i < panes.panes@[t]@.len()
                    && another(panes.panes@[t]@[i], url, own_id) && panes.panes@[t]@[i].id == id
            &&& forall|k: int|
                1 <= k < actions.len() ==> #[trigger] actions[k] == (ActionView::Send {
                    destination: ids[k - 1],
                    payload: "zjstatus::status_request::_"@,
                })
        }),
{
    let actions = reaction(s, Event::PaneUpdate(panes), Some(Some(url)), ids).2;
    let ask = ActionView::Send { destination: id, payload: "zjstatus::status_request::_"@ };
    law_others(panes.panes@, url, own_id, ids, id);
    if actions.contains(ask) {
        let k = choose|k: int| 0 <= k < actions.len() && actions[k] == ask;
        assert(k > 0);
        assert(ids[k - 1] == id);
    }
    if ids.contains(id) {
        let k = choose|k: int| 0 <= k < ids.len() && ids[k] == id;
        assert(actions[k + 1] == ask);
    }
}

/// The pane of another instance of the plugin that was loaded from `url`.
pub open spec fn another(pane: PaneInfo, url: Seq<char>, own_id: u32) -> bool {
    pane.is_plugin && pane.id != own_id && pane.plugin_url is Some && pane.plugin_url->0@ == url
}

/// The listed instances are exactly the other plugin panes of the same place, wherever
/// they stand.
pub proof fn law_others(
    panes: Map<usize, Vec<PaneInfo>>,
    url: Seq<char>,
    own_id: u32,
    ids: Seq<u32>,
    id: u32,
)
    requires
        lists_siblings(panes, Some(url), own_id, ids),
    ensures
        ids.contains(id) <==> exists|t: usize, i: int|
            #![trigger panes[t]@[i]]
            panes.contains_key(t) && 0 <= i < panes[t]@.len() && another(panes[t]@[i], url, own_id)
                && panes[t]@[i].id == id,
{
    law_siblings(panes, url, own_id, ids, id);
    assert forall|p: PaneInfo| is_sibling(p, url, own_id) <==> #[trigger] another(
        p,
        url,
        own_id,
    ) by {}
    if ids.contains(id) {
        let (t, i) = choose|t: usize, i: int|
            #![trigger panes.contains_key(t), panes[t]@[i]]
            panes.contains_key(t) && 0 <= i < panes[t]@.len() && is_sibling(
                panes[t]@[i],
                url,
                own_id,
            ) && panes[t]@[i].id == id;
        assert(another(panes[t]@[i], url, own_id));
    }
}

/// Instances with numbers of their own are listed once each.
pub proof fn law_others_once(
    panes: Map<usize, Vec<PaneInfo>>,
    url: Seq<char>,
    own_id: u32,
    ids: Seq<u32>,
)
    requires
        lists_siblings(panes, Some(url), own_id, ids),
        forall|t: usize, i: int, u: usize, j: int|
            #![trigger panes[t]@[i], panes[u]@[j]]
            panes.contains_key(t) && panes.contains_key(u) && 0 <= i < panes[t]@.len() && 0 <= j
                < panes[u]@.len() && another(panes[t]@[i], url, own_id) && another(
                panes[u]@[j],
                url,
                own_id,
            ) && panes[t]@[i].id == panes[u]@[j].id ==> t == u && i == j,
    ensures
        ids.no_duplicates(),
{
    let walk = choose|walk: Seq<usize>|
        #[trigger] walks(panes, walk) && ids == walk_siblings(panes, walk, url, own_id);
    assert forall|n: int| 0 <= n < walk.len() implies panes.contains_key(#[trigger] walk[n]) by {
        assert(walk.contains(walk[n]));
    }
    lemma_walk_once(panes, walk, url, own_id);
}

proof fn lemma_walk_once(
    panes: Map<usize, Vec<PaneInfo>>,
    walk: Seq<usize>,
    url: Seq<char>,
    own_id: u32,
)
    requires
        walk.no_duplicates(),
        forall|n: int| 0 <= n < walk.len() ==> panes.contains_key(#[trigger] walk[n]),
        forall|t: usize, i: int, u: usize, j: int|
            #![trigger panes[t]@[i], panes[u]@[j]]
            panes.contains_key(t) && panes.contains_key(u) && 0 <= i < panes[t]@.len() && 0 <= j
                < panes[u]@.len() && another(panes[t]@[i], url, own_id) && another(
                panes[u]@[j],
                url,
                own_id,
            ) && panes[t]@[i].id == panes[u]@[j].id ==> t == u && i == j,
    ensures
        walk_siblings(panes, walk, url, own_id).no_duplicates(),
    decreases walk.len(),
{
    if walk.len() > 0 {
        let front = walk.drop_last();
        let t = walk.last();
        assert(walk[walk.len() - 1] == t);
        assert forall|n: int| 0 <= n < front.len() implies panes.contains_key(
            #[trigger] front[n],
        ) by {
            assert(front[n] == walk[n]);
        }
        lemma_walk_once(panes, front, url, own_id);
        lemma_tab_once(panes[t]@, url, own_id);
        let a = walk_siblings(panes, front, url, own_id);
        let b = tab_siblings(panes[t]@, url, own_id);
        assert forall|i: int, j: int| 0 <= i < a.len() && 0 <= j < b.len() implies a[i] != b[j] by {
            if a[i] == b[j] {
                let id = a[i];
                assert(a.contains(id));
                assert(b.contains(id));
                lemma_walk_siblings(panes, front, url, own_id, id);
                lemma_tab_siblings(panes[t]@, url, own_id, id);
                let n = choose|n: int|
                    0 <= n < front.len() && tab_siblings(
                        panes[#[trigger] front[n]]@,
                        url,
                        own_id,
                    ).contains(id);
                let u = front[n];
                lemma_tab_siblings(panes[u]@, url, own_id, id);
                let x = choose|x: int|
                    0 <= x < panes[u]@.len() && is_sibling(
                        #[trigger] panes[u]@[x],
                        url,
                        own_id,
                    ) && panes[u]@[x].id == id;
                let y = choose|y: int|
                    0 <= y < panes[t]@.len() && is_sibling(
                        #[trigger] panes[t]@[y],
                        url,
                        own_id,
                    ) && panes[t]@[y].id == id;
                assert(another(panes[u]@[x], url, own_id));
                assert(another(panes[t]@[y], url, own_id));
                assert(u == t);
                assert(walk[n] == walk[walk.len() - 1]);
            }
        }
    }
}

proof fn lemma_tab_once(panes: Seq<PaneInfo>, url: Seq<char>, own_id: u32)
    requires
        forall|i: int, j: int|
            #![trigger panes[i], panes[j]]
            0 <= i < panes.len() && 0 <= j < panes.len() && another(panes[i], url, own_id)
                && another(panes[j], url, own_id) && panes[i].id == panes[j].id ==> i == j,
    ensures
        tab_siblings(panes, url, own_id).no_duplicates(),
    decreases panes.len(),
{
    if panes.len() > 0 {
        let front = panes.drop_last();
        let some = tab_siblings(front, url, own_id);
        let p = panes.last();
        assert forall|i: int, j: int|
            #![trigger front[i], front[j]]
            0 <= i < front.len() && 0 <= j < front.len() && another(front[i], url, own_id)
                && another(front[j], url, own_id) && front[i].id == front[j].id implies i == j by {
            assert(front[i] == panes[i] && front[j] == panes[j]);
        }
        lemma_tab_once(front, url, own_id);
        if is_sibling(p, url, own_id) && some.contains(p.id) {
            lemma_tab_siblings(front, url, own_id, p.id);
            let i = choose|i: int|
                0 <= i < front.len() && is_sibling(#[trigger] front[i], url, own_id) && front[i].id
                    == p.id;
            assert(panes[i] == front[i]);
            assert(panes[panes.len() - 1] == p);
            assert(another(panes[i], url, own_id) && another(p, url, own_id));
        }
        let all = tab_siblings(panes, url, own_id);
        assert forall|i: int, j: int| 0 <= i < all.len() && 0 <= j < all.len() && i != j implies all[i]
            != all[j] by {
            if i < some.len() && j < some.len() {
                assert(some[i] != some[j]);
            } else if i < some.len() {
                assert(some.contains(some[i]));
            } else if j < some.len() {
                assert(some.contains(some[j]));
            }
        }
    }
}

/// The sessions are taken over as they come, and the bar is drawn again. Frames are hidden
/// by the first of them that is current, if one is.
pub proof fn law_sessions(
    s: StateView,
    sessions: Vec<SessionInfo>,
    i: int,
    found: Option<Option<Seq<char>>>,
    ids: Seq<u32>,
)
    requires
        0 <= i <= sessions@.len(),
        forall|j: int| 0 <= j < i ==> !(#[trigger] sessions@[j]).is_current_session,
        i < sessions@.len() ==> sessions@[i].is_current_session,
    ensures
        ({
            let done = reaction(s, Event::SessionUpdate(sessions), found, ids);
            &&& done.1
            &&& done.0 == (StateView {
                state: ZellijStateView {
                    sessions: sessions@,
                    cache_mask: UpdateEventMask::Session,
                    ..s.state
                },
                ..s
            })
            &&& i == sessions@.len() ==> done.2.len() == 0
            &&& i < sessions@.len() ==> done.2 == seq![
                ActionView::HideSessionFrames(s.module_config, i as nat),
            ]
        }),
{
    if i < sessions@.len() {
        assert(current_session(sessions@, i));
        let k = choose|k: int| current_session(sessions@, k);
        assert(k == i);
    } else {
        assert forall|k: int| !current_session(sessions@, k) by {}
    }
}

/// The tabs are taken over as they come, with their number, and the bar is drawn again.
/// A status stays exactly if one of the tabs stands at its position. Nothing else changes.
pub proof fn law_tabs(
    s: StateView,
    tabs: Vec<TabInfo>,
    found: Option<Option<Seq<char>>>,
    ids: Seq<u32>,
)
    ensures
        ({
            let done = reaction(s, Event::TabUpdate(tabs), found, ids);
            let before = s.state.tab_statuses;
            let after = done.0.state.tab_statuses;
            &&& done.1
            &&& done.0 == (StateView {
                state: ZellijStateView {
                    tabs: tabs@,
                    cache_mask: UpdateEventMask::Tab,
                    tab_statuses: after,
                    ..s.state
                },
                prev_tab_count: done.0.prev_tab_count,
                ..s
            })
            &&& done.0.prev_tab_count == tabs@.len()
            &&& forall|i: int|
                0 <= i < tabs@.len() && before.contains_key((#[trigger] tabs@[i]).position)
                    ==> after.contains_key(tabs@[i].position) && after[tabs@[i].position]
                    == before[tabs@[i].position]
            &&& forall|k: usize| #[trigger]
                after.contains_key(k) ==> before.contains_key(k) && exists|i: int|
                    0 <= i < tabs@.len() && (#[trigger] tabs@[i]).position == k
        }),
{
}

/// Where there are more tabs than before and statuses are left, each of the others is told
/// them, in the order of the list; otherwise nobody is told anything.
pub proof fn law_tabs_told(
    s: StateView,
    tabs: Vec<TabInfo>,
    found: Option<Option<Seq<char>>>,
    ids: Seq<u32>,
)
    ensures
        ({
            let done = reaction(s, Event::TabUpdate(tabs), found, ids);
            let statuses = done.0.state.tab_statuses;
            let told = tabs@.len() > s.prev_tab_count && (exists|k: usize| #[trigger]
                statuses.contains_key(k));
            &&& !told ==> done.2.len() == 0
            &&& told ==> done.2.len() == ids.len() && forall|i: int|
                0 <= i < ids.len() ==> #[trigger] done.2[i] == (ActionView::Send {
                    destination: ids[i],
                    payload: "zjstatus::status_sync::"@ + render_statuses(statuses),
                })
        }),
{
    let statuses = reaction(s, Event::TabUpdate(tabs), found, ids).0.state.tab_statuses;
    if !statuses.is_empty() {
        let k = statuses.dom().choose();
        assert(statuses.contains_key(k));
    }
}

/// The others that an update of the tabs tells are those among the known panes.
pub proof fn law_tabs_others(
    s: StateView,
    tabs: Vec<TabInfo>,
    own_id: u32,
    found: Option<Option<Seq<char>>>,
    ids: Seq<u32>,
    id: u32,
)
    requires
        event_findings(s, Event::TabUpdate(tabs), own_id, found, ids),
    ensures
        s.plugin_url is None ==> ids.len() == 0,
        s.plugin_url is Some ==> (ids.contains(id) <==> exists|t: usize, i: int|
            #![trigger s.state.panes.panes@[t]@[i]]
            s.state.panes.panes@.contains_key(t) && 0 <= i < s.state.panes.panes@[t]@.len()
                && another(s.state.panes.panes@[t]@[i], s.plugin_url->0, own_id)
                && s.state.panes.panes@[t]@[i].id == id),
{
    if s.plugin_url is Some {
        law_others(s.state.panes.panes@, s.plugin_url->0, own_id, ids, id);
    }
}

/// Which events are due: without permissions none, and the event joins those that wait;
/// with permissions the event alone; when they are given all that waited, the last to
/// come first, and then the event. Nothing else changes.
pub proof fn law_due(s: StateView, event: Event)
    ensures
        ({
            let (after, due) = due_events(s, event);
            let granted = event == Event::PermissionRequestResult(PermissionStatus::Granted);
            let n = s.pending_events.len() as int;
            &&& after == (StateView {
                got_permissions: after.got_permissions,
                pending_events: after.pending_events,
                ..s
            })
            &&& after.got_permissions == (s.got_permissions || granted)
            &&& granted ==> {
                &&& after.pending_events.len() == 0
                &&& due.len() == n + 1
                &&& due[n] == event
                &&& forall|i: int| 0 <= i < n ==> #[trigger] due[i] == s.pending_events[n - 1 - i]
            }
            &&& !granted && s.got_permissions ==> after.pending_events == s.pending_events
                && due.len() == 1 && due[0] == event
            &&& !granted && !s.got_permissions ==> {
                &&& due.len() == 0
                &&& after.pending_events.len() == n + 1
                &&& after.pending_events[n] == event
                &&& forall|i: int|
                    0 <= i < n ==> #[trigger] after.pending_events[i] == s.pending_events[i]
            }
        }),
{
}

/// Loading a good configuration takes it over and starts afresh; what the instance knows
/// of where it was loaded from, how many tabs there were and an earlier error stay.
pub proof fn law_loaded(
    s: StateView,
    configuration: Map<Seq<char>, Seq<char>>,
    module_config: ModuleConfig,
    plugin_uuid: Seq<char>,
    now: Timestamp,
    after: StateView,
)
    requires
        loads(s, configuration, Ok(module_config), plugin_uuid, now, after),
    ensures
        after.pending_events.len() == 0,
        !after.got_permissions,
        after.userspace_configuration == configuration,
        after.module_config == module_config,
        after.err == s.err,
        after.plugin_url == s.plugin_url,
        after.prev_tab_count == s.prev_tab_count,
        after.statuses_loaded == s.statuses_loaded,
        after.state.plugin_uuid == plugin_uuid,
        after.state.start_time == now,
        after.widget_map == widget_names(),
        fresh_state(plugin_uuid, now, after.state),
{
}

/// A wrong configuration leaves its error, and nothing else changes.
pub proof fn law_loaded_wrong(
    s: StateView,
    configuration: Map<Seq<char>, Seq<char>>,
    error: String,
    plugin_uuid: Seq<char>,
    now: Timestamp,
    after: StateView,
)
    requires
        loads(s, configuration, Err(error), plugin_uuid, now, after),
    ensures
        after == (StateView { err: Some(error@), ..s }),
{
}

/// A fresh state knows nothing but its name and its start.
pub proof fn law_fresh(plugin_uuid: Seq<char>, start: Timestamp, s: ZellijStateView)
    requires
        fresh_state(plugin_uuid, start, s),
    ensures
        s.cols == 0,
        forall|k: Seq<char>| !(#[trigger] s.command_results.contains_key(k)),
        forall|k: Seq<char>| !(#[trigger] s.pipe_results.contains_key(k)),
        forall|k: usize| !(#[trigger] s.tab_statuses.contains_key(k)),
        forall|k: usize| !(#[trigger] s.panes.panes@.contains_key(k)),
        s.mode.session_name is None,
        s.mode.mode == InputMode::Normal,
        s.tabs.len() == 0,
        s.sessions.len() == 0,
        s.incoming_notification is None,
        s.cache_mask == UpdateEventMask::Empty,
        s.plugin_uuid == plugin_uuid,
        s.start_time == start,
{
}

/// A named session has its file, other sessions have another, and one without a name has
/// none.
pub proof fn law_path(name: Seq<char>)
    ensures
        path_of(None) is None,
        path_of(Some(Seq::<char>::empty())) is None,
        name.len() > 0 && name[0] != '/' ==> path_of(Some(name)) == Some(
            "/host/.cache/zjstatus/"@ + name + ".json"@,
        ),
        name.len() > 0 && name[0] == '/' ==> path_of(Some(name)) == Some(name + ".json"@),
{
}

/// Two sessions share a file only if they have the same name, unless a name is a path of
/// its own.
pub proof fn law_paths_apart(a: Seq<char>, b: Seq<char>)
    requires
        a.len() > 0,
        b.len() > 0,
        a[0] != '/',
        b[0] != '/',
        path_of(Some(a)) == path_of(Some(b)),
    ensures
        a == b,
{
    let head = "/host/.cache/zjstatus/"@;
    let x = head + a + ".json"@;
    let y = head + b + ".json"@;
    law_path(a);
    law_path(b);
    assert(x == y);
    assert(a.len() == b.len());
    assert forall|i: int| 0 <= i < a.len() implies a[i] == b[i] by {
        assert(x[head.len() + i] == a[i]);
        assert(y[head.len() + i] == b[i]);
    }
    assert(a =~= b);
}

/// A file with statuses puts them in place of those that are there, any other changes
/// nothing.
pub proof fn law_file(s: StateView, text: Seq<char>)
    ensures
        ({
            let after = after_loading(s, text);
            &&& after == (StateView {
                state: ZellijStateView {
                    tab_statuses: after.state.tab_statuses,
                    ..s.state
                },
                ..s
            })
            &&& after.state.tab_statuses == (match parse_statuses(text) {
                Some(statuses) => if statuses.dom() == Set::<usize>::empty() {
                    s.state.tab_statuses
                } else {
                    statuses
                },
                None => s.state.tab_statuses,
            })
        }),
{
    if parse_statuses(text) is Some {
        let statuses = parse_statuses(text)->0;
        if statuses.is_empty() {
            assert(statuses.dom() =~= Set::<usize>::empty());
        }
    }
}

/// A text for several instances goes to each of them, in order, whole.
pub proof fn law_messages(ids: Seq<u32>, payload: Seq<char>)
    ensures
        messages_to(ids, payload).len() == ids.len(),
        forall|i: int|
            0 <= i < ids.len() ==> #[trigger] messages_to(ids, payload)[i] == (ids[i], payload),
{
}

/// What is told are the statuses, to each of the others; nothing without a place, and in a
/// broadcast nothing without statuses.
pub proof fn law_told(s: StateView, ids: Seq<u32>)
    ensures
        s.plugin_url is None ==> telling(s, ids).len() == 0 && broadcast(s, ids).len() == 0,
        s.plugin_url is Some ==> telling(s, ids).len() == ids.len(),
        forall|i: int|
            s.plugin_url is Some && 0 <= i < ids.len() ==> #[trigger] telling(s, ids)[i] == (
                ids[i],
                "zjstatus::status_sync::"@ + render_statuses(s.state.tab_statuses),
            ),
        (forall|k: usize| !(#[trigger] s.state.tab_statuses.contains_key(k))) ==> broadcast(
            s,
            ids,
        ).len() == 0,
        (exists|k: usize| #[trigger] s.state.tab_statuses.contains_key(k)) ==> broadcast(s, ids)
            == telling(s, ids),
{
    if !s.state.tab_statuses.is_empty() {
        let k = s.state.tab_statuses.dom().choose();
        assert(s.state.tab_statuses.contains_key(k));
    }
}

/// A message changes what the bar is drawn from as its lines do, and nothing else of the
/// instance; it is answered only if a line asks for it.
pub proof fn law_message(
    s: StateView,
    input: Seq<char>,
    tabs: Seq<Option<usize>>,
    nows: Seq<Timestamp>,
    ids: Seq<u32>,
)
    ensures
        ({
            let lines = split(input, "\n"@);
            let (after, drawn, messages) = pipe_answer(s, input, tabs, nows, ids);
            let done = lines_effect(s.state, lines, tabs, nows);
            &&& after == (StateView { state: after.state, ..s })
            &&& after.state == done.0
            &&& drawn == done.1
            &&& !done.2 || s.plugin_url is None ==> messages.len() == 0
            &&& done.2 && s.plugin_url is Some && ((exists|k: usize| #[trigger]
                after.state.tab_statuses.contains_key(k)) || lines_alter(
                s.state,
                lines,
                tabs,
                nows,
            )) ==> messages == telling(after, ids)
        }),
{
    let after = pipe_answer(s, input, tabs, nows, ids).0;
    law_told(after, ids);
}

/// The widgets go by these names and no others.
pub proof fn law_widgets(name: Seq<char>)
    ensures
        widget_names().contains_key(name) <==> name == "command"@ || name == "datetime"@ || name
            == "pipe"@ || name == "swap_layout"@ || name == "mode"@ || name == "session"@ || name
            == "tabs"@ || name == "notifications"@,
        widget_names()["command"@] == WidgetKind::Command,
        widget_names()["datetime"@] == WidgetKind::DateTime,
        widget_names()["pipe"@] == WidgetKind::Pipe,
        widget_names()["swap_layout"@] == WidgetKind::SwapLayout,
        widget_names()["mode"@] == WidgetKind::Mode,
        widget_names()["session"@] == WidgetKind::Session,
        widget_names()["tabs"@] == WidgetKind::Tabs,
        widget_names()["notifications"@] == WidgetKind::Notification,
{
    reveal_strlit("command");
    reveal_strlit("datetime");
    reveal_strlit("pipe");
    reveal_strlit("swap_layout");
    reveal_strlit("mode");
    reveal_strlit("session");
    reveal_strlit("tabs");
    reveal_strlit("notifications");
    assert("command"@.len() == 7 && "session"@.len() == 7);
    assert("command"@[0] == 'c' && "session"@[0] == 's');
    assert("pipe"@.len() == 4 && "mode"@.len() == 4 && "tabs"@.len() == 4);
    assert("pipe"@[0] == 'p' && "mode"@[0] == 'm' && "tabs"@[0] == 't');
    assert("datetime"@.len() == 8);
    assert("swap_layout"@.len() == 11);
    assert("notifications"@.len() == 13);
}

/// The contents of a state are those of its fields.
pub proof fn law_state_contents(state: ZellijState)
    ensures
        state@.cols == state.cols,
        state@.mode == state.mode,
        state@.panes == state.panes,
        state@.plugin_uuid == state.plugin_uuid@,
        state@.tabs == state.tabs@,
        state@.sessions == state.sessions@,
        state@.start_time == state.start_time,
        state@.cache_mask == state.cache_mask,
        state.incoming_notification is None <==> state@.incoming_notification is None,
        state.incoming_notification is Some ==> {
            &&& state@.incoming_notification->0.body == state.incoming_notification->0.body@
            &&& state@.incoming_notification->0.received_at
                == state.incoming_notification->0.received_at
        },
        forall|k: usize| #[trigger]
            state@.tab_statuses.contains_key(k) <==> state.tab_statuses@.contains_key(k),
        forall|k: usize| #[trigger]
            state.tab_statuses@.contains_key(k) ==> state@.tab_statuses[k]
                == state.tab_statuses@[k]@,
        forall|k: Seq<char>| #[trigger]
            state@.pipe_results.contains_key(k) <==> state.pipe_results@.contains_key(k),
        forall|k: Seq<char>| #[trigger]
            state.pipe_results@.contains_key(k) ==> state@.pipe_results[k]
                == state.pipe_results@[k]@,
        forall|k: Seq<char>| #[trigger]
            state@.command_results.contains_key(k) <==> state.command_results@.contains_key(k),
        forall|k: Seq<char>| #[trigger]
            state.command_results@.contains_key(k) ==> {
                let c = state.command_results@[k];
                let v = state@.command_results[k];
                &&& v.exit_code == c.exit_code
                &&& v.stdout == c.stdout@
                &&& v.stderr == c.stderr@
                &&& v.context.dom() == c.context@.dom()
                &&& forall|key: Seq<char>| #[trigger]
                    c.context@.contains_key(key) ==> v.context[key] == c.context@[key]@
            },
{
    assert forall|k: Seq<char>| #[trigger] state.command_results@.contains_key(k) implies {
        let c = state.command_results@[k];
        let v = state@.command_results[k];
        v.context.dom() == c.context@.dom()
    } by {
        let c = state.command_results@[k];
        let v = state@.command_results[k];
        assert(v.context.dom() =~= c.context@.dom());
    }
}

/// The contents of an instance are those of its fields.
pub proof fn law_instance_contents(instance: State)
    ensures
        instance@.pending_events == instance.pending_events@,
        instance@.got_permissions == instance.got_permissions,
        instance@.state == instance.state@,
        instance@.module_config == instance.module_config,
        instance@.widget_map == instance.widget_map@,
        instance.err is None <==> instance@.err is None,
        instance.err is Some ==> instance@.err->0 == instance.err->0@,
        instance.plugin_url is None <==> instance@.plugin_url is None,
        instance.plugin_url is Some ==> instance@.plugin_url->0 == instance.plugin_url->0@,
        instance@.prev_tab_count == instance.prev_tab_count,
        instance@.statuses_loaded == instance.statuses_loaded,
        forall|k: Seq<char>| #[trigger]
            instance@.userspace_configuration.contains_key(k)
                <==> instance.userspace_configuration@.contains_key(k),
        forall|k: Seq<char>| #[trigger]
            instance.userspace_configuration@.contains_key(k)
                ==> instance@.userspace_configuration[k] == instance.userspace_configuration@[k]@,
{
}

/// The contents of messages and actions are those of each, in order.
pub proof fn law_outgoing_contents(messages: Seq<PluginMessage>, actions: Seq<Action>)
    ensures
        message_views(messages).len() == messages.len(),
        forall|i: int|
            0 <= i < messages.len() ==> #[trigger] message_views(messages)[i] == (
                messages[i].destination,
                messages[i].payload@,
            ),
        action_views(actions).len() == actions.len(),
        forall|i: int|
            #![trigger action_views(actions)[i]]
            0 <= i < actions.len() ==> match actions[i] {
                Action::HandleMouse(mouse) => action_views(actions)[i] == ActionView::HandleMouse(
                    mouse,
                ),
                Action::HideFrames(config) => action_views(actions)[i] == ActionView::HideFrames(
                    config,
                ),
                Action::HideSessionFrames(config, n) => action_views(actions)[i]
                    == ActionView::HideSessionFrames(config, n as nat),
                Action::SetSelectable(on) => action_views(actions)[i] == ActionView::SetSelectable(
                    on,
                ),
                Action::Send(m) => action_views(actions)[i] == (ActionView::Send {
                    destination: m.destination,
                    payload: m.payload@,
                }),
            },
{
}

/// The other instances are listed tab by tab, and within a tab in the order of its panes.
pub proof fn law_listing_order(
    panes: Map<usize, Vec<PaneInfo>>,
    walk: Seq<usize>,
    t: usize,
    some: Seq<PaneInfo>,
    pane: PaneInfo,
    url: Seq<char>,
    own_id: u32,
)
    ensures
        walk_siblings(panes, walk.push(t), url, own_id) == walk_siblings(panes, walk, url, own_id)
            + tab_siblings(panes[t]@, url, own_id),
        tab_siblings(some.push(pane), url, own_id) == (if another(pane, url, own_id) {
            tab_siblings(some, url, own_id).push(pane.id)
        } else {
            tab_siblings(some, url, own_id)
        }),
{
    assert(walk.push(t).drop_last() =~= walk);
    assert(some.push(pane).drop_last() =~= some);
}

/// What an instance finds of itself comes from the first of its panes in some tab; and if
/// it finds nothing, it has no pane.
pub proof fn law_own_pane(
    panes: Map<usize, Vec<PaneInfo>>,
    own_id: u32,
    found: Option<Option<Seq<char>>>,
) -> (at: (usize, int))
    requires
        finds_self(panes, own_id, found),
    ensures
        found is Some ==> {
            let (t, i) = at;
            &&& panes.contains_key(t)
            &&& 0 <= i < panes[t]@.len()
            &&& panes[t]@[i].is_plugin && panes[t]@[i].id == own_id
            &&& forall|j: int|
                0 <= j < i ==> !((#[trigger] panes[t]@[j]).is_plugin && panes[t]@[j].id == own_id)
            &&& match panes[t]@[i].plugin_url {
                Some(url) => found == Some(Some(url@)),
                None => found == Some(None::<Seq<char>>),
            }
        },
        found is None ==> forall|t: usize, i: int|
            #![trigger panes[t]@[i]]
            panes.contains_key(t) && 0 <= i < panes[t]@.len() ==> !(panes[t]@[i].is_plugin
                && panes[t]@[i].id == own_id),
{
    if found is Some {
        let (t, i) = choose|t: usize, i: int|
            #![trigger panes.contains_key(t), panes[t]@[i]]
            panes.contains_key(t) && instance_at(panes[t]@, own_id, i)
                && option_text(panes[t]@[i].plugin_url) == found->0;
        assert forall|j: int| 0 <= j < i implies !((#[trigger] panes[t]@[j]).is_plugin
            && panes[t]@[j].id == own_id) by {
            assert(!is_instance(panes[t]@[j], own_id));
        }
        (t, i)
    } else {
        assert forall|t: usize, i: int|
            #![trigger panes[t]@[i]]
            panes.contains_key(t) && 0 <= i < panes[t]@.len() implies !(panes[t]@[i].is_plugin
            && panes[t]@[i].id == own_id) by {
            assert(panes.contains_key(t));
            assert(!is_instance(panes[t]@[i], own_id));
        }
        (0usize, 0int)
    }
}

/// What was found is found as text.
pub proof fn law_found_text(url: String)
    ensures
        found_text(None) is None,
        found_text(Some(None)) == Some(None::<Seq<char>>),
        found_text(Some(Some(url))) == Some(Some(url@)),
        option_text(None) is None,
        option_text(Some(url)) == Some(url@),
{
}

} // verus!
