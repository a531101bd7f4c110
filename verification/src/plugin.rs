//! An instance of the plugin: how it reacts to the host's events and to messages,
//! and what it tells the other instances.
//!
//! The host's services are not called from here. What is to be done outside is
//! handed back to the caller, as actions and messages.

use crate::clock::{local_now, Timestamp};
use crate::config::{
    fresh_state, text_table, CommandResult, CommandResultView, ModeInfo,
    ModuleConfig, PaneInfo, PaneManifest, SessionInfo, TabInfo, UpdateEventMask, ZellijState,
    ZellijStateView,
};
use crate::identity::{new_uuid, random_uuid_text};
use crate::pipe::{
    admissible, carry_out, lemma_no_statuses, lemma_panes_kept, lines_alter, lines_effect,
    request_line, sync_line,
};
use crate::statuses::{
    deserialize_tab_statuses, drop_status, keys_in_order, lists, ordered_keys, parse_statuses, render_statuses,
    serialize_tab_statuses, status_map,
};
use crate::statuses_laws::lemma_listing_exists;
use crate::text::{chars_of, same_text, split, text_of_bytes};
use crate::text_map::TextMap;
use std::collections::BTreeMap;
use vstd::prelude::*;
use vstd::std_specs::iter::IteratorSpec;
use vstd::string::StringExecFns;
use vstd::utf8::{decode_utf8, valid_utf8};

verus! {

/// What a user did with the mouse; lines and columns are those of the bar.
#[derive(Clone, Copy, Debug, PartialEq, Eq, Structural)]
pub enum Mouse {
    ScrollUp(usize),
    ScrollDown(usize),
    LeftClick(isize, usize),
    RightClick(isize, usize),
    Hold(isize, usize),
    Release(isize, usize),
    Hover(isize, usize),
}

/// The user's answer to a request for permissions.
#[derive(Clone, Copy, Debug, PartialEq, Eq, Structural)]
pub enum PermissionStatus {
    Granted,
    Denied,
}

/// What the host tells the plugin.
pub enum Event {
    Mouse(Mouse),
    ModeUpdate(ModeInfo),
    PaneUpdate(PaneManifest),
    PermissionRequestResult(PermissionStatus),
    RunCommandResult {
        exit_code: Option<i32>,
        stdout: Vec<u8>,
        stderr: Vec<u8>,
        context: TextMap<String>,
    },
    SessionUpdate(Vec<SessionInfo>),
    TabUpdate(Vec<TabInfo>),
    /// Anything else.
    Other,
}

/// A message of the protocol for one other instance.
#[derive(Debug)]
pub struct PluginMessage {
    pub destination: u32,
    pub payload: String,
}

/// What an event asks of the caller, to be done before the next event is handled.
#[derive(Debug)]
pub enum Action {
    /// Hand the mouse event to the widgets.
    HandleMouse(Mouse),
    /// Hide or show frames by the state's tabs, panes and mode.
    HideFrames(ModuleConfig),
    /// Hide or show frames by the tabs and panes of the session at this place in the
    /// state's sessions, and by the state's mode.
    HideSessionFrames(ModuleConfig, usize),
    /// Let the user select the bar's pane, or not.
    SetSelectable(bool),
    /// Send a message to another instance.
    Send(PluginMessage),
}

/// What to draw.
#[derive(Clone, Copy, Debug, PartialEq, Eq, Structural)]
pub enum Drawing {
    Nothing,
    /// The error that the configuration gave.
    Error,
    Bar,
}

/// The kinds of widgets.
#[derive(Clone, Copy, Debug, PartialEq, Eq, Structural)]
pub enum WidgetKind {
    Command,
    DateTime,
    Pipe,
    SwapLayout,
    Mode,
    Session,
    Tabs,
    Notification,
}

/// An instance of the plugin.
pub struct State {
    /// Events that came before the permissions, in the order in which they came.
    pub pending_events: Vec<Event>,
    pub got_permissions: bool,
    pub state: ZellijState,
    pub userspace_configuration: TextMap<String>,
    pub module_config: ModuleConfig,
    pub widget_map: TextMap<WidgetKind>,
    /// What is wrong with the configuration.
    pub err: Option<String>,
    /// Where this plugin was loaded from, once it has found its own pane.
    pub plugin_url: Option<String>,
    pub prev_tab_count: usize,
    /// Whether saved statuses were looked for.
    pub statuses_loaded: bool,
}

/// The contents of an optional text.
pub open spec fn option_text(s: Option<String>) -> Option<Seq<char>> {
    match s {
        Some(text) => Some(text@),
        None => None,
    }
}

/// Where the own pane says that the plugin was loaded from, as text.
pub open spec fn found_text(found: Option<Option<String>>) -> Option<Option<Seq<char>>> {
    match found {
        Some(url) => Some(option_text(url)),
        None => None,
    }
}

/// The contents of an action.
pub enum ActionView {
    HandleMouse(Mouse),
    HideFrames(ModuleConfig),
    HideSessionFrames(ModuleConfig, nat),
    SetSelectable(bool),
    Send { destination: u32, payload: Seq<char> },
}

impl View for Action {
    type V = ActionView;

    open spec fn view(&self) -> ActionView {
        match *self {
            Action::HandleMouse(mouse) => ActionView::HandleMouse(mouse),
            Action::HideFrames(config) => ActionView::HideFrames(config),
            Action::HideSessionFrames(config, i) => ActionView::HideSessionFrames(
                config,
                i as nat,
            ),
            Action::SetSelectable(on) => ActionView::SetSelectable(on),
            Action::Send(m) => ActionView::Send { destination: m.destination, payload: m.payload@ },
        }
    }
}

/// The contents of a list of actions.
pub open spec fn action_views(actions: Seq<Action>) -> Seq<ActionView> {
    actions.map_values(|a: Action| a@)
}

/// The contents of a list of messages.
pub open spec fn message_views(messages: Seq<PluginMessage>) -> Seq<(u32, Seq<char>)> {
    messages.map_values(|m: PluginMessage| (m.destination, m.payload@))
}

/// The contents of an instance.
#[verifier::ext_equal]
pub struct StateView {
    pub pending_events: Seq<Event>,
    pub got_permissions: bool,
    pub state: ZellijStateView,
    pub userspace_configuration: Map<Seq<char>, Seq<char>>,
    pub module_config: ModuleConfig,
    pub widget_map: Map<Seq<char>, WidgetKind>,
    pub err: Option<Seq<char>>,
    pub plugin_url: Option<Seq<char>>,
    pub prev_tab_count: usize,
    pub statuses_loaded: bool,
}

impl View for State {
    type V = StateView;

    open spec fn view(&self) -> StateView {
        StateView {
            pending_events: self.pending_events@,
            got_permissions: self.got_permissions,
            state: self.state@,
            userspace_configuration: text_table(self.userspace_configuration@),
            module_config: self.module_config,
            widget_map: self.widget_map@,
            err: option_text(self.err),
            plugin_url: option_text(self.plugin_url),
            prev_tab_count: self.prev_tab_count,
            statuses_loaded: self.statuses_loaded,
        }
    }
}

/// The pane of the plugin instance `id`.
pub open spec fn is_instance(pane: PaneInfo, id: u32) -> bool {
    pane.is_plugin && pane.id == id
}

/// `i` is the first place at which the pane of the instance `id` stands.
pub open spec fn instance_at(panes: Seq<PaneInfo>, id: u32, i: int) -> bool {
    &&& 0 <= i < panes.len()
    &&& is_instance(panes[i], id)
    &&& forall|j: int| 0 <= j < i ==> !is_instance(#[trigger] panes[j], id)
}

/// `found` is what the pane of the instance `id` says of where the plugin was loaded
/// from, in a tab that has this pane; or no tab has it.
pub open spec fn finds_self(
    panes: Map<usize, Vec<PaneInfo>>,
    id: u32,
    found: Option<Option<Seq<char>>>,
) -> bool {
    match found {
        Some(url) => exists|t: usize, i: int|
            #![trigger panes.contains_key(t), panes[t]@[i]]
            panes.contains_key(t) && instance_at(panes[t]@, id, i) && option_text(
                panes[t]@[i].plugin_url,
            ) == url,
        None => forall|t: usize, i: int|
            #![trigger panes.contains_key(t), panes[t]@[i]]
            panes.contains_key(t) && 0 <= i < panes[t]@.len() ==> !is_instance(panes[t]@[i], id),
    }
}

/// Another instance of the plugin that was loaded from `url`.
pub open spec fn is_sibling(pane: PaneInfo, url: Seq<char>, own_id: u32) -> bool {
    &&& pane.is_plugin
    &&& pane.id != own_id
    &&& option_text(pane.plugin_url) == Some(url)
}

/// The other instances in one tab, in the order of its panes.
pub open spec fn tab_siblings(panes: Seq<PaneInfo>, url: Seq<char>, own_id: u32) -> Seq<u32>
    decreases panes.len(),
{
    if panes.len() == 0 {
        Seq::empty()
    } else {
        let front = tab_siblings(panes.drop_last(), url, own_id);
        if is_sibling(panes.last(), url, own_id) {
            front.push(panes.last().id)
        } else {
            front
        }
    }
}

/// The other instances, tab by tab in the order `walk`.
pub open spec fn walk_siblings(
    panes: Map<usize, Vec<PaneInfo>>,
    walk: Seq<usize>,
    url: Seq<char>,
    own_id: u32,
) -> Seq<u32>
    decreases walk.len(),
{
    if walk.len() == 0 {
        Seq::empty()
    } else {
        walk_siblings(panes, walk.drop_last(), url, own_id) + tab_siblings(
            panes[walk.last()]@,
            url,
            own_id,
        )
    }
}

/// `walk` goes to each tab once.
pub open spec fn walks(panes: Map<usize, Vec<PaneInfo>>, walk: Seq<usize>) -> bool {
    &&& walk.no_duplicates()
    &&& forall|t: usize| #[trigger] panes.contains_key(t) <==> walk.contains(t)
}

/// `ids` lists the other instances of the plugin that was loaded from `url`, tab by
/// tab in some order. An instance that does not know where it was loaded from knows
/// of none.
pub open spec fn lists_siblings(
    panes: Map<usize, Vec<PaneInfo>>,
    url: Option<Seq<char>>,
    own_id: u32,
    ids: Seq<u32>,
) -> bool {
    match url {
        Some(u) => exists|walk: Seq<usize>|
            #[trigger] walks(panes, walk) && ids == walk_siblings(panes, walk, u, own_id),
        None => ids.len() == 0,
    }
}

/// The same text for each of the instances `ids`.
pub open spec fn messages_to(ids: Seq<u32>, payload: Seq<char>) -> Seq<(u32, Seq<char>)> {
    ids.map_values(|id: u32| (id, payload))
}

/// Sending the same text to each of the instances `ids`.
pub open spec fn sends_to(ids: Seq<u32>, payload: Seq<char>) -> Seq<ActionView> {
    ids.map_values(|id: u32| ActionView::Send { destination: id, payload })
}

/// A tab stands at position `k`.
pub open spec fn has_position(tabs: Seq<TabInfo>, k: usize) -> bool {
    exists|i: int| 0 <= i < tabs.len() && (#[trigger] tabs[i]).position == k
}

/// The statuses of those tabs that are still there.
pub open spec fn retained(
    statuses: Map<usize, Seq<char>>,
    tabs: Seq<TabInfo>,
) -> Map<usize, Seq<char>> {
    statuses.restrict(Set::new(|k: usize| has_position(tabs, k)))
}

/// `i` is the first place at which the current session stands.
pub open spec fn current_session(sessions: Seq<SessionInfo>, i: int) -> bool {
    &&& 0 <= i < sessions.len()
    &&& sessions[i].is_current_session
    &&& forall|j: int| 0 <= j < i ==> !(#[trigger] sessions[j]).is_current_session
}

/// The output of a command as text: nothing if it is no UTF-8.
pub open spec fn output_text(bytes: Seq<u8>) -> Seq<char> {
    if valid_utf8(bytes) {
        decode_utf8(bytes)
    } else {
        Seq::empty()
    }
}

/// What `handle_event` finds out before it reacts: where the own pane says that the
/// plugin was loaded from, and which the other instances are.
pub open spec fn event_findings(
    s: StateView,
    event: Event,
    own_id: u32,
    found: Option<Option<Seq<char>>>,
    ids: Seq<u32>,
) -> bool {
    match event {
        Event::PaneUpdate(manifest) => s.plugin_url is None ==> {
            &&& finds_self(manifest.panes@, own_id, found)
            &&& match found {
                Some(url) => lists_siblings(manifest.panes@, url, own_id, ids),
                None => true,
            }
        },
        Event::TabUpdate(tabs) => lists_siblings(s.state.panes.panes@, s.plugin_url, own_id, ids),
        _ => true,
    }
}

/// How an instance reacts to an event: its state afterwards, whether the bar is to be
/// drawn again, and what else is to be done. `found` and `ids` are its findings.
pub open spec fn reaction(
    s: StateView,
    event: Event,
    found: Option<Option<Seq<char>>>,
    ids: Seq<u32>,
) -> (StateView, bool, Seq<ActionView>) {
    match event {
        Event::Mouse(mouse) => (s, false, seq![ActionView::HandleMouse(mouse)]),
        Event::ModeUpdate(mode) => (
            StateView {
                state: ZellijStateView { mode, cache_mask: UpdateEventMask::Mode, ..s.state },
                ..s
            },
            true,
            seq![],
        ),
        Event::PaneUpdate(panes) => {
            let state = ZellijStateView { panes, cache_mask: UpdateEventMask::Tab, ..s.state };
            let hide = seq![ActionView::HideFrames(s.module_config)];
            match (s.plugin_url, found) {
                (None, Some(url)) => (
                    StateView { state, plugin_url: url, ..s },
                    true,
                    hide + sends_to(ids, request_line()),
                ),
                _ => (StateView { state, ..s }, true, hide),
            }
        },
        Event::PermissionRequestResult(_) => (s, false, seq![ActionView::SetSelectable(false)]),
        Event::RunCommandResult { exit_code, stdout, stderr, context } => {
            let table = text_table(context@);
            let result = CommandResultView {
                exit_code,
                stdout: output_text(stdout@),
                stderr: output_text(stderr@),
                context: table,
            };
            let command_results = if table.contains_key("name"@) {
                s.state.command_results.insert(table["name"@], result)
            } else {
                s.state.command_results
            };
            (
                StateView {
                    state: ZellijStateView {
                        command_results,
                        cache_mask: UpdateEventMask::Command,
                        ..s.state
                    },
                    ..s
                },
                false,
                seq![],
            )
        },
        Event::SessionUpdate(sessions) => (
            StateView {
                state: ZellijStateView {
                    sessions: sessions@,
                    cache_mask: UpdateEventMask::Session,
                    ..s.state
                },
                ..s
            },
            true,
            if exists|i: int| current_session(sessions@, i) {
                let i = choose|i: int| current_session(sessions@, i);
                seq![ActionView::HideSessionFrames(s.module_config, i as nat)]
            } else {
                seq![]
            },
        ),
        Event::TabUpdate(tabs) => {
            let statuses = retained(s.state.tab_statuses, tabs@);
            (
                StateView {
                    state: ZellijStateView {
                        tabs: tabs@,
                        cache_mask: UpdateEventMask::Tab,
                        tab_statuses: statuses,
                        ..s.state
                    },
                    prev_tab_count: tabs.len(),
                    ..s
                },
                true,
                if tabs@.len() > s.prev_tab_count && !statuses.is_empty() {
                    sends_to(ids, sync_line(statuses))
                } else {
                    seq![]
                },
            )
        },
        Event::Other => (s, false, seq![]),
    }
}

/// The names of the widgets.
pub open spec fn widget_names() -> Map<Seq<char>, WidgetKind> {
    Map::<Seq<char>, WidgetKind>::empty().insert("command"@, WidgetKind::Command).insert(
        "datetime"@,
        WidgetKind::DateTime,
    ).insert("pipe"@, WidgetKind::Pipe).insert("swap_layout"@, WidgetKind::SwapLayout).insert(
        "mode"@,
        WidgetKind::Mode,
    ).insert("session"@, WidgetKind::Session).insert("tabs"@, WidgetKind::Tabs).insert(
        "notifications"@,
        WidgetKind::Notification,
    )
}

/// The widgets by the names under which the configuration speaks of them.
pub fn register_widgets() -> (widgets: TextMap<WidgetKind>)
    ensures
        widgets@ == widget_names(),
{
    let mut widgets: TextMap<WidgetKind> = TextMap::new();
    widgets.insert("command".to_owned(), WidgetKind::Command);
    widgets.insert("datetime".to_owned(), WidgetKind::DateTime);
    widgets.insert("pipe".to_owned(), WidgetKind::Pipe);
    widgets.insert("swap_layout".to_owned(), WidgetKind::SwapLayout);
    widgets.insert("mode".to_owned(), WidgetKind::Mode);
    widgets.insert("session".to_owned(), WidgetKind::Session);
    widgets.insert("tabs".to_owned(), WidgetKind::Tabs);
    widgets.insert("notifications".to_owned(), WidgetKind::Notification);
    widgets
}

fn find_instance(panes: &Vec<PaneInfo>, id: u32) -> (at: Option<usize>)
    ensures
        match at {
            Some(i) => instance_at(panes@, id, i as int),
            None => forall|i: int| 0 <= i < panes@.len() ==> !is_instance(#[trigger] panes@[i], id),
        },
{
    let mut i: usize = 0;
    while i < panes.len()
        invariant
            i <= panes@.len(),
            forall|j: int| 0 <= j < i ==> !is_instance(#[trigger] panes@[j], id),
        decreases panes@.len() - i,
    {
        if panes[i].is_plugin && panes[i].id == id {
            return Some(i);
        }
        i += 1;
    }
    None
}

/// Looks for the pane of the instance `id`, and for what it says of where the plugin
/// was loaded from.
pub fn find_own_url(manifest: &PaneManifest, id: u32) -> (found: Option<Option<String>>)
    ensures
        finds_self(manifest.panes@, id, found_text(found)),
{
    let iter = manifest.panes.iter();
    let ghost all = iter.remaining();
    let ghost m = manifest.panes@;
    for entry in it: iter
        invariant
            it.seq() == all,
            m == manifest.panes@,
            forall|i: int|
                0 <= i < all.len() ==> m.contains_key(*(#[trigger] all[i]).0) && m[*all[i].0]
                    == *all[i].1,
            forall|n: int, i: int|
                #![trigger all[n].1@[i]]
                0 <= n < it.index() && 0 <= i < all[n].1@.len() ==> !is_instance(
                    all[n].1@[i],
                    id,
                ),
    {
        match find_instance(entry.1, id) {
            Some(i) => {
                let url = match &entry.1[i].plugin_url {
                    Some(text) => Some(text.clone()),
                    None => None,
                };
                proof {
                    let t = *entry.0;
                    assert(m.contains_key(t));
                    assert(m[t]@[i as int] == entry.1@[i as int]);
                }
                return Some(url);
            },
            None => {},
        }
    }
    proof {
        assert forall|t: usize, i: int|
            #![trigger m.contains_key(t), m[t]@[i]]
            m.contains_key(t) && 0 <= i < m[t]@.len() implies !is_instance(m[t]@[i], id) by {
            assert(all.contains((&t, &m[t])));
            let n = choose|n: int| 0 <= n < all.len() && all[n] == (&t, &m[t]);
            assert(!is_instance(all[n].1@[i], id));
        }
    }
    None
}

fn push_tab_siblings(panes: &Vec<PaneInfo>, url: &str, own_id: u32, ids: &mut Vec<u32>)
    ensures
        final(ids)@ == old(ids)@ + tab_siblings(panes@, url@, own_id),
{
    let mut i: usize = 0;
    assert(panes@.take(0) =~= Seq::<PaneInfo>::empty());
    assert(ids@ =~= old(ids)@ + tab_siblings(panes@.take(0), url@, own_id));
    while i < panes.len()
        invariant
            i <= panes@.len(),
            ids@ == old(ids)@ + tab_siblings(panes@.take(i as int), url@, own_id),
        decreases panes@.len() - i,
    {
        let pane = &panes[i];
        assert(panes@.take(i + 1).drop_last() =~= panes@.take(i as int));
        assert(panes@.take(i + 1).last() == *pane);
        if pane.is_plugin && pane.id != own_id {
            match &pane.plugin_url {
                Some(other) => {
                    if same_text(other.as_str(), url) {
                        ids.push(pane.id);
                        assert(is_sibling(*pane, url@, own_id));
                    }
                },
                None => {},
            }
        }
        assert(ids@ =~= old(ids)@ + tab_siblings(panes@.take(i + 1), url@, own_id));
        i += 1;
    }
    assert(panes@.take(panes@.len() as int) =~= panes@);
}

/// The other instances of the plugin that was loaded from `url`.
pub fn list_siblings(manifest: &PaneManifest, url: &Option<String>, own_id: u32) -> (ids: Vec<u32>)
    ensures
        lists_siblings(manifest.panes@, option_text(*url), own_id, ids@),
{
    let mut ids: Vec<u32> = Vec::new();
    match url {
        None => {},
        Some(own_url) => {
            let iter = manifest.panes.iter();
            let ghost all = iter.remaining();
            let ghost m = manifest.panes@;
            let ghost walk = all.map_values(|kv: (&usize, &Vec<PaneInfo>)| *kv.0);
            for entry in it: iter
                invariant
                    it.seq() == all,
                    m == manifest.panes@,
                    walk == all.map_values(|kv: (&usize, &Vec<PaneInfo>)| *kv.0),
                    forall|i: int|
                        0 <= i < all.len() ==> m.contains_key(*(#[trigger] all[i]).0)
                            && m[*all[i].0] == *all[i].1,
                    ids@ == walk_siblings(m, walk.take(it.index() as int), own_url@, own_id),
            {
                let ghost n = it.index() as int;
                push_tab_siblings(entry.1, own_url.as_str(), own_id, &mut ids);
                proof {
                    assert(walk.take(n + 1).drop_last() =~= walk.take(n));
                    assert(walk.take(n + 1).last() == *entry.0);
                    assert(m[*entry.0] == *entry.1);
                }
            }
            proof {
                assert(walk.take(all.len() as int) =~= walk);
                lemma_walk(m, all, walk);
            }
        },
    }
    ids
}

/// The keys of a table's entries, listed once each, walk the table.
proof fn lemma_walk(
    m: Map<usize, Vec<PaneInfo>>,
    all: Seq<(&usize, &Vec<PaneInfo>)>,
    walk: Seq<usize>,
)
    requires
        walk == all.map_values(|kv: (&usize, &Vec<PaneInfo>)| *kv.0),
        all.no_duplicates(),
        forall|i: int|
            0 <= i < all.len() ==> m.contains_key(*(#[trigger] all[i]).0) && m[*all[i].0]
                == *all[i].1,
        forall|k: usize| #[trigger] m.contains_key(k) ==> all.contains((&k, &m[k])),
    ensures
        walks(m, walk),
{
    assert forall|i: int, j: int| 0 <= i < walk.len() && 0 <= j < walk.len() && i != j implies walk[i]
        != walk[j] by {
        if walk[i] == walk[j] {
            assert(all[i] == all[j]);
        }
    }
    assert forall|t: usize| #[trigger] m.contains_key(t) <==> walk.contains(t) by {
        if m.contains_key(t) {
            let n = choose|n: int| 0 <= n < all.len() && all[n] == (&t, &m[t]);
            assert(walk[n] == t);
        }
        if walk.contains(t) {
            let n = choose|n: int| 0 <= n < walk.len() && walk[n] == t;
            assert(m.contains_key(*all[n].0));
        }
    }
}

/// The other instances can be listed.
proof fn lemma_siblings_listed(
    panes: Map<usize, Vec<PaneInfo>>,
    url: Option<Seq<char>>,
    own_id: u32,
) -> (ids: Seq<u32>)
    requires
        panes.dom().finite(),
    ensures
        lists_siblings(panes, url, own_id, ids),
{
    let walk = ordered_keys(panes.dom());
    lemma_listing_exists(panes.dom());
    assert forall|t: usize| #[trigger] panes.contains_key(t) <==> walk.contains(t) by {
        assert(panes.dom().contains(t) <==> walk.contains(t));
    }
    assert(walks(panes, walk));
    match url {
        Some(u) => walk_siblings(panes, walk, u, own_id),
        None => Seq::empty(),
    }
}

/// Addresses `payload` to each of the instances `ids`.
pub fn address(ids: &Vec<u32>, payload: &str) -> (messages: Vec<PluginMessage>)
    ensures
        message_views(messages@) == messages_to(ids@, payload@),
{
    let mut messages: Vec<PluginMessage> = Vec::new();
    let mut i: usize = 0;
    while i < ids.len()
        invariant
            i <= ids@.len(),
            messages@.len() == i,
            forall|j: int|
                0 <= j < i ==> (#[trigger] messages@[j]).destination == ids@[j]
                    && messages@[j].payload@ == payload@,
        decreases ids@.len() - i,
    {
        messages.push(PluginMessage { destination: ids[i], payload: payload.to_owned() });
        i += 1;
    }
    assert(message_views(messages@) =~= messages_to(ids@, payload@));
    messages
}

fn push_sends(actions: &mut Vec<Action>, ids: &Vec<u32>, payload: &str)
    ensures
        action_views(final(actions)@) == action_views(old(actions)@) + sends_to(ids@, payload@),
{
    let ghost before = action_views(actions@);
    let ghost sends = sends_to(ids@, payload@);
    let mut i: usize = 0;
    assert(before =~= before + sends.take(0));
    while i < ids.len()
        invariant
            i <= ids@.len(),
            sends == sends_to(ids@, payload@),
            action_views(actions@) == before + sends.take(i as int),
        decreases ids@.len() - i,
    {
        let ghost was = actions@;
        let message = PluginMessage { destination: ids[i], payload: payload.to_owned() };
        actions.push(Action::Send(message));
        assert(action_views(actions@) =~= action_views(was).push(sends[i as int]));
        assert(sends.take(i + 1) =~= sends.take(i as int).push(sends[i as int]));
        assert(action_views(actions@) =~= before + sends.take(i + 1));
        i += 1;
    }
    assert(sends.take(sends.len() as int) =~= sends);
}

/// Whether a tab stands at position `k`.
fn is_position(tabs: &Vec<TabInfo>, k: usize) -> (found: bool)
    ensures
        found == has_position(tabs@, k),
{
    let mut i: usize = 0;
    while i < tabs.len()
        invariant
            i <= tabs@.len(),
            forall|j: int| 0 <= j < i ==> (#[trigger] tabs@[j]).position != k,
        decreases tabs@.len() - i,
    {
        if tabs[i].position == k {
            return true;
        }
        i += 1;
    }
    false
}

/// Drops the statuses of tabs that are gone.
fn retain_statuses(map: &mut BTreeMap<usize, String>, tabs: &Vec<TabInfo>)
    ensures
        status_map(final(map)@) == retained(status_map(old(map)@), tabs@),
{
    let keys = keys_in_order(map);
    let ghost m = status_map(map@);
    assert(m.dom() =~= map@.dom());
    let mut i: usize = 0;
    while i < keys.len()
        invariant
            i <= keys@.len(),
            lists(keys@, m.dom()),
            forall|k: usize| #[trigger]
                status_map(map@).contains_key(k) <==> m.contains_key(k) && (has_position(tabs@, k)
                    || !keys@.take(i as int).contains(k)),
            forall|k: usize| #[trigger]
                status_map(map@).contains_key(k) ==> status_map(map@)[k] == m[k],
        decreases keys@.len() - i,
    {
        let k = keys[i];
        let ghost before = status_map(map@);
        let stays = is_position(tabs, k);
        if !stays {
            drop_status(map, k);
        }
        assert forall|j: usize| #[trigger]
            status_map(map@).contains_key(j) <==> m.contains_key(j) && (has_position(tabs@, j)
                || !keys@.take(i + 1).contains(j)) by {
            let some = keys@.take(i as int);
            let more = keys@.take(i + 1);
            if more.contains(j) {
                let n = choose|n: int| 0 <= n < more.len() && more[n] == j;
                if n < i {
                    assert(some[n] == j);
                }
            }
            if some.contains(j) {
                let n = choose|n: int| 0 <= n < some.len() && some[n] == j;
                assert(more[n] == j);
            }
            assert(more[i as int] == k);
            assert(before.contains_key(j) <==> m.contains_key(j) && (has_position(tabs@, j)
                || !some.contains(j)));
        }
        i += 1;
    }
    proof {
        let after = status_map(map@);
        let want = retained(m, tabs@);
        assert(keys@.take(keys@.len() as int) =~= keys@);
        assert forall|k: usize| after.contains_key(k) <==> want.contains_key(k) by {
            assert(m.dom().contains(k) <==> keys@.contains(k));
        }
        assert(after =~= want);
    }
}

/// The first current session.
fn find_current(sessions: &Vec<SessionInfo>) -> (at: Option<usize>)
    ensures
        match at {
            Some(i) => current_session(sessions@, i as int),
            None => forall|i: int| !current_session(sessions@, i),
        },
{
    let mut i: usize = 0;
    while i < sessions.len()
        invariant
            i <= sessions@.len(),
            forall|j: int| 0 <= j < i ==> !(#[trigger] sessions@[j]).is_current_session,
        decreases sessions@.len() - i,
    {
        if sessions[i].is_current_session {
            return Some(i);
        }
        i += 1;
    }
    None
}

/// The output of a command as text.
fn output_of(bytes: Vec<u8>) -> (text: String)
    ensures
        text@ == output_text(bytes@),
{
    match text_of_bytes(bytes) {
        Some(text) => text,
        None => String::new(),
    }
}

/// The line that tells statuses to other instances.
fn sync_text(map: &BTreeMap<usize, String>) -> (line: String)
    ensures
        line@ == sync_line(status_map(map@)),
{
    let mut line = "zjstatus::status_sync::".to_owned();
    let json = serialize_tab_statuses(map);
    line.append(json.as_str());
    line
}

/// Where the statuses of a session are kept. A session without a name has no place.
/// A name that is an absolute path stands for itself.
pub open spec fn path_of(session_name: Option<Seq<char>>) -> Option<Seq<char>> {
    match session_name {
        Some(name) => if name.len() == 0 {
            None
        } else if name.first() == '/' {
            Some(name + ".json"@)
        } else {
            Some("/host/.cache/zjstatus/"@ + name + ".json"@)
        },
        None => None,
    }
}

/// An instance after loading: a fresh state, unless the configuration was wrong, of
/// which then nothing but the error is kept.
pub open spec fn loads(
    s: StateView,
    configuration: Map<Seq<char>, Seq<char>>,
    config: Result<ModuleConfig, String>,
    plugin_uuid: Seq<char>,
    now: Timestamp,
    after: StateView,
) -> bool {
    match config {
        Err(error) => after == (StateView { err: Some(error@), ..s }),
        Ok(module_config) => {
            &&& fresh_state(plugin_uuid, now, after.state)
            &&& after == (StateView {
                pending_events: Seq::empty(),
                got_permissions: false,
                state: after.state,
                userspace_configuration: configuration,
                module_config,
                widget_map: widget_names(),
                ..s
            })
        },
    }
}

/// The messages that tell the statuses of an instance to the others, whatever they are:
/// none if it does not know where it was loaded from.
pub open spec fn telling(s: StateView, ids: Seq<u32>) -> Seq<(u32, Seq<char>)> {
    if s.plugin_url is None {
        Seq::empty()
    } else {
        messages_to(ids, sync_line(s.state.tab_statuses))
    }
}

/// The messages that tell the statuses of an instance to the others, if there are any.
/// An instance without statuses keeps silent: it may be new, and must not take the
/// others theirs.
pub open spec fn broadcast(s: StateView, ids: Seq<u32>) -> Seq<(u32, Seq<char>)> {
    if s.state.tab_statuses.is_empty() {
        Seq::empty()
    } else {
        telling(s, ids)
    }
}

/// Which events are due when one comes, and which wait: until the permissions are
/// given all wait, and then the last to come is the first to be handled.
pub open spec fn due_events(s: StateView, event: Event) -> (StateView, Seq<Event>) {
    if event == Event::PermissionRequestResult(PermissionStatus::Granted) {
        (
            StateView { got_permissions: true, pending_events: Seq::empty(), ..s },
            s.pending_events.reverse().push(event),
        )
    } else if s.got_permissions {
        (s, seq![event])
    } else {
        (StateView { pending_events: s.pending_events.push(event), ..s }, Seq::empty())
    }
}

impl State {
    /// Makes ready for events: with the user's configuration, and with what could be
    /// made of it. `plugin_uuid` is to tell this instance from others, `now` is the time.
    pub fn load_with(
        &mut self,
        configuration: TextMap<String>,
        config: Result<ModuleConfig, String>,
        plugin_uuid: String,
        now: Timestamp,
    )
        ensures
            loads(
                old(self)@,
                text_table(configuration@),
                config,
                plugin_uuid@,
                now,
                final(self)@,
            ),
    {
        match config {
            Err(error) => {
                self.err = Some(error);
            },
            Ok(module_config) => {
                self.module_config = module_config;
                self.widget_map = register_widgets();
                self.userspace_configuration = configuration;
                self.pending_events = Vec::new();
                self.got_permissions = false;
                self.state = ZellijState::new(plugin_uuid, now);
            },
        }
    }

    /// Makes ready for events.
    pub fn load(
        &mut self,
        configuration: TextMap<String>,
        config: Result<ModuleConfig, String>,
    )
        ensures
            exists|plugin_uuid: Seq<char>, now: Timestamp|
                random_uuid_text(plugin_uuid) && now.current() && #[trigger] loads(
                    old(self)@,
                    text_table(configuration@),
                    config,
                    plugin_uuid,
                    now,
                    final(self)@,
                ),
    {
        let plugin_uuid = new_uuid();
        let now = local_now();
        let ghost id = plugin_uuid@;
        self.load_with(configuration, config, plugin_uuid, now);
        assert(random_uuid_text(id) && now.current());
    }

    /// Takes in an event. Gives the events that are to be handled now, in order; the
    /// answer to the last of them, if any, says whether the bar is to be drawn again.
    pub fn update(&mut self, event: Event) -> (due: Vec<Event>)
        ensures
            (final(self)@, due@) == due_events(old(self)@, event),
    {
        let granted = match &event {
            Event::PermissionRequestResult(status) => *status == PermissionStatus::Granted,
            _ => false,
        };
        let mut due: Vec<Event> = Vec::new();
        if granted {
            self.got_permissions = true;
            let ghost all = self.pending_events@;
            while self.pending_events.len() > 0
                invariant
                    self.got_permissions,
                    self@ == (StateView {
                        got_permissions: true,
                        pending_events: self.pending_events@,
                        ..old(self)@
                    }),
                    all == old(self)@.pending_events,
                    self.pending_events@.len() <= all.len(),
                    self.pending_events@ == all.take(self.pending_events@.len() as int),
                    due@ == all.skip(self.pending_events@.len() as int).reverse(),
                decreases self.pending_events@.len(),
            {
                let ghost n = self.pending_events@.len() as int;
                let next = self.pending_events.pop();
                due.push(next.unwrap());
                proof {
                    assert(all.take(n).drop_last() =~= all.take(n - 1));
                    assert(due@ =~= all.skip(n - 1).reverse());
                }
            }
            assert(all.skip(0) =~= all);
            assert(self.pending_events@ =~= Seq::empty());
        }
        if !self.got_permissions {
            self.pending_events.push(event);
            return due;
        }
        due.push(event);
        due
    }

    /// Reacts to an event. `found` is where the own pane says that the plugin was
    /// loaded from, `siblings` are the other instances.
    pub fn apply_event(
        &mut self,
        event: Event,
        found: Option<Option<String>>,
        siblings: &Vec<u32>,
    ) -> (answer: (bool, Vec<Action>))
        ensures
            (final(self)@, answer.0, action_views(answer.1@)) == reaction(
                old(self)@,
                event,
                found_text(found),
                siblings@,
            ),
    {
        let mut actions: Vec<Action> = Vec::new();
        let mut should_render = false;
        assert(action_views(actions@) =~= seq![]);
        match event {
            Event::Mouse(mouse) => {
                actions.push(Action::HandleMouse(mouse));
                assert(action_views(actions@) =~= seq![ActionView::HandleMouse(mouse)]);
            },
            Event::ModeUpdate(mode_info) => {
                self.state.mode = mode_info;
                self.state.cache_mask = UpdateEventMask::Mode;
                should_render = true;
            },
            Event::PaneUpdate(pane_info) => {
                actions.push(Action::HideFrames(self.module_config));
                assert(action_views(actions@) =~= seq![
                    ActionView::HideFrames(self.module_config),
                ]);
                self.state.panes = pane_info;
                if self.plugin_url.is_none() {
                    match found {
                        Some(url) => {
                            self.plugin_url = url;
                            push_sends(&mut actions, siblings, "zjstatus::status_request::_");
                        },
                        None => {},
                    }
                }
                self.state.cache_mask = UpdateEventMask::Tab;
                should_render = true;
            },
            Event::PermissionRequestResult(_) => {
                actions.push(Action::SetSelectable(false));
                assert(action_views(actions@) =~= seq![ActionView::SetSelectable(false)]);
            },
            Event::RunCommandResult { exit_code, stdout, stderr, context } => {
                self.state.cache_mask = UpdateEventMask::Command;
                let name = match context.get("name") {
                    Some(name) => Some(name.clone()),
                    None => None,
                };
                match name {
                    Some(name) => {
                        let result = CommandResult {
                            exit_code,
                            stdout: output_of(stdout),
                            stderr: output_of(stderr),
                            context,
                        };
                        let ghost before = self.state@.command_results;
                        let ghost view = result@;
                        let ghost key = name@;
                        self.state.command_results.insert(name, result);
                        assert(self.state@.command_results =~= before.insert(key, view));
                    },
                    None => {},
                }
            },
            Event::SessionUpdate(session_info) => {
                match find_current(&session_info) {
                    Some(i) => {
                        actions.push(Action::HideSessionFrames(self.module_config, i));
                        assert(action_views(actions@) =~= seq![
                            ActionView::HideSessionFrames(self.module_config, i as nat),
                        ]);
                        proof {
                            let j = choose|j: int| current_session(session_info@, j);
                            assert(i == j);
                        }
                    },
                    None => {},
                }
                self.state.sessions = session_info;
                self.state.cache_mask = UpdateEventMask::Session;
                should_render = true;
            },
            Event::TabUpdate(tab_info) => {
                self.state.cache_mask = UpdateEventMask::Tab;
                retain_statuses(&mut self.state.tab_statuses, &tab_info);
                proof {
                    lemma_no_statuses(self.state.tab_statuses@);
                }
                if tab_info.len() > self.prev_tab_count && !self.state.tab_statuses.is_empty() {
                    let line = sync_text(&self.state.tab_statuses);
                    push_sends(&mut actions, siblings, line.as_str());
                    assert(action_views(actions@) =~= sends_to(siblings@, line@));
                }
                self.prev_tab_count = tab_info.len();
                self.state.tabs = tab_info;
                should_render = true;
            },
            Event::Other => {},
        }
        (should_render, actions)
    }

    /// Handles an event of the host; `own_id` is the number of this instance. Gives
    /// whether the bar is to be drawn again, and what else is to be done.
    pub fn handle_event(&mut self, event: Event, own_id: u32) -> (answer: (bool, Vec<Action>))
        ensures
            exists|found: Option<Option<Seq<char>>>, ids: Seq<u32>|
                event_findings(old(self)@, event, own_id, found, ids) && (
                    final(self)@,
                    answer.0,
                    action_views(answer.1@),
                ) == #[trigger] reaction(old(self)@, event, found, ids),
    {
        let ghost before = self@;
        let mut found: Option<Option<String>> = None;
        let mut siblings: Vec<u32> = Vec::new();
        match &event {
            Event::PaneUpdate(manifest) => {
                if self.plugin_url.is_none() {
                    found = find_own_url(manifest, own_id);
                    match &found {
                        Some(url) => {
                            siblings = list_siblings(manifest, url, own_id);
                        },
                        None => {},
                    }
                }
            },
            Event::TabUpdate(_) => {
                siblings = self.sibling_plugin_ids(own_id);
            },
            _ => {},
        }
        assert(event_findings(before, event, own_id, found_text(found), siblings@));
        self.apply_event(event, found, &siblings)
    }

    /// The other instances of this plugin.
    pub fn sibling_plugin_ids(&self, own_id: u32) -> (ids: Vec<u32>)
        ensures
            lists_siblings(self@.state.panes.panes@, self@.plugin_url, own_id, ids@),
    {
        list_siblings(&self.state.panes, &self.plugin_url, own_id)
    }

    /// Addresses `payload` to the other instances.
    pub fn send_to_siblings(&self, payload: &str, own_id: u32) -> (messages: Vec<PluginMessage>)
        ensures
            exists|ids: Seq<u32>|
                lists_siblings(self@.state.panes.panes@, self@.plugin_url, own_id, ids)
                    && message_views(messages@) == #[trigger] messages_to(ids, payload@),
    {
        let ids = self.sibling_plugin_ids(own_id);
        address(&ids, payload)
    }

    /// Asks the other instances for their statuses.
    pub fn request_statuses_from_siblings(&self, own_id: u32) -> (messages: Vec<PluginMessage>)
        ensures
            exists|ids: Seq<u32>|
                lists_siblings(self@.state.panes.panes@, self@.plugin_url, own_id, ids)
                    && message_views(messages@) == #[trigger] messages_to(ids, request_line()),
    {
        let messages = self.send_to_siblings("zjstatus::status_request::_", own_id);
        proof {
            let ids = choose|ids: Seq<u32>|
                lists_siblings(self@.state.panes.panes@, self@.plugin_url, own_id, ids)
                    && message_views(messages@) == #[trigger] messages_to(
                    ids,
                    "zjstatus::status_request::_"@,
                );
            assert(message_views(messages@) == messages_to(ids, request_line()));
        }
        messages
    }

    /// Tells the statuses to the other instances, also that there are none.
    pub fn tell_statuses(&self, own_id: u32) -> (messages: Vec<PluginMessage>)
        ensures
            exists|ids: Seq<u32>|
                lists_siblings(self@.state.panes.panes@, self@.plugin_url, own_id, ids)
                    && message_views(messages@) == #[trigger] telling(self@, ids),
    {
        let ids = self.sibling_plugin_ids(own_id);
        let line = sync_text(&self.state.tab_statuses);
        let messages = address(&ids, line.as_str());
        assert(message_views(messages@) =~= telling(self@, ids@));
        messages
    }

    /// Tells the statuses to the other instances, if there are any.
    pub fn broadcast_statuses(&self, own_id: u32) -> (messages: Vec<PluginMessage>)
        ensures
            exists|ids: Seq<u32>|
                lists_siblings(self@.state.panes.panes@, self@.plugin_url, own_id, ids)
                    && message_views(messages@) == #[trigger] broadcast(self@, ids),
    {
        proof {
            lemma_no_statuses(self.state.tab_statuses@);
        }
        if self.plugin_url.is_none() || self.state.tab_statuses.is_empty() {
            let none: Vec<PluginMessage> = Vec::new();
            proof {
                let ids = lemma_siblings_listed(
                    self.state.panes.panes@,
                    self@.plugin_url,
                    own_id,
                );
                assert(message_views(none@) =~= broadcast(self@, ids));
            }
            return none;
        }
        let messages = self.tell_statuses(own_id);
        proof {
            let ids = choose|ids: Seq<u32>|
                lists_siblings(self@.state.panes.panes@, self@.plugin_url, own_id, ids)
                    && message_views(messages@) == #[trigger] telling(self@, ids);
            assert(message_views(messages@) == broadcast(self@, ids));
        }
        messages
    }

    /// Takes in a message of the protocol. Gives whether the bar is to be drawn again,
    /// and the messages for other instances.
    pub fn pipe(&mut self, payload: Option<&str>, own_id: u32) -> (answer: (
        bool,
        Vec<PluginMessage>,
    ))
        ensures
            match payload {
                None => final(self)@ == old(self)@ && !answer.0 && answer.1@.len() == 0,
                Some(input) => exists|tabs: Seq<Option<usize>>, nows: Seq<Timestamp>, ids: Seq<u32>|
                    #![trigger pipe_answer(old(self)@, input@, tabs, nows, ids)]
                    admissible(old(self)@.state.panes, split(input@, "\n"@), tabs, nows)
                        && lists_siblings(
                        old(self)@.state.panes.panes@,
                        old(self)@.plugin_url,
                        own_id,
                        ids,
                    ) && (final(self)@, answer.0, message_views(answer.1@)) == pipe_answer(
                        old(self)@,
                        input@,
                        tabs,
                        nows,
                        ids,
                    ),
            },
    {
        let mut messages: Vec<PluginMessage> = Vec::new();
        let mut should_render = false;
        match payload {
            Some(input) => {
                let ghost before = self@;
                let asks = carry_out(&mut self.state, input);
                should_render = asks.render;
                let ghost lines = split(input@, "\n"@);
                let ghost (tabs, nows) = choose|tabs: Seq<Option<usize>>, nows: Seq<Timestamp>|
                    #![trigger lines_effect(before.state, lines, tabs, nows)]
                    admissible(before.state.panes, lines, tabs, nows) && (
                        self.state@,
                        asks.render,
                        asks.tell,
                    ) == lines_effect(before.state, lines, tabs, nows) && asks.altered
                        == lines_alter(before.state, lines, tabs, nows);
                proof {
                    lemma_lines_keep_panes(before.state, lines, tabs, nows);
                }
                let ghost mut others = Seq::<u32>::empty();
                if asks.tell && asks.altered {
                    messages = self.tell_statuses(own_id);
                    proof {
                        others = choose|ids: Seq<u32>|
                            lists_siblings(self@.state.panes.panes@, self@.plugin_url, own_id, ids)
                                && message_views(messages@) == #[trigger] telling(self@, ids);
                    }
                } else if asks.tell {
                    messages = self.broadcast_statuses(own_id);
                    proof {
                        others = choose|ids: Seq<u32>|
                            lists_siblings(self@.state.panes.panes@, self@.plugin_url, own_id, ids)
                                && message_views(messages@) == #[trigger] broadcast(self@, ids);
                    }
                } else {
                    proof {
                        others = lemma_siblings_listed(
                            self.state.panes.panes@,
                            self@.plugin_url,
                            own_id,
                        );
                        assert(message_views(messages@) =~= Seq::empty());
                    }
                }
                assert((self@, should_render, message_views(messages@)) == pipe_answer(
                    before,
                    input@,
                    tabs,
                    nows,
                    others,
                ));
            },
            None => {},
        }
        (should_render, messages)
    }

    /// Makes ready to draw a bar of `cols` columns. Gives what is to be drawn.
    pub fn render(&mut self, cols: usize) -> (drawing: Drawing)
        ensures
            drawing == (if !old(self)@.got_permissions {
                Drawing::Nothing
            } else if old(self)@.err is Some {
                Drawing::Error
            } else {
                Drawing::Bar
            }),
            final(self)@ == (if drawing == Drawing::Bar {
                StateView {
                    state: ZellijStateView { cols, ..old(self)@.state },
                    ..old(self)@
                }
            } else {
                old(self)@
            }),
    {
        if !self.got_permissions {
            return Drawing::Nothing;
        }
        if self.err.is_some() {
            return Drawing::Error;
        }
        self.state.cols = cols;
        Drawing::Bar
    }

    /// Where the statuses of this session are kept.
    pub fn statuses_path(&self) -> (path: Option<String>)
        ensures
            option_text(path) == path_of(option_text(self@.state.mode.session_name)),
    {
        match &self.state.mode.session_name {
            Some(name) => {
                let cs = chars_of(name.as_str());
                if cs.len() == 0 {
                    return None;
                }
                let mut path = String::new();
                if cs[0] != '/' {
                    path.append("/host/.cache/zjstatus/");
                }
                path.append(name.as_str());
                path.append(".json");
                assert(path@ =~= path_of(Some(name@))->0);
                Some(path)
            },
            None => None,
        }
    }

    /// What is to be written to keep the statuses: the place, and the text for it.
    pub fn save_statuses(&self) -> (file: Option<(String, String)>)
        ensures
            match file {
                Some(f) => path_of(option_text(self@.state.mode.session_name)) == Some(f.0@)
                    && f.1@ == render_statuses(self@.state.tab_statuses),
                None => path_of(option_text(self@.state.mode.session_name)) is None,
            },
    {
        match self.statuses_path() {
            Some(path) => Some((path, serialize_tab_statuses(&self.state.tab_statuses))),
            None => None,
        }
    }

    /// Takes over kept statuses from `content`, the text that was found in their place,
    /// if any. Text that cannot be read, or that has no statuses, changes nothing.
    pub fn load_statuses(&mut self, content: Option<&str>)
        ensures
            final(self)@ == (match (
                path_of(option_text(old(self)@.state.mode.session_name)),
                content,
            ) {
                (Some(_), Some(text)) => after_loading(old(self)@, text@),
                _ => old(self)@,
            }),
    {
        if self.statuses_path().is_none() {
            return ;
        }
        match content {
            Some(text) => match deserialize_tab_statuses(text) {
                Some(loaded) => {
                    proof {
                        lemma_no_statuses(loaded@);
                    }
                    if !loaded.is_empty() {
                        self.state.tab_statuses = loaded;
                    }
                },
                None => {},
            },
            None => {},
        }
    }
}

/// An instance after it took over the statuses that were kept as `text`.
pub open spec fn after_loading(s: StateView, text: Seq<char>) -> StateView {
    match parse_statuses(text) {
        Some(statuses) => if statuses.is_empty() {
            s
        } else {
            StateView { state: ZellijStateView { tab_statuses: statuses, ..s.state }, ..s }
        },
        None => s,
    }
}

/// What a message does to an instance: its state afterwards, whether the bar is to be
/// drawn again, and the messages for the other instances `ids`. Statuses that the message
/// set or cleared are told even if none is left.
pub open spec fn pipe_answer(
    s: StateView,
    input: Seq<char>,
    tabs: Seq<Option<usize>>,
    nows: Seq<Timestamp>,
    ids: Seq<u32>,
) -> (StateView, bool, Seq<(u32, Seq<char>)>) {
    let done = lines_effect(s.state, split(input, "\n"@), tabs, nows);
    let after = StateView { state: done.0, ..s };
    (
        after,
        done.1,
        if done.2 && lines_alter(s.state, split(input, "\n"@), tabs, nows) {
            telling(after, ids)
        } else if done.2 {
            broadcast(after, ids)
        } else {
            Seq::empty()
        },
    )
}

/// Lines never change what is known of the panes.
proof fn lemma_lines_keep_panes(
    s: ZellijStateView,
    lines: Seq<Seq<char>>,
    tabs: Seq<Option<usize>>,
    nows: Seq<Timestamp>,
)
    ensures
        lines_effect(s, lines, tabs, nows).0.panes == s.panes,
    decreases lines.len(),
{
    if lines.len() > 0 {
        let before = lines_effect(s, lines.drop_last(), tabs.drop_last(), nows.drop_last());
        lemma_lines_keep_panes(s, lines.drop_last(), tabs.drop_last(), nows.drop_last());
        lemma_panes_kept(before.0, lines.last(), tabs.last(), nows.last());
    }
}

impl Default for State {
    fn default() -> (instance: State)
        ensures
            fresh_state(Seq::empty(), (Timestamp { secs: 0, nanos: 0 }), instance@.state),
            instance@ == (StateView {
                pending_events: Seq::empty(),
                got_permissions: false,
                state: instance@.state,
                userspace_configuration: Map::empty(),
                module_config: ModuleConfig {
                    hide_frame_for_single_pane: false,
                    hide_frame_except_for_search: false,
                    hide_frame_except_for_fullscreen: false,
                    hide_frame_except_for_scroll: false,
                },
                widget_map: Map::empty(),
                err: None,
                plugin_url: None,
                prev_tab_count: 0,
                statuses_loaded: false,
            }),
    {
        let instance = State {
            pending_events: Vec::new(),
            got_permissions: false,
            state: ZellijState::default(),
            userspace_configuration: TextMap::new(),
            module_config: ModuleConfig {
                hide_frame_for_single_pane: false,
                hide_frame_except_for_search: false,
                hide_frame_except_for_fullscreen: false,
                hide_frame_except_for_scroll: false,
            },
            widget_map: TextMap::new(),
            err: None,
            plugin_url: None,
            prev_tab_count: 0,
            statuses_loaded: false,
        };
        assert(instance@.userspace_configuration =~= Map::empty());
        instance
    }
}

} // verus!
