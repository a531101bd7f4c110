//! What the plugin knows about its session, and what its user configured.

use crate::clock::Timestamp;
use crate::statuses::status_map;
use crate::text_map::TextMap;
use std::collections::{BTreeMap, HashMap};
use vstd::prelude::*;

verus! {

/// A pane: a terminal, or an instance of a plugin that was loaded from `plugin_url`.
/// Terminals and plugins are numbered apart from each other.
#[derive(Debug)]
pub struct PaneInfo {
    pub id: u32,
    pub is_plugin: bool,
    pub plugin_url: Option<String>,
}

impl Default for PaneInfo {
    fn default() -> (pane: PaneInfo)
        ensures
            pane == (PaneInfo { id: 0, is_plugin: false, plugin_url: None }),
    {
        PaneInfo { id: 0, is_plugin: false, plugin_url: None }
    }
}

/// The panes of each tab, by the tab's position.
#[derive(Debug)]
pub struct PaneManifest {
    pub panes: HashMap<usize, Vec<PaneInfo>>,
}

impl Default for PaneManifest {
    fn default() -> (manifest: PaneManifest)
        ensures
            manifest.panes@ == Map::<usize, Vec<PaneInfo>>::empty(),
    {
        PaneManifest { panes: HashMap::new() }
    }
}

/// A tab.
#[derive(Debug)]
pub struct TabInfo {
    pub position: usize,
    pub name: String,
    pub active: bool,
}

/// A session on the host.
#[derive(Debug)]
pub struct SessionInfo {
    pub name: String,
    pub is_current_session: bool,
    pub tabs: Vec<TabInfo>,
    pub panes: PaneManifest,
}

/// What the host does with the user's input.
#[derive(Clone, Copy, Debug, PartialEq, Eq, Structural)]
pub enum InputMode {
    Normal,
    Locked,
    Resize,
    Pane,
    Tab,
    Scroll,
    EnterSearch,
    Search,
    RenameTab,
    RenamePane,
    Session,
    Move,
    Prompt,
    Tmux,
}

/// The input mode, and the name of the session.
#[derive(Debug)]
pub struct ModeInfo {
    pub mode: InputMode,
    pub session_name: Option<String>,
}

impl Default for ModeInfo {
    fn default() -> (mode: ModeInfo)
        ensures
            mode == (ModeInfo { mode: InputMode::Normal, session_name: None }),
    {
        ModeInfo { mode: InputMode::Normal, session_name: None }
    }
}

/// What became of a command that ran on behalf of a widget.
pub struct CommandResult {
    pub exit_code: Option<i32>,
    pub stdout: String,
    pub stderr: String,
    pub context: TextMap<String>,
}

/// A notification to be shown.
#[derive(Debug)]
pub struct Message {
    pub body: String,
    pub received_at: Timestamp,
}

/// The last kind of event, by which widgets tell whether what they drew is stale.
#[derive(Clone, Copy, Debug, PartialEq, Eq, Structural)]
pub enum UpdateEventMask {
    /// No event yet.
    Empty,
    Mode,
    Tab,
    Command,
    Session,
}

/// The settings that decide when pane frames are hidden.
#[derive(Clone, Copy, Debug, PartialEq, Eq, Structural)]
pub struct ModuleConfig {
    pub hide_frame_for_single_pane: bool,
    pub hide_frame_except_for_search: bool,
    pub hide_frame_except_for_fullscreen: bool,
    pub hide_frame_except_for_scroll: bool,
}

/// Everything that the bar is drawn from.
pub struct ZellijState {
    pub cols: usize,
    pub command_results: TextMap<CommandResult>,
    pub pipe_results: TextMap<String>,
    pub mode: ModeInfo,
    pub panes: PaneManifest,
    pub plugin_uuid: String,
    pub tabs: Vec<TabInfo>,
    pub sessions: Vec<SessionInfo>,
    pub start_time: Timestamp,
    pub cache_mask: UpdateEventMask,
    pub incoming_notification: Option<Message>,
    pub tab_statuses: BTreeMap<usize, String>,
}

/// The contents of a table of texts.
pub open spec fn text_table(m: Map<Seq<char>, String>) -> Map<Seq<char>, Seq<char>> {
    m.map_values(|v: String| v@)
}

/// The contents of a command's result.
#[verifier::ext_equal]
pub struct CommandResultView {
    pub exit_code: Option<i32>,
    pub stdout: Seq<char>,
    pub stderr: Seq<char>,
    pub context: Map<Seq<char>, Seq<char>>,
}

impl View for CommandResult {
    type V = CommandResultView;

    open spec fn view(&self) -> CommandResultView {
        CommandResultView {
            exit_code: self.exit_code,
            stdout: self.stdout@,
            stderr: self.stderr@,
            context: text_table(self.context@),
        }
    }
}

/// The contents of a notification.
pub struct MessageView {
    pub body: Seq<char>,
    pub received_at: Timestamp,
}

impl View for Message {
    type V = MessageView;

    open spec fn view(&self) -> MessageView {
        MessageView { body: self.body@, received_at: self.received_at }
    }
}

/// The contents of a notification, if there is one.
pub open spec fn message_view(m: Option<Message>) -> Option<MessageView> {
    match m {
        Some(message) => Some(message@),
        None => None,
    }
}

/// The contents of the results of commands.
pub open spec fn result_table(m: Map<Seq<char>, CommandResult>) -> Map<
    Seq<char>,
    CommandResultView,
> {
    m.map_values(|c: CommandResult| c@)
}

/// The contents of the state.
#[verifier::ext_equal]
pub struct ZellijStateView {
    pub cols: usize,
    pub command_results: Map<Seq<char>, CommandResultView>,
    pub pipe_results: Map<Seq<char>, Seq<char>>,
    pub mode: ModeInfo,
    pub panes: PaneManifest,
    pub plugin_uuid: Seq<char>,
    pub tabs: Seq<TabInfo>,
    pub sessions: Seq<SessionInfo>,
    pub start_time: Timestamp,
    pub cache_mask: UpdateEventMask,
    pub incoming_notification: Option<MessageView>,
    pub tab_statuses: Map<usize, Seq<char>>,
}

impl View for ZellijState {
    type V = ZellijStateView;

    open spec fn view(&self) -> ZellijStateView {
        ZellijStateView {
            cols: self.cols,
            command_results: result_table(self.command_results@),
            pipe_results: text_table(self.pipe_results@),
            mode: self.mode,
            panes: self.panes,
            plugin_uuid: self.plugin_uuid@,
            tabs: self.tabs@,
            sessions: self.sessions@,
            start_time: self.start_time,
            cache_mask: self.cache_mask,
            incoming_notification: message_view(self.incoming_notification),
            tab_statuses: status_map(self.tab_statuses@),
        }
    }
}

/// The state of an instance that has heard of nothing yet.
pub open spec fn fresh_state(plugin_uuid: Seq<char>, start_time: Timestamp, s: ZellijStateView) -> bool {
    &&& s.cols == 0
    &&& s.command_results == Map::<Seq<char>, CommandResultView>::empty()
    &&& s.pipe_results == Map::<Seq<char>, Seq<char>>::empty()
    &&& s.mode == (ModeInfo { mode: InputMode::Normal, session_name: None })
    &&& s.panes.panes@ == Map::<usize, Vec<PaneInfo>>::empty()
    &&& s.plugin_uuid == plugin_uuid
    &&& s.tabs == Seq::<TabInfo>::empty()
    &&& s.sessions == Seq::<SessionInfo>::empty()
    &&& s.start_time == start_time
    &&& s.cache_mask == UpdateEventMask::Empty
    &&& s.incoming_notification is None
    &&& s.tab_statuses == Map::<usize, Seq<char>>::empty()
}

impl ZellijState {
    /// The state of an instance that has heard of nothing yet.
    pub fn new(plugin_uuid: String, start_time: Timestamp) -> (state: ZellijState)
        ensures
            fresh_state(plugin_uuid@, start_time, state@),
    {
        let state = ZellijState {
            cols: 0,
            command_results: TextMap::new(),
            pipe_results: TextMap::new(),
            mode: ModeInfo::default(),
            panes: PaneManifest::default(),
            plugin_uuid,
            tabs: Vec::new(),
            sessions: Vec::new(),
            start_time,
            cache_mask: UpdateEventMask::Empty,
            incoming_notification: None,
            tab_statuses: BTreeMap::new(),
        };
        proof {
            assert(state@.command_results =~= Map::<Seq<char>, CommandResultView>::empty());
            assert(state@.pipe_results =~= Map::<Seq<char>, Seq<char>>::empty());
            assert(state@.tab_statuses =~= Map::<usize, Seq<char>>::empty());
        }
        state
    }
}

impl Default for ZellijState {
    fn default() -> (state: ZellijState)
        ensures
            fresh_state(Seq::empty(), (Timestamp { secs: 0, nanos: 0 }), state@),
    {
        ZellijState::new(String::new(), Timestamp { secs: 0, nanos: 0 })
    }
}

} // verus!
