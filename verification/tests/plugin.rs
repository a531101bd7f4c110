//! Instances of the plugin: events, messages, and what they tell each other.

use std::collections::HashMap;

use zjstatus::clock::Timestamp;
use zjstatus::config::{
    InputMode, ModeInfo, ModuleConfig, PaneInfo, PaneManifest, SessionInfo, TabInfo, UpdateEventMask,
};
use zjstatus::plugin::{
    address, find_own_url, list_siblings, register_widgets, Action, Drawing, Event, Mouse,
    PermissionStatus, PluginMessage, State, WidgetKind,
};
use zjstatus::text_map::TextMap;

const URL: &str = "file:zjstatus.wasm";

fn terminal(id: u32) -> PaneInfo {
    PaneInfo { id, is_plugin: false, plugin_url: None }
}

fn plugin(id: u32, url: &str) -> PaneInfo {
    PaneInfo { id, is_plugin: true, plugin_url: Some(url.to_string()) }
}

/// Two tabs with an instance each, 1 and 2, a third instance 3, and another plugin.
fn manifest() -> PaneManifest {
    let mut panes = HashMap::new();
    panes.insert(0, vec![terminal(10), plugin(1, URL), terminal(3)]);
    panes.insert(1, vec![terminal(20), plugin(2, URL), plugin(3, URL), plugin(4, "file:other.wasm")]);
    PaneManifest { panes }
}

fn tab(position: usize) -> TabInfo {
    TabInfo { position, name: format!("tab {position}"), active: position == 0 }
}

fn instance() -> State {
    let mut state = State::default();
    state.plugin_url = Some(URL.to_string());
    state.state.panes = manifest();
    state
}

fn config() -> ModuleConfig {
    ModuleConfig {
        hide_frame_for_single_pane: true,
        hide_frame_except_for_search: false,
        hide_frame_except_for_fullscreen: true,
        hide_frame_except_for_scroll: false,
    }
}

fn sorted(messages: Vec<PluginMessage>) -> Vec<(u32, String)> {
    let mut all: Vec<(u32, String)> =
        messages.into_iter().map(|m| (m.destination, m.payload)).collect();
    all.sort();
    all
}

fn sends(actions: Vec<Action>) -> Vec<(u32, String)> {
    let mut all = Vec::new();
    for action in actions {
        match action {
            Action::Send(message) => all.push((message.destination, message.payload)),
            other => panic!("unexpected: {other:?}"),
        }
    }
    all.sort();
    all
}

fn to_both(payload: &str) -> Vec<(u32, String)> {
    vec![(2, payload.to_string()), (3, payload.to_string())]
}

#[test]
fn fresh_instance() {
    let state = State::default();
    assert!(!state.got_permissions && !state.statuses_loaded);
    assert!(state.pending_events.is_empty());
    assert_eq!(state.prev_tab_count, 0);
    assert!(state.plugin_url.is_none() && state.err.is_none());
    assert!(state.state.tab_statuses.is_empty());
    assert_eq!(state.state.cache_mask, UpdateEventMask::Empty);
    assert_eq!(state.state.mode.mode, InputMode::Normal);
    assert_eq!(state.widget_map.entries().len(), 0);
}

#[test]
fn loading_a_configuration() {
    let mut state = instance();
    state.pending_events = vec![Event::Other];
    state.got_permissions = true;
    state.prev_tab_count = 4;
    state.state.tab_statuses.insert(0, "x".to_string());
    let mut configuration = TextMap::new();
    configuration.insert("key".to_string(), "value".to_string());
    let before = chrono::Utc::now().timestamp();
    state.load(configuration, Ok(config()));
    let after = chrono::Utc::now().timestamp();
    assert!(state.pending_events.is_empty());
    assert!(!state.got_permissions);
    assert_eq!(state.module_config, config());
    assert_eq!(state.userspace_configuration.get("key"), Some(&"value".to_string()));
    assert_eq!(state.widget_map.entries().len(), 8);
    assert!(state.state.tab_statuses.is_empty());
    assert!(state.state.panes.panes.is_empty());
    assert_eq!(state.prev_tab_count, 4);
    assert_eq!(state.plugin_url.as_deref(), Some(URL));
    let start = state.state.start_time;
    assert!(before <= start.secs && start.secs <= after);
    let uuid = uuid::Uuid::parse_str(&state.state.plugin_uuid).unwrap();
    assert_eq!(uuid.get_version_num(), 4);
    assert_eq!(uuid.to_string(), state.state.plugin_uuid);
}

#[test]
fn instances_have_names_of_their_own() {
    let mut one = State::default();
    let mut other = State::default();
    one.load(TextMap::new(), Ok(config()));
    other.load(TextMap::new(), Ok(config()));
    assert_ne!(one.state.plugin_uuid, other.state.plugin_uuid);
}

#[test]
fn loading_with_a_given_name_and_time() {
    let mut state = State::default();
    let now = Timestamp { secs: 5, nanos: 6 };
    state.load_with(TextMap::new(), Ok(config()), "name".to_string(), now);
    assert_eq!(state.state.plugin_uuid, "name");
    assert_eq!(state.state.start_time, now);
}

#[test]
fn loading_a_wrong_configuration() {
    let mut state = instance();
    state.got_permissions = true;
    state.state.tab_statuses.insert(0, "x".to_string());
    state.load(TextMap::new(), Err("no format".to_string()));
    assert_eq!(state.err.as_deref(), Some("no format"));
    assert!(state.got_permissions);
    assert_eq!(state.state.tab_statuses.len(), 1);
    assert_eq!(state.widget_map.entries().len(), 0);
    assert_eq!(state.render(80), Drawing::Error);
    assert_eq!(state.state.cols, 0);
}

#[test]
fn names_of_widgets() {
    let widgets = register_widgets();
    let names: Vec<&str> = widgets.entries().iter().map(|e| e.0.as_str()).collect();
    assert_eq!(
        names,
        vec!["command", "datetime", "mode", "notifications", "pipe", "session", "swap_layout", "tabs"]
    );
    assert_eq!(widgets.get("notifications"), Some(&WidgetKind::Notification));
    assert_eq!(widgets.get("tabs"), Some(&WidgetKind::Tabs));
    assert_eq!(widgets.get("tab"), None);
}

#[test]
fn drawing() {
    let mut state = instance();
    assert_eq!(state.render(80), Drawing::Nothing);
    assert_eq!(state.state.cols, 0);
    state.got_permissions = true;
    assert_eq!(state.render(80), Drawing::Bar);
    assert_eq!(state.state.cols, 80);
}

fn position_of(event: &Event) -> usize {
    match event {
        Event::TabUpdate(tabs) => tabs[0].position,
        Event::PermissionRequestResult(_) => 100,
        _ => panic!("unexpected"),
    }
}

#[test]
fn events_wait_for_permissions() {
    let mut state = State::default();
    for i in 0..3 {
        assert!(state.update(Event::TabUpdate(vec![tab(i)])).is_empty());
    }
    let denied = Event::PermissionRequestResult(PermissionStatus::Denied);
    assert!(state.update(denied).is_empty());
    assert_eq!(state.pending_events.len(), 4);
    assert!(!state.got_permissions);
    let due = state.update(Event::PermissionRequestResult(PermissionStatus::Granted));
    assert_eq!(due.iter().map(position_of).collect::<Vec<usize>>(), vec![100, 2, 1, 0, 100]);
    assert!(state.pending_events.is_empty());
    assert!(state.got_permissions);
    let due = state.update(Event::TabUpdate(vec![tab(7)]));
    assert_eq!(due.iter().map(position_of).collect::<Vec<usize>>(), vec![7]);
    assert!(state.pending_events.is_empty());
}

#[test]
fn mouse_goes_to_the_widgets() {
    let mut state = instance();
    let (drawn, actions) = state.handle_event(Event::Mouse(Mouse::LeftClick(1, 2)), 1);
    assert!(!drawn);
    assert!(matches!(actions.as_slice(), [Action::HandleMouse(Mouse::LeftClick(1, 2))]));
}

#[test]
fn permissions_make_the_bar_unselectable() {
    for status in [PermissionStatus::Granted, PermissionStatus::Denied] {
        let mut state = instance();
        let (drawn, actions) = state.handle_event(Event::PermissionRequestResult(status), 1);
        assert!(!drawn);
        assert!(matches!(actions.as_slice(), [Action::SetSelectable(false)]));
    }
}

#[test]
fn mode_is_taken_over() {
    let mut state = instance();
    state.state.tab_statuses.insert(0, "x".to_string());
    let mode = ModeInfo { mode: InputMode::Locked, session_name: Some("work".to_string()) };
    let (drawn, actions) = state.handle_event(Event::ModeUpdate(mode), 1);
    assert!(drawn && actions.is_empty());
    assert_eq!(state.state.mode.session_name.as_deref(), Some("work"));
    assert_eq!(state.state.mode.mode, InputMode::Locked);
    assert_eq!(state.state.cache_mask, UpdateEventMask::Mode);
    assert_eq!(state.state.tab_statuses.len(), 1);
    assert!(!state.statuses_loaded);
}

#[test]
fn other_events_change_nothing() {
    let mut state = instance();
    let (drawn, actions) = state.handle_event(Event::Other, 1);
    assert!(!drawn && actions.is_empty());
    assert_eq!(state.state.cache_mask, UpdateEventMask::Empty);
}

#[test]
fn first_panes_show_where_the_plugin_is_from() {
    let mut state = State::default();
    state.module_config = config();
    let (drawn, mut actions) = state.handle_event(Event::PaneUpdate(manifest()), 1);
    assert!(drawn);
    assert!(matches!(actions.remove(0), Action::HideFrames(c) if c == config()));
    assert_eq!(sends(actions), to_both("zjstatus::status_request::_"));
    assert_eq!(state.plugin_url.as_deref(), Some(URL));
    assert_eq!(state.state.panes.panes.len(), 2);
    assert_eq!(state.state.cache_mask, UpdateEventMask::Tab);
    let (drawn, actions) = state.handle_event(Event::PaneUpdate(manifest()), 1);
    assert!(drawn);
    assert_eq!(actions.len(), 1);
}

#[test]
fn panes_without_the_own_one() {
    let mut state = State::default();
    let (drawn, actions) = state.handle_event(Event::PaneUpdate(manifest()), 99);
    assert!(drawn);
    assert_eq!(actions.len(), 1);
    assert!(state.plugin_url.is_none());
    assert_eq!(find_own_url(&manifest(), 99), None);
    assert_eq!(find_own_url(&manifest(), 10), None);
}

#[test]
fn own_pane_that_says_nothing() {
    let mut panes = HashMap::new();
    panes.insert(0, vec![PaneInfo { id: 1, is_plugin: true, plugin_url: None }, plugin(2, URL)]);
    let manifest = PaneManifest { panes };
    assert_eq!(find_own_url(&manifest, 1), Some(None));
    assert_eq!(find_own_url(&manifest, 2), Some(Some(URL.to_string())));
    let mut state = State::default();
    let (_, actions) = state.handle_event(Event::PaneUpdate(manifest), 1);
    assert_eq!(actions.len(), 1);
    assert!(state.plugin_url.is_none());
}

#[test]
fn siblings_are_the_other_instances() {
    let url = Some(URL.to_string());
    let mut ids = list_siblings(&manifest(), &url, 1);
    ids.sort();
    assert_eq!(ids, vec![2, 3]);
    let mut ids = list_siblings(&manifest(), &url, 2);
    ids.sort();
    assert_eq!(ids, vec![1, 3]);
    assert!(list_siblings(&manifest(), &None, 1).is_empty());
    let mut ids = instance().sibling_plugin_ids(3);
    ids.sort();
    assert_eq!(ids, vec![1, 2]);
}

#[test]
fn found_siblings_are_asked() {
    let mut state = State::default();
    let found = Some(Some("file:x".to_string()));
    let (drawn, actions) = state.apply_event(Event::PaneUpdate(manifest()), found, &vec![8]);
    assert!(drawn);
    assert!(matches!(
        actions.as_slice(),
        [Action::HideFrames(_), Action::Send(PluginMessage { destination: 8, payload })]
            if payload == "zjstatus::status_request::_"
    ));
    assert_eq!(state.plugin_url.as_deref(), Some("file:x"));
}

fn command_event(stdout: Vec<u8>, named: bool) -> Event {
    let mut context = TextMap::new();
    context.insert("timestamp".to_string(), "1".to_string());
    if named {
        context.insert("name".to_string(), "cmd".to_string());
    }
    Event::RunCommandResult { exit_code: Some(2), stdout, stderr: vec![0xff], context }
}

#[test]
fn result_of_a_command() {
    let mut state = instance();
    let (drawn, actions) = state.handle_event(command_event("ok 🤖".as_bytes().to_vec(), true), 1);
    assert!(!drawn && actions.is_empty());
    let result = state.state.command_results.get("cmd").unwrap();
    assert_eq!(result.exit_code, Some(2));
    assert_eq!(result.stdout, "ok 🤖");
    assert_eq!(result.stderr, "");
    assert_eq!(result.context.get("timestamp"), Some(&"1".to_string()));
    assert_eq!(state.state.cache_mask, UpdateEventMask::Command);
}

#[test]
fn result_without_a_name_is_dropped() {
    let mut state = instance();
    let (drawn, _) = state.handle_event(command_event(vec![], false), 1);
    assert!(!drawn);
    assert_eq!(state.state.command_results.entries().len(), 0);
    assert_eq!(state.state.cache_mask, UpdateEventMask::Command);
}

fn session(name: &str, is_current_session: bool) -> SessionInfo {
    SessionInfo {
        name: name.to_string(),
        is_current_session,
        tabs: vec![tab(0)],
        panes: PaneManifest::default(),
    }
}

#[test]
fn sessions_are_taken_over() {
    let mut state = instance();
    state.module_config = config();
    let sessions = vec![session("a", false), session("b", true), session("c", true)];
    let (drawn, actions) = state.handle_event(Event::SessionUpdate(sessions), 1);
    assert!(drawn);
    assert!(matches!(actions.as_slice(), [Action::HideSessionFrames(c, 1)] if *c == config()));
    assert_eq!(state.state.sessions.len(), 3);
    assert_eq!(state.state.cache_mask, UpdateEventMask::Session);
    let (drawn, actions) = state.handle_event(Event::SessionUpdate(vec![session("a", false)]), 1);
    assert!(drawn && actions.is_empty());
}

#[test]
fn closed_tabs_lose_their_statuses() {
    let mut state = instance();
    state.prev_tab_count = 3;
    for k in [0, 1, 5] {
        state.state.tab_statuses.insert(k, format!("s{k}"));
    }
    let (drawn, actions) = state.handle_event(Event::TabUpdate(vec![tab(0), tab(2), tab(5)]), 1);
    assert!(drawn && actions.is_empty());
    assert_eq!(state.state.tab_statuses.keys().copied().collect::<Vec<usize>>(), vec![0, 5]);
    assert_eq!(state.state.tab_statuses.get(&5), Some(&"s5".to_string()));
    assert_eq!(state.state.tabs.len(), 3);
    assert_eq!(state.prev_tab_count, 3);
    state.handle_event(Event::TabUpdate(vec![]), 1);
    assert!(state.state.tab_statuses.is_empty());
    assert_eq!(state.prev_tab_count, 0);
}

#[test]
fn statuses_are_told_when_tabs_open() {
    let mut state = instance();
    state.prev_tab_count = 1;
    state.state.tab_statuses.insert(0, "🤖".to_string());
    let (_, actions) = state.handle_event(Event::TabUpdate(vec![tab(0), tab(1)]), 1);
    assert_eq!(sends(actions), to_both("zjstatus::status_sync::{\"0\":\"🤖\"}"));
    let (_, actions) = state.handle_event(Event::TabUpdate(vec![tab(0), tab(1)]), 1);
    assert!(actions.is_empty());
    let (_, actions) = state.handle_event(Event::TabUpdate(vec![tab(0)]), 1);
    assert!(actions.is_empty());
    let (_, actions) = state.handle_event(Event::TabUpdate(vec![tab(4), tab(5)]), 1);
    assert!(actions.is_empty());
    assert!(state.state.tab_statuses.is_empty());
}

#[test]
fn addressing() {
    let messages = address(&vec![5, 6], "text");
    assert_eq!(sorted(messages), vec![(5, "text".to_string()), (6, "text".to_string())]);
    assert!(address(&vec![], "text").is_empty());
    assert_eq!(sorted(instance().send_to_siblings("hi", 1)), to_both("hi"));
    assert_eq!(
        sorted(instance().request_statuses_from_siblings(1)),
        to_both("zjstatus::status_request::_")
    );
    assert!(State::default().request_statuses_from_siblings(1).is_empty());
}

#[test]
fn telling_needs_statuses_and_a_place() {
    let mut state = instance();
    assert!(state.broadcast_statuses(1).is_empty());
    state.state.tab_statuses.insert(1, "✅".to_string());
    assert_eq!(
        sorted(state.broadcast_statuses(1)),
        to_both("zjstatus::status_sync::{\"1\":\"✅\"}")
    );
    state.plugin_url = None;
    assert!(state.broadcast_statuses(1).is_empty());
    let (drawn, messages) = state.pipe(Some("zjstatus::status_request::_"), 1);
    assert!(!drawn && messages.is_empty());
}

#[test]
fn message_without_payload() {
    let mut state = instance();
    let (drawn, messages) = state.pipe(None, 1);
    assert!(!drawn && messages.is_empty());
}

#[test]
fn clearing_the_last_status_is_told() {
    for message in ["zjstatus::clear_status::10", "zjstatus::set_status::10::"] {
        let mut state = instance();
        state.state.tab_statuses.insert(0, "🤖".to_string());
        let mut sibling = instance();
        sibling.state.tab_statuses = state.state.tab_statuses.clone();
        let (drawn, messages) = state.pipe(Some(message), 1);
        assert!(drawn);
        assert!(state.state.tab_statuses.is_empty());
        let payload = messages[0].payload.clone();
        assert_eq!(sorted(messages), to_both("zjstatus::status_sync::{}"));
        let (drawn, more) = sibling.pipe(Some(payload.as_str()), 2);
        assert!(drawn && more.is_empty());
        assert!(sibling.state.tab_statuses.is_empty());
    }
}

#[test]
fn set_and_cleared_in_one_message() {
    let mut state = instance();
    let message = "zjstatus::set_status::10::a\nzjstatus::clear_status::10";
    let (drawn, messages) = state.pipe(Some(message), 1);
    assert!(drawn);
    assert_eq!(sorted(messages), to_both("zjstatus::status_sync::{}"));
}

#[test]
fn without_statuses_nothing_is_told() {
    for message in [
        "zjstatus::status_request::_",
        "zjstatus::clear_status::10",
        "zjstatus::set_status::10::",
        "zjstatus::status_sync::{}",
    ] {
        let (_, messages) = instance().pipe(Some(message), 1);
        assert!(messages.is_empty(), "{message}");
    }
    let mut state = instance();
    state.state.tab_statuses.insert(0, "a".to_string());
    let message = "zjstatus::status_sync::{}\nzjstatus::status_request::_";
    let (drawn, messages) = state.pipe(Some(message), 1);
    assert!(drawn && messages.is_empty());
    let told = sorted(instance().tell_statuses(1));
    assert_eq!(told, to_both("zjstatus::status_sync::{}"));
    assert!(State::default().tell_statuses(1).is_empty());
}

#[test]
fn set_status_reaches_every_instance() {
    let mut sender = instance();
    let mut others: HashMap<u32, State> = HashMap::new();
    others.insert(2, instance());
    others.insert(3, instance());
    others.get_mut(&3).unwrap().state.tab_statuses.insert(0, "stale".to_string());
    let (drawn, messages) = sender.pipe(Some("zjstatus::set_status::20::🤖 "), 1);
    assert!(drawn);
    assert_eq!(messages.len(), 2);
    for message in messages {
        let receiver = others.get_mut(&message.destination).unwrap();
        let (drawn, more) = receiver.pipe(Some(message.payload.as_str()), message.destination);
        assert!(drawn && more.is_empty());
    }
    for receiver in others.values() {
        assert_eq!(receiver.state.tab_statuses, sender.state.tab_statuses);
    }
    assert_eq!(sender.state.tab_statuses.get(&1), Some(&"🤖 ".to_string()));
}

#[test]
fn asking_instance_is_told() {
    let mut old = instance();
    old.state.tab_statuses.insert(0, "a".to_string());
    old.state.tab_statuses.insert(1, "b:c".to_string());
    let mut new = State::default();
    let (_, actions) = new.handle_event(Event::PaneUpdate(manifest()), 2);
    let asked = actions.into_iter().find_map(|a| match a {
        Action::Send(m) if m.destination == 1 => Some(m.payload),
        _ => None,
    });
    let (drawn, messages) = old.pipe(asked.as_deref(), 1);
    assert!(!drawn);
    let answer = messages.into_iter().find(|m| m.destination == 2).unwrap();
    let (drawn, more) = new.pipe(Some(answer.payload.as_str()), 2);
    assert!(drawn && more.is_empty());
    assert_eq!(new.state.tab_statuses, old.state.tab_statuses);
}

#[test]
fn any_status_that_was_set_is_told() {
    for status in ["a,b", "say \"hi\"", "back\\slash", "\"", "\\", "}", "a:b", "\\\",\"1\":\"x"] {
        let mut sender = instance();
        let line = format!("zjstatus::set_status::10::{status}");
        let (drawn, mut messages) = sender.pipe(Some(line.as_str()), 1);
        assert!(drawn);
        let mut receiver = instance();
        let message = messages.remove(0);
        let (drawn, more) = receiver.pipe(Some(message.payload.as_str()), 2);
        assert!(drawn && more.is_empty());
        assert_eq!(receiver.state.tab_statuses.get(&0), Some(&status.to_string()));
        assert_eq!(receiver.state.tab_statuses, sender.state.tab_statuses);
    }
}

#[test]
fn statuses_that_cannot_be_told() {
    for status in ["a\nb", "a::b"] {
        let mut sender = instance();
        sender.state.tab_statuses.insert(0, status.to_string());
        let mut receiver = instance();
        let message = sender.broadcast_statuses(1).remove(0);
        let (_, more) = receiver.pipe(Some(message.payload.as_str()), 2);
        assert!(more.is_empty());
        assert_ne!(receiver.state.tab_statuses, sender.state.tab_statuses, "{status}");
    }
}

fn in_session(name: Option<&str>) -> State {
    let mut state = instance();
    state.state.mode = ModeInfo { session_name: name.map(|n| n.to_string()), ..ModeInfo::default() };
    state
}

#[test]
fn where_statuses_are_kept() {
    for name in ["work", "a/b", "..", "/abs", "/", "ünï"] {
        let path = std::path::PathBuf::from("/host/.cache/zjstatus").join(format!("{name}.json"));
        assert_eq!(in_session(Some(name)).statuses_path().unwrap(), path.to_str().unwrap());
    }
    assert_eq!(
        in_session(Some("work")).statuses_path().as_deref(),
        Some("/host/.cache/zjstatus/work.json")
    );
    assert_eq!(in_session(Some("/abs")).statuses_path().as_deref(), Some("/abs.json"));
    assert_eq!(in_session(Some("")).statuses_path(), None);
    assert_eq!(in_session(None).statuses_path(), None);
}

#[test]
fn saved_statuses_come_back() {
    let mut state = in_session(Some("work"));
    state.state.tab_statuses.insert(0, "🤖".to_string());
    state.state.tab_statuses.insert(12, "a:b c".to_string());
    let (path, text) = state.save_statuses().unwrap();
    assert_eq!(path, "/host/.cache/zjstatus/work.json");
    assert_eq!(text, "{\"0\":\"🤖\",\"12\":\"a:b c\"}");
    let mut restarted = in_session(Some("work"));
    restarted.load_statuses(Some(&text));
    assert_eq!(restarted.state.tab_statuses, state.state.tab_statuses);
}

#[test]
fn nothing_to_save_or_load() {
    assert!(in_session(None).save_statuses().is_none());
    let mut state = in_session(Some("work"));
    state.state.tab_statuses.insert(0, "x".to_string());
    for content in [None, Some("{}"), Some("broken"), Some("")] {
        state.load_statuses(content);
        assert_eq!(state.state.tab_statuses.get(&0), Some(&"x".to_string()));
    }
    state.state.mode = ModeInfo::default();
    state.load_statuses(Some("{1:y}"));
    assert_eq!(state.state.tab_statuses.len(), 1);
    state.state.mode = ModeInfo { session_name: Some("work".to_string()), ..ModeInfo::default() };
    state.load_statuses(Some("{1:y}"));
    assert_eq!(state.state.tab_statuses.get(&1), Some(&"y".to_string()));
    assert_eq!(state.state.tab_statuses.len(), 1);
}

#[test]
fn clear_status_reaches_every_instance() {
    let mut sender = instance();
    sender.state.tab_statuses.insert(0, "a".to_string());
    sender.state.tab_statuses.insert(1, "b".to_string());
    let mut receiver = instance();
    receiver.state.tab_statuses = sender.state.tab_statuses.clone();
    let (drawn, messages) = sender.pipe(Some("zjstatus::clear_status::20"), 1);
    assert!(drawn);
    assert_eq!(sorted(messages), to_both("zjstatus::status_sync::{\"0\":\"a\"}"));
    let message = sender.broadcast_statuses(1).remove(0);
    let (drawn, more) = receiver.pipe(Some(message.payload.as_str()), 2);
    assert!(drawn && more.is_empty());
    assert_eq!(receiver.state.tab_statuses, sender.state.tab_statuses);
    assert_eq!(receiver.state.tab_statuses.len(), 1);
}

#[test]
fn instance_of_a_new_tab_is_told() {
    let mut old = instance();
    old.prev_tab_count = 1;
    old.state.tab_statuses.insert(0, "🤖".to_string());
    let (_, actions) = old.handle_event(Event::TabUpdate(vec![tab(0), tab(1)]), 1);
    let mut new = State::default();
    for (destination, payload) in sends(actions) {
        if destination == 2 {
            let (drawn, more) = new.pipe(Some(payload.as_str()), 2);
            assert!(drawn && more.is_empty());
        }
    }
    assert_eq!(new.state.tab_statuses, old.state.tab_statuses);
    assert_eq!(new.state.tab_statuses.len(), 1);
}

#[test]
fn place_of_the_plugin_stays() {
    let mut state = instance();
    let mut panes = HashMap::new();
    panes.insert(0, vec![plugin(1, "file:moved.wasm"), plugin(2, "file:moved.wasm")]);
    let (_, actions) = state.handle_event(Event::PaneUpdate(PaneManifest { panes }), 1);
    assert_eq!(actions.len(), 1);
    assert_eq!(state.plugin_url.as_deref(), Some(URL));
    assert!(state.sibling_plugin_ids(1).is_empty());
}
