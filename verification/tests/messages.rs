//! Messages of the protocol, and what they change.

use std::collections::HashMap;

use chrono::{DateTime, Local, Utc};
use zjstatus::clock::{day_before, Timestamp, DAY, EARLIEST, LATEST, LONGEST};
use zjstatus::config::{CommandResult, PaneInfo, PaneManifest, UpdateEventMask, ZellijState};
use zjstatus::pipe::{
    apply_command, carry_out, carry_out_line, decode_line, notify, parse_protocol, pipe,
    process_line, rerun_command, Asks, Command,
};
use zjstatus::text_map::TextMap;

fn pane(id: u32) -> PaneInfo {
    PaneInfo { id, is_plugin: false, plugin_url: None }
}

fn state() -> ZellijState {
    let mut panes = HashMap::new();
    panes.insert(0, vec![pane(10), pane(11)]);
    panes.insert(1, vec![pane(20)]);
    let mut state = ZellijState::default();
    state.panes = PaneManifest { panes };
    state
}

fn with_result(name: &str) -> ZellijState {
    let mut state = state();
    let mut context = TextMap::new();
    context.insert("name".to_string(), name.to_string());
    context.insert("timestamp".to_string(), "old".to_string());
    let result = CommandResult {
        exit_code: Some(3),
        stdout: "out".to_string(),
        stderr: "err".to_string(),
        context,
    };
    state.command_results.insert(name.to_string(), result);
    state
}

#[test]
fn day_before_in_seconds() {
    assert_eq!(day_before(Timestamp { secs: 1_700_000_000, nanos: 5 }), "1699913600");
    assert_eq!(day_before(Timestamp { secs: DAY, nanos: 0 }), "0");
    assert_eq!(day_before(Timestamp { secs: 0, nanos: 999_999_999 }), "-86400");
    assert_eq!(day_before(Timestamp { secs: LATEST, nanos: 0 }), "8210266790399");
}

#[test]
fn limits_of_the_calendar() {
    assert_eq!(DateTime::<Utc>::MIN_UTC.timestamp(), EARLIEST);
    assert_eq!(DateTime::<Utc>::MAX_UTC.timestamp(), LATEST);
    assert_eq!(chrono::TimeDelta::MAX.num_seconds(), LONGEST);
    assert_eq!(chrono::TimeDelta::MIN.num_seconds(), -LONGEST);
    assert_eq!(chrono::TimeDelta::try_days(1).unwrap().num_seconds(), DAY);
}

#[test]
fn local_time_is_formatted_in_seconds() {
    let now = Local::now();
    let then = now - chrono::TimeDelta::try_days(1).unwrap();
    let at = Timestamp { secs: now.timestamp(), nanos: now.timestamp_subsec_nanos() };
    assert_eq!(then.format("%s").to_string(), day_before(at));
}

#[test]
fn rerun_dates_the_result_back() {
    let mut state = with_result("cmd");
    let before = Local::now().timestamp() - DAY;
    assert_eq!(process_line(&mut state, "zjstatus::rerun::cmd"), (true, false));
    let after = Local::now().timestamp() - DAY;
    let result = state.command_results.get("cmd").unwrap();
    let stamp: i64 = result.context.get("timestamp").unwrap().parse().unwrap();
    assert!(before <= stamp && stamp <= after);
    assert_eq!(result.exit_code, Some(3));
    assert_eq!(result.stdout, "out");
    assert_eq!(result.stderr, "err");
    assert_eq!(result.context.get("name"), Some(&"cmd".to_string()));
    assert_eq!(result.context.entries().len(), 2);
}

#[test]
fn rerun_at_a_given_time() {
    let mut state = with_result("cmd");
    rerun_command(&mut state, "cmd", Timestamp { secs: 1_700_000_000, nanos: 0 });
    let result = state.command_results.get("cmd").unwrap();
    assert_eq!(result.context.get("timestamp"), Some(&"1699913600".to_string()));
}

#[test]
fn rerun_of_an_unknown_command() {
    let mut state = with_result("cmd");
    assert_eq!(process_line(&mut state, "zjstatus::rerun::other"), (true, false));
    assert_eq!(state.command_results.entries().len(), 1);
    let result = state.command_results.get("cmd").unwrap();
    assert_eq!(result.context.get("timestamp"), Some(&"old".to_string()));
}

#[test]
fn notification_with_its_time() {
    let mut state = state();
    let before = Local::now().timestamp();
    assert_eq!(process_line(&mut state, "zjstatus::notify::hello world"), (true, false));
    let after = Local::now().timestamp();
    let message = state.incoming_notification.as_ref().unwrap();
    assert_eq!(message.body, "hello world");
    assert!(before <= message.received_at.secs && message.received_at.secs <= after);
    assert!(message.received_at.nanos < 1_000_000_000);
    let now = Timestamp { secs: 12, nanos: 34 };
    notify(&mut state, "again", now);
    let message = state.incoming_notification.as_ref().unwrap();
    assert_eq!((message.body.as_str(), message.received_at), ("again", now));
}

#[test]
fn content_for_a_widget() {
    let mut state = state();
    assert_eq!(process_line(&mut state, "zjstatus::pipe::w::first"), (true, false));
    assert_eq!(state.pipe_results.get("w"), Some(&"first".to_string()));
    assert_eq!(process_line(&mut state, "zjstatus::pipe::w::second::rest"), (true, false));
    assert_eq!(state.pipe_results.get("w"), Some(&"second".to_string()));
    assert_eq!(process_line(&mut state, "zjstatus::pipe::w"), (false, false));
    assert_eq!(state.pipe_results.get("w"), Some(&"second".to_string()));
    pipe(&mut state, "v", "x");
    assert_eq!(state.pipe_results.entries().len(), 2);
}

#[test]
fn lines_that_ask_for_nothing() {
    for line in [
        "",
        "zjstatus",
        "zjstatus::rerun",
        "other::rerun::cmd",
        " zjstatus::rerun::cmd",
        "zjstatus::unknown::x",
        "zjstatus::set_status::10",
        "zjstatus::set_status::::x",
        "zjstatus::set_status::4294967296::x",
        "zjstatus::clear_status::x",
        "zjstatus::clear_status::-1",
        "zjstatus::status_sync::[]",
        "zjstatus:rerun:cmd",
    ] {
        assert!(decode_line(line).is_none(), "{line}");
        let mut state = with_result("cmd");
        state.tab_statuses.insert(0, "x".to_string());
        assert_eq!(process_line(&mut state, line), (false, false), "{line}");
        assert_eq!(state.tab_statuses.get(&0), Some(&"x".to_string()));
        assert!(state.incoming_notification.is_none());
        assert_eq!(state.pipe_results.entries().len(), 0);
    }
}

#[test]
fn what_lines_ask_for() {
    assert!(matches!(
        decode_line("zjstatus::rerun::a"), Some(Command::Rerun { name }) if name == "a"
    ));
    assert!(matches!(
        decode_line("zjstatus::notify::"), Some(Command::Notify { message }) if message.is_empty()
    ));
    assert!(matches!(
        decode_line("zjstatus::pipe::a::b"),
        Some(Command::Pipe { name, content }) if name == "a" && content == "b"
    ));
    assert!(matches!(
        decode_line("zjstatus::set_status::+7::x"),
        Some(Command::SetStatus { pane_id: 7, emoji }) if emoji == "x"
    ));
    assert!(matches!(
        decode_line("zjstatus::status_sync::{1:y}"),
        Some(Command::StatusSync { statuses }) if statuses.get(&1) == Some(&"y".to_string())
    ));
    assert!(matches!(
        decode_line("zjstatus::status_request::_"), Some(Command::StatusRequest)
    ));
    assert!(matches!(
        decode_line("zjstatus::clear_status::7"), Some(Command::ClearStatus { pane_id: 7 })
    ));
}

#[test]
fn commands_at_a_given_place_and_time() {
    let now = Timestamp { secs: 100, nanos: 0 };
    let mut state = state();
    let set = Command::SetStatus { pane_id: 1, emoji: "x".to_string() };
    assert_eq!(apply_command(&mut state, set, Some(4), now), (true, true));
    assert_eq!(state.tab_statuses.get(&4), Some(&"x".to_string()));
    let clear = Command::ClearStatus { pane_id: 1 };
    assert_eq!(apply_command(&mut state, clear, None, now), (false, false));
    assert_eq!(state.tab_statuses.len(), 1);
    assert_eq!(apply_command(&mut state, Command::StatusRequest, None, now), (false, true));
    let clear = Command::ClearStatus { pane_id: 1 };
    assert_eq!(apply_command(&mut state, clear, Some(4), now), (true, true));
    assert!(state.tab_statuses.is_empty());
}

#[test]
fn status_is_cut_at_the_separator() {
    let mut state = state();
    process_line(&mut state, "zjstatus::set_status::10::a::b");
    assert_eq!(state.tab_statuses.get(&0), Some(&"a".to_string()));
}

#[test]
fn panes_of_a_tab_share_its_status() {
    let mut state = state();
    process_line(&mut state, "zjstatus::set_status::10::a");
    process_line(&mut state, "zjstatus::set_status::11::b");
    assert_eq!(state.tab_statuses.len(), 1);
    assert_eq!(state.tab_statuses.get(&0), Some(&"b".to_string()));
    process_line(&mut state, "zjstatus::clear_status::10");
    assert!(state.tab_statuses.is_empty());
}

#[test]
fn empty_status_is_clearing() {
    let mut one = state();
    let mut other = state();
    for s in [&mut one, &mut other] {
        process_line(s, "zjstatus::set_status::10::a");
        process_line(s, "zjstatus::set_status::20::b");
    }
    let set = process_line(&mut one, "zjstatus::set_status::20::");
    let clear = process_line(&mut other, "zjstatus::clear_status::20");
    assert_eq!(set, clear);
    assert_eq!(one.tab_statuses, other.tab_statuses);
    assert_eq!(one.tab_statuses.len(), 1);
}

#[test]
fn message_of_several_lines() {
    let mut state = state();
    let input = "zjstatus::set_status::10::a\nnoise\nzjstatus::pipe::w::c\nzjstatus::set_status::20::b";
    assert_eq!(parse_protocol(&mut state, input), (true, true));
    assert_eq!(state.tab_statuses.len(), 2);
    assert_eq!(state.pipe_results.get("w"), Some(&"c".to_string()));
}

#[test]
fn message_asks_for_what_its_lines_ask_for() {
    let request = "zjstatus::status_request::_";
    let notify = "zjstatus::notify::m";
    assert_eq!(parse_protocol(&mut state(), ""), (false, false));
    assert_eq!(parse_protocol(&mut state(), "noise\n\n"), (false, false));
    assert_eq!(parse_protocol(&mut state(), request), (false, true));
    assert_eq!(parse_protocol(&mut state(), notify), (true, false));
    let both = [request, notify].join("\n");
    assert_eq!(parse_protocol(&mut state(), &both), (true, true));
}

#[test]
fn messages_one_after_the_other() {
    let a = "zjstatus::set_status::10::a\nzjstatus::set_status::20::b";
    let b = "zjstatus::clear_status::10\nzjstatus::pipe::w::c";
    let mut apart = state();
    parse_protocol(&mut apart, a);
    parse_protocol(&mut apart, b);
    let mut together = state();
    parse_protocol(&mut together, &[a, b].join("\n"));
    assert_eq!(apart.tab_statuses, together.tab_statuses);
    assert_eq!(apart.pipe_results.get("w"), together.pipe_results.get("w"));
}

#[test]
fn lines_leave_the_rest_alone() {
    let mut state = with_result("cmd");
    state.cols = 80;
    state.cache_mask = UpdateEventMask::Session;
    parse_protocol(
        &mut state,
        "zjstatus::rerun::cmd\nzjstatus::notify::m\nzjstatus::pipe::w::c\nzjstatus::set_status::10::a",
    );
    assert_eq!(state.cols, 80);
    assert_eq!(state.cache_mask, UpdateEventMask::Session);
    assert_eq!(state.panes.panes.len(), 2);
    assert_eq!(state.plugin_uuid, "");
    assert_eq!(state.start_time, Timestamp { secs: 0, nanos: 0 });
}

#[test]
fn other_tabs_keep_their_statuses() {
    let mut state = state();
    process_line(&mut state, "zjstatus::set_status::20::b");
    process_line(&mut state, "zjstatus::set_status::10::a");
    assert_eq!(state.tab_statuses.get(&1), Some(&"b".to_string()));
    process_line(&mut state, "zjstatus::clear_status::11");
    assert_eq!(state.tab_statuses.get(&1), Some(&"b".to_string()));
    assert_eq!(state.tab_statuses.len(), 1);
}

#[test]
fn statuses_have_no_separators_or_line_breaks() {
    let mut state = state();
    let input = "zjstatus::set_status::10::a::b\nc\nzjstatus::status_sync::{0:x::y}\n\
                 zjstatus::set_status::20::d:e\n\nzjstatus::status_sync::{\"0\":\"1\n\"}";
    parse_protocol(&mut state, input);
    assert_eq!(state.tab_statuses.get(&0), Some(&"a".to_string()));
    assert_eq!(state.tab_statuses.get(&1), Some(&"d:e".to_string()));
    for status in state.tab_statuses.values() {
        assert!(!status.contains("::") && !status.contains('\n'));
    }
}

#[test]
fn statuses_altered_where_there_are_some() {
    let mut state = state();
    let set = "zjstatus::set_status::10::a";
    let clear = "zjstatus::clear_status::10";
    let asks = |altered: bool| Asks { render: true, tell: true, altered };
    assert_eq!(carry_out_line(&mut state, clear), asks(false));
    assert_eq!(carry_out_line(&mut state, set), asks(false));
    assert_eq!(carry_out_line(&mut state, clear), asks(true));
    assert_eq!(carry_out(&mut state, &[set, clear].join("\n")), asks(true));
    assert_eq!(carry_out(&mut state, &[clear, set].join("\n")), asks(false));
    assert_eq!(
        carry_out_line(&mut state, "zjstatus::set_status::99::x"),
        Asks { render: false, tell: false, altered: false }
    );
    assert_eq!(
        carry_out(&mut state, "zjstatus::status_request::_\nnoise"),
        Asks { render: false, tell: true, altered: false }
    );
}
