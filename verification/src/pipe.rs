//! The line protocol by which other programs, and other instances, talk to the
//! plugin.
//!
//! A message is made of lines of the form `zjstatus::command::arguments`:
//!
//! - `rerun::name`: the command with that name is run again;
//! - `notify::message`: the message is shown;
//! - `pipe::name::content`: the content is shown by the widget with that name;
//! - `set_status::pane_id::emoji`: the tab with that pane gets a status, or loses
//!   the one it has if the emoji is empty;
//! - `clear_status::pane_id`: the tab with that pane loses its status;
//! - `status_sync::json`: the statuses of all tabs are replaced;
//! - `status_request::_`: another instance wants to be told the statuses.

use crate::clock::{day_before, day_before_text, local_now, Timestamp};
use crate::config::{
    CommandResultView, Message, MessageView, PaneInfo, PaneManifest, ZellijState, ZellijStateView,
};
use crate::number::{parse_number, parse_unsigned};
use crate::statuses::{drop_status, parse_statuses, put_status, render_statuses, status_map};
use crate::text::{same_text, split, split_text, texts};
use std::collections::BTreeMap;
use vstd::prelude::*;
use vstd::std_specs::iter::IteratorSpec;

pub use crate::statuses::{deserialize_tab_statuses, serialize_tab_statuses};

verus! {

/// What carrying out lines asks of the caller.
#[derive(Clone, Copy, Debug, PartialEq, Eq, Structural)]
pub struct Asks {
    /// The bar is to be drawn again.
    pub render: bool,
    /// The statuses are to be told to the other instances.
    pub tell: bool,
    /// A status was set or cleared where there were some.
    pub altered: bool,
}

/// What a line of the protocol asks for.
pub enum Command {
    Rerun { name: String },
    Notify { message: String },
    Pipe { name: String, content: String },
    SetStatus { pane_id: u32, emoji: String },
    StatusSync { statuses: BTreeMap<usize, String> },
    StatusRequest,
    ClearStatus { pane_id: u32 },
}

/// The contents of a command.
pub enum CommandView {
    Rerun { name: Seq<char> },
    Notify { message: Seq<char> },
    Pipe { name: Seq<char>, content: Seq<char> },
    SetStatus { pane_id: u32, emoji: Seq<char> },
    StatusSync { statuses: Map<usize, Seq<char>> },
    StatusRequest,
    ClearStatus { pane_id: u32 },
}

impl View for Command {
    type V = CommandView;

    open spec fn view(&self) -> CommandView {
        match *self {
            Command::Rerun { name } => CommandView::Rerun { name: name@ },
            Command::Notify { message } => CommandView::Notify { message: message@ },
            Command::Pipe { name, content } => CommandView::Pipe {
                name: name@,
                content: content@,
            },
            Command::SetStatus { pane_id, emoji } => CommandView::SetStatus {
                pane_id,
                emoji: emoji@,
            },
            Command::StatusSync { statuses } => CommandView::StatusSync {
                statuses: status_map(statuses@),
            },
            Command::StatusRequest => CommandView::StatusRequest,
            Command::ClearStatus { pane_id } => CommandView::ClearStatus { pane_id },
        }
    }
}

/// The contents of a command, if there is one.
pub open spec fn command_view(c: Option<Command>) -> Option<CommandView> {
    match c {
        Some(command) => Some(command@),
        None => None,
    }
}

/// Reads the number of a pane.
pub open spec fn pane_id_of(s: Seq<char>) -> Option<u32> {
    match parse_unsigned(s, u32::MAX as nat) {
        Some(n) => Some(n as u32),
        None => None,
    }
}

/// What a line asks for. A line asks for nothing if it is not of the protocol, if
/// its command is unknown, or if arguments are missing or cannot be read.
pub open spec fn command_of(line: Seq<char>) -> Option<CommandView> {
    let parts = split(line, "::"@);
    if parts.len() < 3 || parts[0] != "zjstatus"@ {
        None
    } else {
        command_with(parts)
    }
}

/// What the parts of a line of the protocol ask for.
pub open spec fn command_with(parts: Seq<Seq<char>>) -> Option<CommandView> {
    let name = parts[1];
    let argument = parts[2];
    if name == "rerun"@ {
        Some(CommandView::Rerun { name: argument })
    } else if name == "notify"@ {
        Some(CommandView::Notify { message: argument })
    } else if name == "pipe"@ {
        if parts.len() < 4 {
            None
        } else {
            Some(CommandView::Pipe { name: argument, content: parts[3] })
        }
    } else if name == "set_status"@ {
        match (parts.len() < 4, pane_id_of(argument)) {
            (false, Some(pane_id)) => Some(CommandView::SetStatus { pane_id, emoji: parts[3] }),
            _ => None,
        }
    } else if name == "status_sync"@ {
        match parse_statuses(argument) {
            Some(statuses) => Some(CommandView::StatusSync { statuses }),
            None => None,
        }
    } else if name == "status_request"@ {
        Some(CommandView::StatusRequest)
    } else if name == "clear_status"@ {
        match pane_id_of(argument) {
            Some(pane_id) => Some(CommandView::ClearStatus { pane_id }),
            None => None,
        }
    } else {
        None
    }
}

/// The line by which an instance tells its statuses to the others.
pub open spec fn sync_line(statuses: Map<usize, Seq<char>>) -> Seq<char> {
    "zjstatus::status_sync::"@ + render_statuses(statuses)
}

/// The line by which an instance asks the others for their statuses.
pub open spec fn request_line() -> Seq<char> {
    "zjstatus::status_request::_"@
}

/// One of the panes has the number `id`.
pub open spec fn has_pane(panes: Seq<PaneInfo>, id: u32) -> bool {
    exists|i: int| 0 <= i < panes.len() && (#[trigger] panes[i]).id == id
}

/// `tab` is the position of a tab that has a pane with the number `id`, or there
/// is no such tab. Where several tabs have one, any of them may be meant.
pub open spec fn resolves(panes: Map<usize, Vec<PaneInfo>>, id: u32, tab: Option<usize>) -> bool {
    match tab {
        Some(t) => panes.contains_key(t) && has_pane(panes[t]@, id),
        None => forall|t: usize| #[trigger] panes.contains_key(t) ==> !has_pane(panes[t]@, id),
    }
}

/// The pane that a command names.
pub open spec fn pane_named(c: CommandView) -> Option<u32> {
    match c {
        CommandView::SetStatus { pane_id, .. } => Some(pane_id),
        CommandView::ClearStatus { pane_id } => Some(pane_id),
        _ => None,
    }
}

/// `tab` is where the pane is that a line names, if it names one.
pub open spec fn locates(panes: PaneManifest, line: Seq<char>, tab: Option<usize>) -> bool {
    match command_of(line) {
        Some(c) => match pane_named(c) {
            Some(id) => resolves(panes.panes@, id, tab),
            None => true,
        },
        None => true,
    }
}

/// The results of commands after the one named `name` was asked to run again: its
/// result is dated one day back, so that it counts as due.
pub open spec fn rerun_results(
    results: Map<Seq<char>, CommandResultView>,
    name: Seq<char>,
    now: Timestamp,
) -> Map<Seq<char>, CommandResultView> {
    if results.contains_key(name) {
        let result = results[name];
        results.insert(
            name,
            CommandResultView {
                context: result.context.insert("timestamp"@, day_before_text(now)),
                ..result
            },
        )
    } else {
        results
    }
}

/// The statuses after `set_status` for the tab at position `t`.
pub open spec fn status_set(
    statuses: Map<usize, Seq<char>>,
    t: usize,
    emoji: Seq<char>,
) -> Map<usize, Seq<char>> {
    if emoji.len() == 0 {
        statuses.remove(t)
    } else {
        statuses.insert(t, emoji)
    }
}

/// What a command does: the state after it, whether the bar is to be drawn again,
/// and whether the statuses are to be told to the other instances. `tab` is where
/// the named pane is, `now` the time.
pub open spec fn effect(
    s: ZellijStateView,
    c: CommandView,
    tab: Option<usize>,
    now: Timestamp,
) -> (ZellijStateView, bool, bool) {
    match c {
        CommandView::Rerun { name } => (
            ZellijStateView { command_results: rerun_results(s.command_results, name, now), ..s },
            true,
            false,
        ),
        CommandView::Notify { message } => (
            ZellijStateView {
                incoming_notification: Some(MessageView { body: message, received_at: now }),
                ..s
            },
            true,
            false,
        ),
        CommandView::Pipe { name, content } => (
            ZellijStateView { pipe_results: s.pipe_results.insert(name, content), ..s },
            true,
            false,
        ),
        CommandView::SetStatus { pane_id, emoji } => match tab {
            Some(t) => (
                ZellijStateView { tab_statuses: status_set(s.tab_statuses, t, emoji), ..s },
                true,
                true,
            ),
            None => (s, false, false),
        },
        CommandView::StatusSync { statuses } => (
            ZellijStateView { tab_statuses: statuses, ..s },
            true,
            false,
        ),
        CommandView::StatusRequest => (s, false, true),
        CommandView::ClearStatus { pane_id } => match tab {
            Some(t) => (
                ZellijStateView { tab_statuses: s.tab_statuses.remove(t), ..s },
                true,
                true,
            ),
            None => (s, false, false),
        },
    }
}

/// What a line does. One that asks for nothing does nothing.
pub open spec fn line_effect(
    s: ZellijStateView,
    line: Seq<char>,
    tab: Option<usize>,
    now: Timestamp,
) -> (ZellijStateView, bool, bool) {
    match command_of(line) {
        Some(c) => effect(s, c, tab, now),
        None => (s, false, false),
    }
}

/// What lines do, one after the other. The bar is drawn again, and the statuses
/// are told, if one of the lines asks for it.
pub open spec fn lines_effect(
    s: ZellijStateView,
    lines: Seq<Seq<char>>,
    tabs: Seq<Option<usize>>,
    nows: Seq<Timestamp>,
) -> (ZellijStateView, bool, bool)
    decreases lines.len(),
{
    if lines.len() == 0 {
        (s, false, false)
    } else {
        let before = lines_effect(s, lines.drop_last(), tabs.drop_last(), nows.drop_last());
        let last = line_effect(before.0, lines.last(), tabs.last(), nows.last());
        (last.0, before.1 || last.1, before.2 || last.2)
    }
}

/// A line sets or clears a status where there are some. After such a line the table may
/// be empty, and the others have to hear of it.
pub open spec fn alters(s: ZellijStateView, line: Seq<char>, tab: Option<usize>) -> bool {
    match command_of(line) {
        Some(c) => pane_named(c) is Some && tab is Some && !s.tab_statuses.is_empty(),
        None => false,
    }
}

/// One of the lines sets or clears a status where there are some by then.
pub open spec fn lines_alter(
    s: ZellijStateView,
    lines: Seq<Seq<char>>,
    tabs: Seq<Option<usize>>,
    nows: Seq<Timestamp>,
) -> bool
    decreases lines.len(),
{
    if lines.len() == 0 {
        false
    } else {
        let before = lines_effect(s, lines.drop_last(), tabs.drop_last(), nows.drop_last());
        lines_alter(s, lines.drop_last(), tabs.drop_last(), nows.drop_last()) || alters(
            before.0,
            lines.last(),
            tabs.last(),
        )
    }
}

/// Tabs and times at which lines can be carried out: one for each line.
pub open spec fn admissible(
    panes: PaneManifest,
    lines: Seq<Seq<char>>,
    tabs: Seq<Option<usize>>,
    nows: Seq<Timestamp>,
) -> bool {
    &&& tabs.len() == lines.len()
    &&& nows.len() == lines.len()
    &&& forall|i: int|
        0 <= i < lines.len() ==> locates(panes, #[trigger] lines[i], tabs[i]) && nows[i].current()
}

/// Finds the tab that has a pane with the number `pane_id`. Panes of plugins
/// count as panes here, whichever number they have.
pub fn resolve_tab_index(panes: &PaneManifest, pane_id: u32) -> (tab: Option<usize>)
    ensures
        resolves(panes.panes@, pane_id, tab),
        match tab {
            Some(t) => panes.panes@.contains_key(t) && exists|i: int|
                0 <= i < panes.panes@[t]@.len() && (#[trigger] panes.panes@[t]@[i]).id == pane_id,
            None => forall|t: usize, i: int|
                panes.panes@.contains_key(t) && 0 <= i < panes.panes@[t]@.len() ==> (
                #[trigger] panes.panes@[t]@[i]).id != pane_id,
        },
{
    let iter = panes.panes.iter();
    let ghost all = iter.remaining();
    let ghost m = panes.panes@;
    for entry in it: iter
        invariant
            it.seq() == all,
            m == panes.panes@,
            forall|i: int|
                0 <= i < all.len() ==> m.contains_key(*(#[trigger] all[i]).0) && m[*all[i].0]
                    == *all[i].1,
            forall|i: int| 0 <= i < it.index() ==> !has_pane((#[trigger] all[i]).1@, pane_id),
    {
        if any_pane(entry.1, pane_id) {
            return Some(*entry.0);
        }
    }
    proof {
        assert forall|t: usize| #[trigger] m.contains_key(t) implies !has_pane(m[t]@, pane_id) by {
            assert(all.contains((&t, &m[t])));
            let i = choose|i: int| 0 <= i < all.len() && all[i] == (&t, &m[t]);
            assert(!has_pane(all[i].1@, pane_id));
        }
    }
    None
}

fn any_pane(panes: &Vec<PaneInfo>, id: u32) -> (found: bool)
    ensures
        found == has_pane(panes@, id),
        found <==> exists|i: int| 0 <= i < panes@.len() && (#[trigger] panes@[i]).id == id,
{
    let mut i: usize = 0;
    while i < panes.len()
        invariant
            i <= panes@.len(),
            forall|j: int| 0 <= j < i ==> (#[trigger] panes@[j]).id != id,
        decreases panes@.len() - i,
    {
        if panes[i].id == id {
            return true;
        }
        i += 1;
    }
    false
}

fn read_pane_id(s: &str) -> (id: Option<u32>)
    ensures
        id == pane_id_of(s@),
{
    match parse_number(s, u32::MAX as u64) {
        Some(n) => Some(n as u32),
        None => None,
    }
}

/// Reads a line.
pub fn decode_line(line: &str) -> (command: Option<Command>)
    ensures
        command_view(command) == command_of(line@),
{
    proof {
        reveal_strlit("::");
    }
    let parts = split_text(line, "::");
    let ghost all = texts(parts@);
    assert(all == split(line@, "::"@));
    if parts.len() < 3 {
        return None;
    }
    if !same_text(parts[0], "zjstatus") {
        return None;
    }
    assert(all[0] == parts@[0]@);
    assert(all[1] == parts@[1]@);
    assert(all[2] == parts@[2]@);
    assert(all.len() > 3 ==> all[3] == parts@[3]@);
    let name = parts[1];
    let argument = parts[2];
    if same_text(name, "rerun") {
        Some(Command::Rerun { name: argument.to_owned() })
    } else if same_text(name, "notify") {
        Some(Command::Notify { message: argument.to_owned() })
    } else if same_text(name, "pipe") {
        if parts.len() < 4 {
            return None;
        }
        Some(Command::Pipe { name: argument.to_owned(), content: parts[3].to_owned() })
    } else if same_text(name, "set_status") {
        if parts.len() < 4 {
            return None;
        }
        match read_pane_id(argument) {
            Some(pane_id) => Some(Command::SetStatus { pane_id, emoji: parts[3].to_owned() }),
            None => None,
        }
    } else if same_text(name, "status_sync") {
        match deserialize_tab_statuses(argument) {
            Some(statuses) => Some(Command::StatusSync { statuses }),
            None => None,
        }
    } else if same_text(name, "status_request") {
        Some(Command::StatusRequest)
    } else if same_text(name, "clear_status") {
        match read_pane_id(argument) {
            Some(pane_id) => Some(Command::ClearStatus { pane_id }),
            None => None,
        }
    } else {
        None
    }
}

/// Keeps `content` for the widget `name`.
pub fn pipe(state: &mut ZellijState, name: &str, content: &str)
    ensures
        final(state)@ == (ZellijStateView {
            pipe_results: old(state)@.pipe_results.insert(name@, content@),
            ..old(state)@
        }),
{
    state.pipe_results.insert(name.to_owned(), content.to_owned());
    assert(state@.pipe_results =~= old(state)@.pipe_results.insert(name@, content@));
}

/// Takes in a notification that came at `now`.
pub fn notify(state: &mut ZellijState, message: &str, now: Timestamp)
    ensures
        final(state)@ == (ZellijStateView {
            incoming_notification: Some(MessageView { body: message@, received_at: now }),
            ..old(state)@
        }),
{
    state.incoming_notification = Some(Message { body: message.to_owned(), received_at: now });
}

/// Dates the result of a command back by a day, so that it is run again. A command
/// without a result is left alone.
pub fn rerun_command(state: &mut ZellijState, command_name: &str, now: Timestamp)
    requires
        now.current(),
    ensures
        final(state)@ == (ZellijStateView {
            command_results: rerun_results(old(state)@.command_results, command_name@, now),
            ..old(state)@
        }),
        old(state)@.command_results.contains_key(command_name@) ==> {
            let before = old(state)@.command_results[command_name@];
            let after = final(state)@.command_results[command_name@];
            &&& after.exit_code == before.exit_code
            &&& after.stdout == before.stdout
            &&& after.stderr == before.stderr
            &&& after.context == before.context.insert("timestamp"@, day_before_text(now))
        },
{
    match state.command_results.remove(command_name) {
        Some(result) => {
            let mut result = result;
            let ghost was = result@;
            result.context.insert("timestamp".to_owned(), day_before(now));
            assert(result@.context =~= was.context.insert("timestamp"@, day_before_text(now)));
            state.command_results.insert(command_name.to_owned(), result);
        },
        None => {},
    }
    assert(state@.command_results =~= rerun_results(
        old(state)@.command_results,
        command_name@,
        now,
    ));
}

/// Carries out a command. `tab` is where the pane is that the command names, `now`
/// the time.
pub fn apply_command(
    state: &mut ZellijState,
    command: Command,
    tab: Option<usize>,
    now: Timestamp,
) -> (asks: (bool, bool))
    requires
        now.current(),
    ensures
        (final(state)@, asks.0, asks.1) == effect(old(state)@, command@, tab, now),
{
    match command {
        Command::Rerun { name } => {
            rerun_command(state, name.as_str(), now);
            (true, false)
        },
        Command::Notify { message } => {
            notify(state, message.as_str(), now);
            (true, false)
        },
        Command::Pipe { name, content } => {
            pipe(state, name.as_str(), content.as_str());
            (true, false)
        },
        Command::SetStatus { pane_id: _, emoji } => match tab {
            Some(t) => {
                if emoji.as_str().is_empty() {
                    drop_status(&mut state.tab_statuses, t);
                } else {
                    put_status(&mut state.tab_statuses, t, emoji);
                }
                (true, true)
            },
            None => (false, false),
        },
        Command::StatusSync { statuses } => {
            state.tab_statuses = statuses;
            (true, false)
        },
        Command::StatusRequest => (false, true),
        Command::ClearStatus { pane_id: _ } => match tab {
            Some(t) => {
                drop_status(&mut state.tab_statuses, t);
                (true, true)
            },
            None => (false, false),
        },
    }
}

/// Carries out one line of the protocol. Gives whether the bar is to be drawn
/// again, and whether the statuses are to be told to the other instances.
pub fn process_line(state: &mut ZellijState, line: &str) -> (asks: (bool, bool))
    ensures
        exists|tab: Option<usize>, now: Timestamp|
            locates(old(state).panes, line@, tab) && now.current() && (
                final(state)@,
                asks.0,
                asks.1,
            ) == #[trigger] line_effect(old(state)@, line@, tab, now),
{
    let asks = carry_out_line(state, line);
    (asks.render, asks.tell)
}

/// Carries out one line of the protocol.
pub fn carry_out_line(state: &mut ZellijState, line: &str) -> (asks: Asks)
    ensures
        exists|tab: Option<usize>, now: Timestamp|
            locates(old(state).panes, line@, tab) && now.current() && (
                final(state)@,
                asks.render,
                asks.tell,
            ) == #[trigger] line_effect(old(state)@, line@, tab, now) && asks.altered == alters(
                old(state)@,
                line@,
                tab,
            ),
{
    let ghost before = state@;
    match decode_line(line) {
        Some(command) => {
            let tab = match &command {
                Command::SetStatus { pane_id, emoji: _ } => resolve_tab_index(
                    &state.panes,
                    *pane_id,
                ),
                Command::ClearStatus { pane_id } => resolve_tab_index(&state.panes, *pane_id),
                _ => None,
            };
            let now = match &command {
                Command::Rerun { name: _ } => local_now(),
                Command::Notify { message: _ } => local_now(),
                _ => Timestamp { secs: 0, nanos: 0 },
            };
            proof {
                lemma_no_statuses(state.tab_statuses@);
            }
            let altered = tab.is_some() && !state.tab_statuses.is_empty();
            let (render, tell) = apply_command(state, command, tab, now);
            assert((state@, render, tell) == line_effect(before, line@, tab, now));
            Asks { render, tell, altered }
        },
        None => {
            proof {
                let now = Timestamp { secs: 0, nanos: 0 };
                assert(now.current());
                assert(line_effect(state@, line@, None, now) == (state@, false, false));
            }
            Asks { render: false, tell: false, altered: false }
        },
    }
}

/// An empty table of statuses holds nothing.
pub proof fn lemma_no_statuses(m: Map<usize, String>)
    ensures
        m.is_empty() <==> status_map(m).is_empty(),
{
    assert(status_map(m).dom() =~= m.dom());
}

/// A line never changes what is known of the panes.
pub proof fn lemma_panes_kept(
    s: ZellijStateView,
    line: Seq<char>,
    tab: Option<usize>,
    now: Timestamp,
)
    ensures
        line_effect(s, line, tab, now).0.panes == s.panes,
{
}

/// Carries out a message of the protocol, line by line. Gives whether the bar is to
/// be drawn again, and whether the statuses are to be told to the other instances.
pub fn parse_protocol(state: &mut ZellijState, input: &str) -> (asks: (bool, bool))
    ensures
        exists|tabs: Seq<Option<usize>>, nows: Seq<Timestamp>|
            #![trigger lines_effect(old(state)@, split(input@, "\n"@), tabs, nows)]
            admissible(old(state).panes, split(input@, "\n"@), tabs, nows) && (
                final(state)@,
                asks.0,
                asks.1,
            ) == lines_effect(old(state)@, split(input@, "\n"@), tabs, nows),
{
    let asks = carry_out(state, input);
    (asks.render, asks.tell)
}

/// Carries out a message of the protocol, line by line.
pub fn carry_out(state: &mut ZellijState, input: &str) -> (asks: Asks)
    ensures
        exists|tabs: Seq<Option<usize>>, nows: Seq<Timestamp>|
            #![trigger lines_effect(old(state)@, split(input@, "\n"@), tabs, nows)]
            admissible(old(state).panes, split(input@, "\n"@), tabs, nows) && (
                final(state)@,
                asks.render,
                asks.tell,
            ) == lines_effect(old(state)@, split(input@, "\n"@), tabs, nows) && asks.altered
                == lines_alter(old(state)@, split(input@, "\n"@), tabs, nows),
{
    proof {
        reveal_strlit("\n");
    }
    let lines = split_text(input, "\n");
    let ghost all = texts(lines@);
    let mut asks = Asks { render: false, tell: false, altered: false };
    let ghost mut tabs: Seq<Option<usize>> = Seq::empty();
    let ghost mut nows: Seq<Timestamp> = Seq::empty();
    let mut i: usize = 0;
    while i < lines.len()
        invariant
            i <= lines@.len(),
            all == texts(lines@),
            all == split(input@, "\n"@),
            state.panes == old(state).panes,
            admissible(old(state).panes, all.take(i as int), tabs, nows),
            (state@, asks.render, asks.tell) == lines_effect(
                old(state)@,
                all.take(i as int),
                tabs,
                nows,
            ),
            asks.altered == lines_alter(old(state)@, all.take(i as int), tabs, nows),
        decreases lines@.len() - i,
    {
        let ghost before = state@;
        let line = lines[i];
        let one = carry_out_line(state, line);
        proof {
            let (tab, now) = choose|tab: Option<usize>, now: Timestamp|
                locates(before.panes, line@, tab) && now.current() && (
                    state@,
                    one.render,
                    one.tell,
                ) == #[trigger] line_effect(before, line@, tab, now) && one.altered == alters(
                    before,
                    line@,
                    tab,
                );
            lemma_panes_kept(before, line@, tab, now);
            let some = all.take(i + 1);
            assert(some.drop_last() =~= all.take(i as int));
            assert(some.last() == line@);
            assert(tabs.push(tab).drop_last() =~= tabs);
            assert(nows.push(now).drop_last() =~= nows);
            assert forall|j: int| 0 <= j < some.len() implies locates(
                old(state).panes,
                #[trigger] some[j],
                tabs.push(tab)[j],
            ) && nows.push(now)[j].current() by {
                if j < i {
                    assert(some[j] == all.take(i as int)[j]);
                }
            }
            tabs = tabs.push(tab);
            nows = nows.push(now);
        }
        asks = Asks {
            render: asks.render || one.render,
            tell: asks.tell || one.tell,
            altered: asks.altered || one.altered,
        };
        i += 1;
    }
    assert(all.take(all.len() as int) =~= all);
    asks
}

} // verus!
