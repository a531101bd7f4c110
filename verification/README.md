# zjstatus

The message protocol and the event handling of a status bar plugin for Zellij, verified
with Verus.

Each tab has an instance of the plugin. Programs set and clear the statuses of tabs by
messages, lines of the form `zjstatus::command::arguments`; instances tell each other
their statuses by the same protocol.

- `src/text.rs`, `src/number.rs`, `src/text_map.rs`: texts, decimal numbers, and tables
  with text keys.
- `src/json.rs`: quoted strings; `src/statuses.rs`: the statuses of tabs as JSON;
  `src/statuses_laws.rs`: that they are read back unchanged.
- `src/clock.rs`, `src/identity.rs`: instants, and the names of instances.
- `src/config.rs`: what an instance knows about its session.
- `src/pipe.rs`: the protocol; `src/pipe_laws.rs`: what holds of it as a whole.
- `src/plugin.rs`: an instance, its events and messages; `src/plugin_laws.rs`: what holds
  of instances, among them that they come to agree on the statuses.
- `app/`: the shell that talks to the host.

Functions whose outcome rests on the clock, on chance or on the order of a hash map state
what holds of every outcome. Beside each stands one that takes the outcome as an argument
and is exact: `apply_command`, `apply_event`, `load_with`.

Statuses are written and read as JSON; where the double quotes of a text do not pair up,
every comma in it separates. Whatever status a message can set reaches the
other instances unchanged, and so does the news that none is left. Statuses with `::` or a
line break do not fit a line of the protocol, and no message brings one in; the laws say so
exactly.
