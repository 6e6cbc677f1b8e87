# observer

Scripted benchmark runner and terminal interface for Minecraft servers. A
scenario written in the small `.mcb` language starts the server, waits for
log lines, sends console commands, grabs numbers out of the output, loops
for a fixed time at a fixed pace and stops the server; the samples are
exported as CSV and JSON.

## Layout

- `src/` — the library, verified with Verus:
  - `text.rs`, `fmt.rs`, `order.rs`: characters, trimming, lines, decimal
    text, the order of strings and sorted lists of distinct strings.
  - `duration.rs`, `pattern.rs`, `scenario.rs`: durations, line patterns
    (compiled with the `regex` crate) and the `.mcb` parser.
  - `script.rs`: the formatter, script file names and the `s init` template.
  - `runner.rs`: the scenario runner as a state machine. Each transition
    takes what came of the last outside action (a server start, a console
    write, a line of output, a sleep, a parsed number) and says what to
    report and what to do next.
  - `tui.rs`: the interface's decisions: line editing on UTF-8 byte
    cursors, command-line splitting, the settings form, the setup wizard
    and what every key does.
  - `export.rs`: CSV and JSON text, file-name stems and UTC timestamps.
  - `config.rs`, `strings.rs`, `cli.rs`: settings, interface strings in
    English and Chinese, and the command line.
- `app/` — the program around the library: the server process, threads,
  files, the settings file (serde), terminal drawing (ratatui, crossterm)
  and the floating-point statistics.
- `tests/` — tests of the library.

The `trace` module states laws over whole runs of the runner: what it
reports and where it ends up after any sequence of transitions.

The laws proved about the library are the `law_*` proof functions.
