# codex_goal_resumer

A watchdog that keeps a long-running Codex `/goal` moving across usage-limit
interruptions: it runs Codex in tmux, watches the pane, reads the quota status
after a usage limit, waits for the reset and sends `/goal resume`.

The library under `src/` holds the logic, with its contracts proved by Verus:

- `status`: the quota status of captured output (records, status
  generations, reset times, "try again at" timestamps, limit detection),
  with `label` (label normalisation), `pattern` (regular expressions, by the
  `regex` crate) and `time` (instants at a fixed offset and calendar
  operations, by `chrono`);
- `tracker`: which lines of a capture are new since the previous one;
- `monitor`: the wait before the next quota check and the watchdog's state
  machine, with `watch_runs` (laws over every run of events from a new
  watchdog);
- `command`: shell quoting, the Codex and watchdog commands, setting checks;
- `text`: character-level helpers and their models;
- `tmux`: the tmux target.

`app/` is the program around it: the command line, the tmux commands and the
watchdog loop. The library's state machine asks for each pane check, client
check, `/status` or `/goal resume`, capture and sleep in turn; the loop only
carries these actions out and reports how each went.
