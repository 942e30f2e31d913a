# tt

A terminal countdown-timer tool. Start a timer with `tt 25m focus` (the
duration first or last, the rest is the name), switch between timers, pause,
reset, update, remove or complete them from a command bar, and undo the last
change for twenty seconds. Time spent idle or overdue accumulates as "time
debt". Timers can mirror the active tasks of the external `ttask` tool.

## Layout

- `src/` is the library, verified with Verus. Every operation is a function
  of the state, a clock reading in milliseconds and its input, with a
  contract stating exactly what it does:
  - `duration` parses durations (`5`, `30s`, `1.5h`) and formats `HH:MM:SS`;
  - `command` and `cli` read the command bar and the command line;
  - `timer` is one timer's state machine, `alert` its overdue alert stages;
  - `config` validates settings and answers `tt config`;
  - `task_integration` parses `ttask` listings and defines the task source;
  - `store` and `task_state` decide what is saved and how it comes back;
  - `app` is the application state: commands, keys, undo, ticking, time
    debt, reconciliation with `ttask`, and in `app::laws` the properties
    that hold across operations (undo restores; a second reconciliation
    with the same listing adds and drops nothing and, once every task's timer
    carries its task's own name, changes nothing at all; at most one timer
    runs; creation order is kept).
- `app/` is the program around it: argument parsing, files, the terminal,
  drawing, notifications and the `ttask` subprocess.
- `tests/` exercises the library.
