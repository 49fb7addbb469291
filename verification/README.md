# rmux_server

The decisions of a terminal multiplexer's server, verified with Verus: what it does
with the input of attached clients, with control-mode streams, with requests about
panes and sessions, and with the surfaces that it shows over them.

## Layout

- `src/` is the verified library. A function that depends on something outside of the
  library (a clock, a decoder, a process, a channel) takes what came of it as an
  argument, and hands out what is to be done as a value.
  - Live input: `live_input`, `live_step`, `live_scan`, `keys`, `bracketed_paste`,
    `terminal_response`, `palette_response`, `mouse_report`, `copy_mode_input`,
    `windows_console_sequence`.
  - Control mode: `control`, `control_lines`, `control_output`, `control_events`,
    `control_commands`, `control_clients`, `refresh_client`.
  - Panes and sessions: `sessions`, `scope_support`, `pane_by_id`, `pane_options`,
    `pane_state`, `output_subscriptions`, `leases`, `request_identity`,
    `requester_access`, `tree_kill`.
  - Overlays: `overlay_parse`, `popup_job`.
  - Shared: `bytes`, `text`, `error`, `quiet_commands`.
- `tests/` runs the library on given values.
- `app/` is the asynchronous side: streams, channels, timers and tasks, each asking
  the library what to do next.

## What is stated

Each function's contract says what it returns or changes for all inputs, over
mathematical models of the data. What holds across functions is stated by public proof
functions with names that read as sentences, such as
`lines_do_not_depend_on_reads`, `a_scan_sends_in_order_and_once`,
`splitting_keeps_every_byte` or `an_ended_lease_stays_ended`.

One thing is believed without proof: what `String::from_utf8_lossy` gives
(`control_lines::text_from_utf8_lossy`).
