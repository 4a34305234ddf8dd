# codex_status

Status tracking for local Codex sessions and account quotas, verified with
Verus.

- `src/` is the verified library: the session state machine driven by log
  events (`status`), the alerts raised by changes (`alerts`), the parsers of
  log records, RPC replies and configuration (`records`, `rpc`, `config`,
  over the JSON model in `json`), the incremental log cursor (`cursor`), the
  store of what the logs say (`local`), the decisions of the runtime
  (`sources`), settings validation (`settings`), alert delivery and window
  placement (`platform`), executable search paths (`executable`), and the
  stable ordering they share (`order`, `keyed`, `text`).
- `app/` is the collector program around it: file and process I/O, the
  file watcher, the RPC connection, and the serialised forms of the
  library's types.
- `tests/` exercises the library on concrete values.

This build has no window: the floating status window, its tray menu,
desktop notifications and sounds are not part of it. The library holds
what they decide (which alerts to raise, how each is delivered, where a
restored window goes); the collector prints snapshots instead.

Run the collector with `--collector [settings-path]`; it prints each new
snapshot as a line of JSON and takes `{"command":"refresh"}` and
`{"command":"save_preferences","settings":{...}}` lines on its input.
