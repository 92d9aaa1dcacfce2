# herdr_last_tab

The verified core of a Herdr plugin that toggles between the two most
recently focused tabs of a workspace, or panes of a tab.

- `src/mru.rs`: the model of one most-recently-used history (`observed`,
  `pruned`, `latest_other`) and the laws proved of it.
- `src/history.rs`: `HistoryStore`, whose tab histories are keyed by workspace
  and pane histories by tab, and `record_focus_event`.
- `src/event.rs`: checking a focus event payload against its event name, and
  the messages of its errors.
- `src/json.rs`: JSON documents, parsed by `serde_json` from raw bytes, and
  lookups in them.
- `src/herdr.rs`: judging Herdr's replies from their raw text: the `tab list`
  and `pane list` output and the `pane.focus` reply.
- `src/toggle.rs`: the decisions of the two toggle actions.
- `src/context.rs`, `src/text.rs`: context values and string comparison.
- `app/main.rs`: the plugin binary: environment, files, lock, running Herdr,
  the socket, and the serde forms of the stored history and the event payload.
