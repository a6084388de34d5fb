# mqttui

A terminal client for MQTT: an interactive view of the topics a broker
publishes, and subcommands to log messages, read one message, publish one and
clean retained messages.

The library in `src/` holds the logic and is verified with Verus:

- `topic_logic`, `topic`, `topic_view`: topics as `/`-separated levels, their
  parents and leaves, the tree of all topics and which of them are visible.
- `payload`: reading payloads as JSON, MessagePack, text or bytes, cutting
  them to a size limit, their text, selecting parts of JSON and MessagePack
  values and the trees shown for them; `json_view` does the same on a JSON
  tree of its own.
- `mqtt`: messages as they are kept, the notifications of the MQTT client,
  connecting, and the payloads of the first interactive view.
- `cli`: the broker URL.
- `clean_retained`, `log`, `read_one`, `publish`: what each subcommand does
  with each notification.
- `interactive`: the history of all topics, the decisions of the interactive
  view for keys, clicks and the mouse wheel, search, layout, footer and the
  history table.

The program around it is in `app/`: the command line, the terminal, drawing,
TLS and the MQTT connection. It hands the library plain values and does what
the library decides.

The tests in `tests/` run the library with the real outside crates.
