# fbsviewer

A FlatBuffers (and protobuf) binary visualizer: it encodes JSON into a
FlatBuffers binary under a compiled schema, reads hex dumps, turns the
annotated regions of a walked binary back into JSON, filters and renders the
regions, and drives the viewer's state through a command/effect state machine.

The library under `src/` is written in Verus. Its functions are verified
against their contracts, except a few small wrappers around std and the
`base64` crate (marked `#[verifier::external_body]`), whose contracts are
trusted:

- `encoder` — JSON to FlatBuffers binary, with the exact byte layout as a
  specification (shared vtables, tables, strings, vectors, structs, unions, file
  identifier).
- `decoder` — annotated regions back to a JSON value.
- `hex`, `permalink` — hex dump parsing and share-link payloads, each with a
  round-trip law.
- `state`, `effects`, `view`, `url` — the viewer's state machine: `dispatch`
  maps a command to the next state and the effects to run, with laws on the
  event log, toggles, toasts and share links; the commands that report
  effects and file loads back; what the view shows and which commands its
  widgets produce; the share link in the page URL.
- `filter`, `output`, `cli` — region filters and table/compact/JSON rendering
  for the command-line tool.
- `schema`, `proto`, `region`, `json`, `templates` — the data the rest works on.

`app/` is the command-line program around the library: argument parsing, file
I/O, the schema compiler and binary walker crates, and serde conversions.
