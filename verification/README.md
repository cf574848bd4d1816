# multi-desktop

The control plane of Multi-Desktop: one Linux host serving several isolated
desktop sessions to paired devices. The library in `src/` holds the
protocol, credential and session logic with Verus contracts and proofs;
`app/` holds the programs around it (daemon, client, session launchers and
per-desktop agents), which perform the I/O that the library decides.

Library modules:

- `transport` – the framed binary envelope and input-event encoding.
- `control` – bounded UTF-8 control lines and the stream replies.
- `protocol` – request routing, the per-origin failure limiter, the
  daemon's control-connection state machine and input relaying.
- `client` – the client's connection state machine and argument checks.
- `config` – the `key=value` configuration format and its rules.
- `pairing` – pairing codes, SHA-256 device verifiers, device records and
  the store's paths.
- `session` – desktop user names, paths, commands and lifecycle tasks.
- `input` – the libei input agent: device selection, duplicate filtering,
  resets and the input channel buffer.
- `agent` – capture-node selection, sink detection and status texts.
- `tls` – certificates, keys and trust anchors for rustls.
- `text`, `number` – the string and number handling the rest relies on.

Verify with Verus; `tests/` exercises the library on concrete values.
