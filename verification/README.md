# wayland-proxy

A crash-resilient Wayland proxy. It sits between a client and a compositor and
relays the wire protocol. When the compositor dies, the client stays connected;
when a compositor is back on the same socket, the proxy recreates the client's
objects there, under the ids the client already holds.

`src/` is the library: every decision, written in Verus and proved against its
contracts. It reads no socket and no file. `app/` is the program around it.

## The library

| Module | What it decides |
|---|---|
| `wire`, `arguments`, `signature` | framing, encoding and walking of messages |
| `schema`, `interfaces` | protocol descriptions and the table of known interfaces |
| `shadow_table` | which host object stands behind each of the client's |
| `recreation`, `session` | what is remembered for a recovery, and about a connection |
| `grab_state`, `buffer_flow`, `pending_frames` | what the client was told and is owed |
| `kinds`, `relay`, `relay_laws` | what becomes of each message, and what holds of it |
| `recovery`, `recovery_run`, `recovery_laws` | how objects come back after a reconnect |
| `grab_release` | which grabs are released before traffic resumes |
| `clipboard` | what of the clipboard outlives a compositor |
| `desktop_apps` | which application a client is |
| `connection` | when a connection freezes, recovers and ends |
| `handoff` | how a socket is taken from the process that bound it |
| `cli`, `recorder`, `notify`, `text` | settings, recording, notification, and texts |

What holds of several functions together is stated in public proof functions
whose names start with `lemma_`.

What the library takes on trust is marked `external_body`,
`external_type_specification` or `assume_specification`: the two-way map of
`bimap`, the protocol tables of the `wayland-*` crates, the option parser of
`clap`, and a few functions of the standard library.

## The program

```
wayland-proxy --display wayland-0
WAYLAND_DISPLAY=wayland-proxy-0 gtk4-demo
```

`--display` and `--listen` fall back to `WAYLAND_DISPLAY` and
`WAYLAND_PROXY_LISTEN`, `--log-level` to `RUST_LOG`, and `--record`, which
writes all traffic to a file, to `WAYLAND_PROXY_RECORD`.

Under the name `socket-handoff` the same program waits for a process to bind a
socket and renames the socket before the process can do anything else.
