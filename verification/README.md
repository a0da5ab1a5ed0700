# blackbird

A small TCP line chat: a server that relays every client's lines to the whole
room, and a client that sends what is typed on its console.

- `src/` is the verified library (Verus):
  - `text` — the Unicode white-space set, trimming and prefixes, as specifications.
  - `comms::protocol` — nickname handshakes, nickname validity, the `exit`
    command, and the text of chat lines.
  - `comms::session` — what the client does with each console line.
  - `server::clients` — the registry of connected clients, with its laws.
  - `server::broker` — what the server does with console lines, accepted
    connections and lines received from clients.
- `app/` is the program around it: argument parsing, sockets, threads and the
  Ctrl+C handler.
- `tests/` runs the library on concrete values.
