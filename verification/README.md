# postgresql_rust

Commands for a small SQL front end. A client builds a `Cmd`, turns it into a
`Frame` and writes the frame's bytes to a socket; the server reads a `Cmd`
back from those bytes and runs the SQL statement that it builds from it.

Frame layout (each field is a tag byte, its data, then `\r\n`):

    method   & query, + insert, * update, - delete
    #table
    @n       n = number of columns, one byte
    ^column  once per column
    %n       n = number of values, one byte
    !value   once per value
    ?expression   only when there is one

- `src/cmd/` — `Cmd`, `Method`, the statements, the frame of a command and
  the reader of a command from bytes, with their contracts.
- `src/frame.rs` — `Frame`, its pieces and its bytes.
- `src/line.rs` — the line scanner (`get_line`).
- `src/text.rs` — joining strings, reading UTF-8.
- `src/roundtrip.rs` — the proof that reading a frame back gives the command.
- `app/` — the client, the server, the socket connection and the PostgreSQL pool.
