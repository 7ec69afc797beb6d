# mcrizzledizzle

A Minecraft Classic (protocol 7) server. The verified library in `src/` holds the
server's logic; `app/` is the program around it (sockets, threads, files, the rhai
scripting engine, configuration parsing and logging).

Library modules:

- `protocol`: the packets the server sends, byte for byte (64-byte strings,
  big-endian shorts, fixed-point positions, chat lines).
- `world`: the block world, its generation, the world file format and cell indexing.
- `level`: the level data stream (length prefix, gzip through flate2, 1 KiB chunks)
  and the bundle a joining client receives.
- `player`: player slots and broadcasting to connected players.
- `session`: one client connection: identification, movement, chat, block changes,
  and the periodic sync of what the client sees of other players.
- `command`: the chat commands `kick` and `tp`, and hand-off of the others to extensions.
- `server`: choosing a free slot for a new connection.
- `extensions`, `version`: what extensions can do and the built-in listings, versions
  parsed with the regex crate.
- `text`, `config`: character helpers and configuration values.
