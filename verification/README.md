# fast6

A batch video encoder for AV1, H.265 and H.264, with a desktop client, a terminal
client and an encoding daemon. The logic is a Verus library; the programs around
it are ordinary Rust.

- `src/`: the verified library. `encoder` and `probe` build ffmpeg's command from
  what ffprobe says; `format`, `decimal`, `natural` and `number` read, round and
  show quantities; `progress` follows what ffmpeg writes; `walk`, `path` and
  `order` find files; `proto`, `shim` and `server` are the daemon's protocol, its
  HTTP input and its decisions, and `job` the course of one job; `session`, `slot`, `start`, `app`, `input` and
  `explorer` are a client's state; `ui`, `screen` and `panel` lay the terminal
  client's screen out; `gui` and `tray` are what the windows show; `config` keeps
  settings.
- `tests/`: tests of the library from outside.
- `app/`: the programs: sockets, threads, processes, terminals and windows.
