# rurl

A downloader for the command line that fetches a file in several chunks at once,
goes on where an earlier run stopped, and can be managed over HTTP.

What it decides is a library, written in Verus and proved: `src/`.

- `types`, `text`, `errors`, `headers`: the data of tasks, and what is read and shown.
- `scheduler`, `tiling`: handing out chunks, splitting those of slow workers, and why
  the chunks always divide the file.
- `worker`: the request for a chunk, and what becomes of the bytes that come back.
- `plan`, `run`: how a task begins, and how it goes on until it ends.
- `delivery`, `effort`: why the file ends up as the one that the links serve, and why
  the work comes to an end.
- `checksum`, `limiter`, `storage`: digests, speed limits, and where the state stands.
- `engine`, `api`: the tasks of a server, and its answers.
- `cli`, `command`, `progress`: what a command line asks for, and what is shown.

What it does is ordinary Rust around the library: `app/` holds the connections, the
files, the server, the bars, and the floating-point arithmetic of speeds.

`tests/` runs the library on concrete values.
