# video-worker

A frame-accurate video worker and the pieces around it, with its logic
proved by Verus.

The worker opens a video, indexes every frame, and serves requests for single
frames as RGBA buffers over a JSON-lines protocol on stdin and stdout. It keeps
a small least-recently-used cache of buffers per session, decodes the
neighbours of each requested frame ahead of time, names each buffer by a frame
id that it checks when the buffer is asked for again, and steps relative to
the current frame without leaving the index.

## Layout

- `src/` is the verified library.
  - `protocol.rs`: the messages and their views; the handshake; argument modes.
  - `frame.rs`: frame ids, their validation, timestamps, stepping, buffer file names.
  - `cache.rs`: the per-session buffer cache, modelled as a sequence in
    least-recently-used order, with its laws.
  - `server.rs`: the worker as a state machine. A request yields a step whose
    action is either a reply or work for the host (read the FFmpeg versions,
    probe, open, decode and store a frame); the host hands the outcome back as
    an event. Each step also names the buffer files and sessions to drop.
  - `media.rs`: timestamp and duration arithmetic, seek anchors, the decisions
    taken on each decoded frame, index entries and session summaries.
  - `sdk.rs`: the report on a bundled FFmpeg SDK from what was found on disk
    and what `ffmpeg -version` printed.
  - `client.rs`: the host side of the protocol: reading answers, checking the
    handshake, reading the worker's output stream.
  - `text.rs`: decimal text, character search and the string helpers the rest
    builds on.
- `app/` is the program: the stdin/stdout loop, the host that runs the
  server's actions through FFmpeg and the file system, and the JSON copies of
  the message types.
- `tests/` runs the library on concrete values.
