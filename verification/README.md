# asr-rs

A streaming speech-to-text daemon for Wayland. It captures the microphone, streams the audio to a
speech server over a WebSocket, and types what comes back into the focused window.

- `src/` is the library: what the daemon decides and computes, apart from floating-point work on
  samples, verified with Verus.
  - `audio`: choice of the device, grouping of samples, the ring buffer and its bytes
  - `tracker`: cutting cumulative transcript snapshots into deltas
  - `filter`, `speech`, `matching`, `spacing`, `postprocess`: cleaning up a delta
  - `drivers`, `inject`: the output drivers, their fallback chain and the choice for terminals
  - `session`: what a session sends, injects and ends on
  - `daemon`: what happens on each signal, and the pauses between attempts to connect
  - `config`: the settings and their defaults
  - `text`: characters, white space and searching
- `app/` is the program around it: signals, sockets, processes, the sound card and the resampler.
- `tests/` runs the library, with the crates it depends on.

The library trusts a few functions of the standard library and of the crates `regex`, `ringbuf` and
`serde_json`. Each has a doc comment that says what is taken for granted of it.
