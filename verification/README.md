# turntable

A collaborative audio streaming library: sinks hold decoded samples in
range buffers, players read them along a timeline, queues decide what plays
next, rooms gather listeners, and a small WAV encoder turns samples into a
stream.

- `src/` is the library, verified with Verus. Each module states its
  behaviour in `requires`/`ensures` over mathematical models (`Seq`, `Map`,
  views of each type); the public proof functions (`lemma_*`) state the laws
  that hold across calls, such as reading back what was written into a
  buffer, or advancing and backtracking a queue undoing each other.
  Calls into outside crates (`rand`, `argon2`, `url`, `regex`) sit behind
  small trusted wrappers whose doc comments say what is assumed of them.
- `app/` is the runtime around it: threads and channels of the pipeline,
  decoding with Symphonia and resampling with rubato, network and file I/O,
  `yt-dlp`, the HTTP server, and everything that computes with floating
  point.
- `tests/` exercises the library on concrete values.
