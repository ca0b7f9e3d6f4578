# skyfire

A receiver for captured and live DVB transport streams, written in Rust and
verified with Verus.

- `src/` is the library. Every function states what it returns or changes, and
  Verus proves it.
  - `ts`: tracks, samples, timestamps, H.264 configuration, DVB subtitles
  - `ac3`, `mpa`: audio frame headers and decoding to PCM
  - `sync`: the audio-master clock, the present queue and the sync controller
  - `hls`: segments and playlists; `server`: streams and answers
  - `engine`: a whole capture at once; `bridge`: a stream for a browser
  - `inspect`: what a capture holds
- `tests/` runs the library, with small transport streams built on the spot.
- `app/` is the program around it: the command line, HTTP, files, and the
  browser bindings (compiled for `wasm32` only).

Demuxing, coded audio and the containers are the work of outside crates. Each
call into one is a small function whose contract is believed, not proved; its
doc comment names the outside function and says what is claimed of it. Results
that take pages to state have a name (`raised_by_feed`, `ac3_frame`,
`hls_on_push`, ...), and the contracts speak of that name exactly.

Counters stay at the top of their range instead of wrapping. A sample whose
times the segmenters could not add up or scale in 64 bits is not handed to them
and counts as a segmenter error.
