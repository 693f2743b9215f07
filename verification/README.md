# R World Radio

An internet radio player for the desktop: pick a country, pick a station, and it plays.

- `src/` is the library, verified with Verus: the station list, playlists and segments, the
  normalizer of ADTS streams, the byte queue, the sample ring, and the decisions of the threads
  that follow a stream and play it. Each function states in its contract what it gives; the proof
  functions whose names begin with `law_` state what holds of several of them together.
- `app/` is the program around it: the window, the network, the decoder and the audio device.
- `tests/` runs the library.

What the library takes on trust is marked in the source: the calls into `serde_json` in `json.rs`,
`String::push` in `text.rs`, `String::from_utf8` in `net.rs`, and `str::to_lowercase` in `ui.rs`.
