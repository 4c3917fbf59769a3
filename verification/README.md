# Soundfiller Studio — analysis library

The verified core of the Soundfiller Studio backend, written in Verus.

- `src/` is the library. It holds the logic of the track analyser that works
  on integers and text: the job registry behind the analysis queue and its
  commands, YouTube request checks and `yt-dlp` output parsing, Camelot key
  naming, audio framing, change-point picking and the bar-grid helpers of the
  arrangement document. Each public function carries a contract, and the
  `law_*` proof functions state what holds across calls.
- `tests/` runs the library on concrete values.
- `app/` is the Tauri application: file and process I/O, events, the
  background worker loop, and the signal analysis itself, which computes on
  floating-point samples and calls the library for its integer logic.
