# deck

The verified core of a minimal terminal DJ player, written in Verus, with a
thin command-line front end around it.

- `src/` is the library. Every function carries a `requires`/`ensures`
  contract that Verus proves; the `*_laws` modules and the `lemma_*` proof
  functions state properties that span several calls (a log line parses back
  to its event, tags never change a track's identity, a relative hint leads
  back to its file, resolution settles on the first file that confirms, and
  so on).
  - `identity`: the audio payload of WAV, FLAC, Ogg, MP4 and framed
    (MP3/AAC) files and its BLAKE3 content hash.
  - `playlist`, `resolution`, `panel`: playlist entries, hash confirmation,
    the order in which an entry's file is looked for, and the playlist panel.
  - `browser`, `ranking`: the file browser's cursor, modes and fuzzy search.
  - `messages`, `history`, `error_reports`, `stamp_order`, `calendar_laws`:
    the message log's line format and history view, civil dates and
    timestamps.
  - `session`, `tracks`, `xdg`, `config`: what is kept between runs, where,
    and the configuration and keymap.
  - `ui`: the player's input step (modals, the Space-chord layer, nudges,
    the base-BPM ramp, quit confirmation, view settings) and its screen
    layout.
  - `rebuild`: when a deck's detail buffer is rebuilt, and where its cue
    falls.
  - `deck`, `render`, `scales`: the tag editor, beat jumps, tick rows,
    Braille waveform cells, word wrapping and the detail view's geometry.
- `app/` is ordinary Rust: argument handling, files, the terminal and the few
  computations done in floating point.
- `tests/` exercises the library on concrete values.
