# guitarpro

A Verus library for Guitar Pro scores: the data models of a legacy Guitar Pro
song, an optimized score, MusicXML and MuseScore documents, the conversions
between them, and the analyses that a score tool runs on a song (chords,
keys and key changes, fingering, repeats, form, duplicates). Every function
in `src/` carries a `requires` / `ensures` contract that Verus proves.

## Layout

- `src/model/` — the data models: `legacy` (Guitar Pro songs), `mod`
  (the optimized score), `musicxml`, `mscz`.
- `src/convert/` — conversions: legacy song to optimized score
  (`optimized/song.rs`) and back (`to_legacy.rs`), a MusicXML document to
  a legacy song (`song_from_xml.rs`, with the note and beat reading in
  `guitarpro.rs`), a legacy song to a MusicXML document and the writing of
  notes and measures (`musicxml/`), MuseScore notes, beats and voices
  (`mscz/`), and the loss report.
- `src/analysis/` — chord naming, key detection, fingering, repeat marks,
  form.
- `src/cli/` — the decisions of the command-line tool: format resolution,
  info tables, repeat expansion, simile marks, duplicates, extraction.
- `src/text.rs` — decimal rendering and parsing, splitting, trimming.
- `tests/` — tests run against the compiled library.
- `app/` — the command-line program: argument handling, file I/O and
  printing around the library.

Laws that relate several functions (round trips, what a conversion keeps)
stand in `src/` as public proof functions named `lemma_*`.
