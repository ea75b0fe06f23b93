# jacksonify

Places Michael-Jackson-style vocal ad-libs ("hee-hee", shouts, grunts,
moans) on a song: beat grid, key, structure and vocal gaps decide where a
sample goes, which sample it is, and how far it is pitch-shifted.

- `src/` is the verified library: the integer and symbolic decisions of the
  analysis (which samples, slots, gaps, bars, sections, keys and tempo bins),
  each with a Verus contract. A few threshold tests on floating-point
  quantities and sizes stay with the floating-point code in `app/`.
  - `catalog`: the sample library and its well-formedness.
  - `selection`: which samples suit a slot, and the rotation that picks one,
    avoiding the kind of the last sample where it can and its file unless
    that file is the only match.
  - `placement`: the slots each beat offers, the percussive test, and the
    pitch shift onto the key's root or fifth.
  - `structure`: bars of the beat grid, spacing of section boundaries,
    section ranges and section labels.
  - `gaps`: vocal gaps as maximal quiet runs of bounded length.
  - `tempo`: the tempo histogram vote, whose smoothing never moves the
    voted bin.
  - `key`: key names, profile rotation, pitch classes, analysis windows, and
    the merging of key segments and the absorbing of short ones.
  - `window`: running-average windows and analysis-frame counts.
- `app/` is the WebAssembly front end: FFTs (rustfft), energies,
  correlations and every other floating-point step, calling the library for
  the decisions.
- `tests/` exercises the library on concrete values.
