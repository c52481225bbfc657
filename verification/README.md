# huoziyinshua_rs

Movable-type speech: a sentence is read as pinyin syllables, each syllable
is looked up in a directory of recorded clips, and the clips are joined into
one 16-bit mono sample stream that can then be transformed (volume,
reversal, distortion, echo, smoothing, speed) and written as a WAV file.

Layout:

- `src/` — the verified library (Verus).
  - `text.rs`: spelling out letters and digits, reading a sentence as a
    line of pinyin syllables (through the `pinyin` crate), replacing the
    recorded catchphrases ("original sound"), splitting into words.
  - `huoziyinshua.rs`: the generator — the clip table built from a
    directory listing, the clip lookup, the stored audio and its
    integer transformations.
  - `audio_processor.rs`, `connect.rs`: turning decoded channels into
    16-bit samples and joining clips.
  - `laws.rs`: properties that span the functions above.
- `app/` — the command-line program and the I/O edge: reading the clip
  directory, decoding clips with `symphonia`, writing WAV files with
  `hound`, and the floating-point transformations.
- `tests/` — tests of the library.
