# howick-rs

Reading and writing the CSV files that Howick FRAMA roll-forming machines
consume, with every library function carrying a proved contract.

- `src/types.rs` — the frameset model (unit, profile, components and their
  machine operations) and the views that the contracts speak of.
- `src/csv/parser.rs` — `parse` and the row readers, with the meaning of a CSV
  text written as spec functions (`spec_parse`).
- `src/csv/serializer.rs` — `serialize` (`spec_serialize`) and the trimming of
  fixed-point measures (`tidy_decimal`).
- `src/csv/laws.rs` — what holds between the two: writing then reading gives
  the frameset back, writing what was read gives the same text, reading is
  stable under re-writing, unknown rows are ignored, and measures written with
  two decimals read back and stay tidy.
- `src/literal.rs` — the grammar of `u32` and floating-point literals.
- `src/text.rs` — trimming, splitting, joining, decimal digits.
- `app/` — the same API with measures as `f64`: converting a literal to its
  `f64` value and rounding a value to two decimals are floating point, so they
  are done there, around the verified library.

A measure in the library is kept as the literal it was written with; the parser
accepts the literals of the grammar that std documents for `f64::from_str`.
That the two agree rests on that documentation; the tests compare them on
every string of up to four characters over the grammar's characters and on
the case variants of `inf`, `infinity` and `nan`.
