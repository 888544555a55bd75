# fixed_width

Reading and writing fixed-width records, verified with Verus.

A spec names record specs; a record spec lays out named fields one after another, in the
byte order of their names, followed by a line ending; a field spec has a length, a padding
and the side the padding goes on, and maybe a default value.

- `src/spec` — specs and their builders; `spec/loader` loads a spec from a YAML document
  (through the `yaml-rust` crate).
- `src/padding.rs`, `padder.rs`, `parser.rs`, `formatter.rs` — padding values to their field
  and taking the padding off again.
- `src/reader`, `src/writer` — reading and writing binary records from and to in-memory
  byte streams (`src/io.rs`), with spec sources that name the spec of each record.
- `src/text` — records of text fields, padded through the `pad` crate, with recognizers that
  tell which record comes next.
- `src/line.rs` — reading and writing through lines of a fixed length and a separator.
- `src/in_memory.rs` — a file of fixed-width text lines kept in memory; `src/builder.rs`
  adds text records to such a file, one line each.
- `src/round_trip.rs` — what the reader gives back of what the writer wrote.
- `src/messages.rs` — the messages that errors are shown with.
- `app/` — moving bytes between `std::io` and the library's streams.
