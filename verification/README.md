# taggu

Metadata handling for hierarchies of media items, written in Verus: the
library states what each function does in `requires` / `ensures` contracts
over mathematical models, and Verus proves the code against them.

## Layout

- `src/metadata/` — metadata values, keys and blocks, with their views.
- `src/decimal.rs` — decimal numbers as mantissa and scale; sums and
  products go through `rust_decimal`.
- `src/functions/` — operators over values and producers of values (a
  producer is built from operators and yields its items when read):
  predicates, converters, stream consumers and adaptors, the operand stack,
  and expressions.
- `src/config/` — configuration: selection of item paths by glob patterns
  (through `globset`), sorting of paths, the ways in which blocks of
  metadata are inherited and collected, and file formats.
- `src/library/` — selection, sorting, regular-expression patterns
  (through `regex`) and configuration as the library exposes them.
- `app/` — what touches the file system or parses configuration text
  (`serde`, `serde_yaml`, `toml`): it reads directories and files and hands
  the library plain values.
- `tests/` — tests of the library, run with the outside crates linked.
