# pine16

The PINE16 fantasy console: an assembler for its assembly language, the
cartridge format, the console's processor and renderer, and a simple
bytecode interpreter. The functions in `src/` are verified with Verus against
contracts stated over mathematical models of the source text, memory and
canvas. The exceptions are five small trusted wrappers around outside code,
whose contracts Verus takes on trust: `parse_prefixed_u16`,
`parse_decimal_u16` and `to_lowercase` in `numbers.rs` (`parse_int::parse`,
`str::parse::<u16>`, `str::to_lowercase`), `le_bytes` in `cartridge.rs`
(`byteorder`'s `LittleEndian::write_u16`) and `string_of` in `text.rs`
(collecting characters into a `String`).

- `src/assembler.rs`, `prepass.rs`, `instruction.rs`, `argument.rs`,
  `labels.rs`, `data_table.rs`, `asm_error.rs`, `text.rs`, `numbers.rs`: the
  assembler, from source text to bytecode words and diagnostics.
- `src/cartridge.rs`: cartridge bytes (magic text, version, little-endian
  words).
- `src/console.rs`, `renderer.rs`, `audio.rs`: the console's processor,
  picture and the integer side of its sound.
- `src/interpreter.rs`, `tokenizer.rs`: the simple interpreter and its tokenizer.
- `src/laws.rs`: laws that tie the assembler, cartridges and console together.
- `app/`: the command line, window, sound output and file handling.
