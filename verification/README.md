# eof_parser

A parser for EVM Object Format (EOF) containers with header validation,
written in Verus.

- `src/layout.rs` states where each header field and section stands in a
  bytecode, and `parse_spec`: what parsing a bytecode gives, check by check
  (the container, or a refusal with its message).
- `src/parser.rs` holds the parser (`parse_eof_bytecode`) and the size
  post-validation, proved against `parse_spec`.
- `src/encoding.rs` writes a container back out as bytes.
- `src/laws.rs` proves what every accepted bytecode satisfies, that it is
  the start of its container written back out, that trailing
  bytes are refused, and that a bytecode cut short inside its data section
  still parses with zero padding.
- `src/input.rs` reads bytecode written as hexadecimal text (lowercased, spaces and `0x`
  dropped, decoded by the `hex` crate), with its laws.
- `src/text.rs` and `src/types/` hold the containers and their display text.
- `app/` is the command line: it reads the argument or file, and prints.
