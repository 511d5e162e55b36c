# rpass

A command-line password generator for system administrators, in the manner
of `pwgen`, whose library is verified with Verus.

## Layout

- `src/glyphs.rs`: the character sets (symbols, capitals, digits, vowels,
  ambiguous characters, the base64 alphabet).
- `src/cmdline.rs`: the options of a run, which command lines are refused,
  and how many passwords a run prints.
- `src/terminal.rs`: the usable terminal width and how many passwords fit on
  a line.
- `src/printer.rs`: what follows each printed password (a space or a newline).
- `src/policy.rs`: the exclusions, the rules a password meets, and the laws
  that tie them together.
- `src/pool.rs`: the pool of random base64 glyphs.
- `src/entropy.rs`: the HC-128 and ChaCha20 random sources.
- `src/scrub.rs`: zeroization of secret buffers.
- `src/character_generator.rs`, `src/password.rs`: the two generators
  (HC-128, and ChaCha20 with glyphs zeroized as they are drawn).
- `app/main.rs`: the program: command-line parsing, terminal size, output.
- `tests/`: tests of the library.
