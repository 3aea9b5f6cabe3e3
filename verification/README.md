# aspeed_data_gen

The generator of the ASPEED SoC peripheral access crates. Its logic is a
library whose functions carry contracts, proved together with its laws.

- `src/` is the library: chip definitions, the choice of backend and
  architecture, the register files a chip needs, the namespacing of register
  IR names, the device handed to the code generator, and the text of every
  generated file (Rust PAC modules, the PAC's `lib.rs`, merged C headers).
  Every function has a contract over a character-level model of strings,
  and the library's laws are proof functions next to the code they are
  about.
- `app/` is the command-line program: it reads the YAML files, runs
  chiptool's transforms and renderers, pretty-prints the rendered Rust with
  `syn` and `prettyplease`, runs `gcc` on C headers, and writes the outputs.
- `tests/` runs the library on concrete inputs, and compares its text
  primitives with std's.
