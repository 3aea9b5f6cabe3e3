//! The verified core of the ASPEED PAC generator: from chip and register
//! descriptions to the text of the generated Rust PAC modules, the PAC's
//! `lib.rs`, and the merged C headers of ColdFire chips.
//!
//! - `chip`: the chip definition.
//! - `plan`: which chip files are processed and how, which register files a
//!   chip needs, the device handed to the code generator, when to write.
//! - `namespace`: the names of a register file's IR and their namespacing.
//! - `names`: features, module names and output file names of chips.
//! - `pac_module`, `pac_lib`: the Rust PAC's module files and `lib.rs`.
//! - `c_header`: the merged C header of a ColdFire chip.
//! - `text`: the character-level model and primitives all of these use.

pub mod c_header;
pub mod chip;
pub mod names;
pub mod namespace;
pub mod pac_lib;
pub mod pac_module;
pub mod plan;
pub mod text;
