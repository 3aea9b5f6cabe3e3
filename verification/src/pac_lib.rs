//! The PAC's `lib.rs`: one feature-gated module per Rust chip.
use vstd::prelude::*;

use crate::names::{feature_of, module_of, pac_module_file_of};
use crate::text::{
    append_chars, append_str, chars_of, contains_seq, occurs_at, replace_char_chars, string_of,
};

verus! {

/// The opening of the PAC's `lib.rs`.
pub open spec fn lib_rs_header() -> Seq<char> {
    "// Generated by aspeed-data-gen.  DO NOT EDIT.\n"@
        + "// Re-run `cargo run -p aspeed-data-gen` to regenerate.\n\n"@ + "#![no_std]\n\n"@
}

/// The lines that include one chip's module under its feature and re-export
/// everything from it.
pub open spec fn chip_module_block(chip_name: Seq<char>, feature: Seq<char>) -> Seq<char> {
    let module = module_of(feature);
    "// "@ + chip_name + "\n"@ + "#[cfg(feature = \""@ + feature + "\")]\n"@
        + "#[path = \"chips/"@ + module + ".rs\"]\n"@ + "mod "@ + module + ";\n"@
        + "#[cfg(feature = \""@ + feature + "\")]\n"@ + "pub use "@ + module + "::*;\n\n"@
}

/// The module blocks of the given `(chip name, feature)` pairs, in order.
pub open spec fn chip_module_blocks(chips: Seq<(String, String)>) -> Seq<char>
    decreases chips.len(),
{
    if chips.len() == 0 {
        Seq::empty()
    } else {
        chip_module_blocks(chips.drop_last()) + chip_module_block(
            chips.last().0@,
            chips.last().1@,
        )
    }
}

/// The whole `lib.rs` for the given `(chip name, feature)` pairs.
pub open spec fn lib_rs_text(chips: Seq<(String, String)>) -> Seq<char> {
    lib_rs_header() + chip_module_blocks(chips)
}

/// Appends the module block of one chip.
fn append_chip_module_block(out: &mut Vec<char>, chip_name: &str, feature: &str)
    ensures
        final(out)@ == old(out)@ + chip_module_block(chip_name@, feature@),
{
    let module = replace_char_chars(&chars_of(feature), '-', '_');
    append_str(out, "// ");
    append_str(out, chip_name);
    append_str(out, "\n");
    append_str(out, "#[cfg(feature = \"");
    append_str(out, feature);
    append_str(out, "\")]\n");
    append_str(out, "#[path = \"chips/");
    append_chars(out, &module);
    append_str(out, ".rs\"]\n");
    append_str(out, "mod ");
    append_chars(out, &module);
    append_str(out, ";\n");
    append_str(out, "#[cfg(feature = \"");
    append_str(out, feature);
    append_str(out, "\")]\n");
    append_str(out, "pub use ");
    append_chars(out, &module);
    append_str(out, "::*;\n\n");
    assert(final(out)@ =~= old(out)@ + chip_module_block(chip_name@, feature@));
}

/// Generates the feature-gated `lib.rs` of the PAC: for each
/// `(chip name, feature)`, the chip's module file under its feature, with
/// everything in it re-exported.
pub fn generate_lib_rs(chips: &[(String, String)]) -> (text: String)
    ensures
        text@ == lib_rs_text(chips@),
{
    let mut out: Vec<char> = Vec::new();
    append_str(&mut out, "// Generated by aspeed-data-gen.  DO NOT EDIT.\n");
    append_str(&mut out, "// Re-run `cargo run -p aspeed-data-gen` to regenerate.\n\n");
    append_str(&mut out, "#![no_std]\n\n");
    let n = chips.len();
    let mut i: usize = 0;
    assert(chips@.take(0) =~= Seq::<(String, String)>::empty());
    while i < n
        invariant
            n == chips@.len(),
            i <= n,
            out@ == lib_rs_header() + chip_module_blocks(chips@.take(i as int)),
        decreases n - i,
    {
        assert(chips@.take(i + 1).drop_last() =~= chips@.take(i as int));
        assert(chips@.take(i + 1).last() == chips@[i as int]);
        append_chip_module_block(&mut out, chips[i].0.as_str(), chips[i].1.as_str());
        i = i + 1;
    }
    assert(chips@.take(n as int) =~= chips@);
    string_of(&out)
}

/// The PAC's `lib.rs` includes each chip's module from the file its module
/// is written to: the block for a chip and its feature holds
/// `#[path = "chips/<file>"]` with the file name of that chip's module.
pub proof fn lemma_lib_rs_names_module_file(chip_name: Seq<char>)
    ensures
        contains_seq(
            chip_module_block(chip_name, feature_of(chip_name)),
            "#[path = \"chips/"@ + pac_module_file_of(chip_name) + "\"]"@,
        ),
{
    let feature = feature_of(chip_name);
    let module = module_of(feature);
    let block = chip_module_block(chip_name, feature);
    let needle = "#[path = \"chips/"@ + pac_module_file_of(chip_name) + "\"]"@;
    let before = "// "@ + chip_name + "\n"@ + "#[cfg(feature = \""@ + feature + "\")]\n"@;
    reveal_strlit(".rs\"]\n");
    reveal_strlit(".rs");
    reveal_strlit("\"]");
    reveal_strlit("\n");
    assert(".rs\"]\n"@ =~= ".rs"@ + "\"]"@ + "\n"@);
    assert(block.subrange(before.len() as int, (before.len() + needle.len()) as int) =~= needle);
    assert(occurs_at(block, needle, before.len() as int));
}

} // verus!
