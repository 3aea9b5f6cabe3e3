//! Names derived from a chip's name: its Cargo feature, the Rust module and
//! file of its PAC, and the file of its C header.
use vstd::prelude::*;

use crate::text::{
    all_ascii, append_str, ascii_lower, chars_eq, chars_of, is_ascii_char, is_ascii_upper,
    replace_char, replace_char_chars, string_of, to_lowercase, unicode_lowercase,
};

verus! {

/// The Cargo feature of a chip: the three named in the PAC's manifest by
/// table, any other name in lower case with `_` turned into `-`.
pub open spec fn feature_of(name: Seq<char>) -> Seq<char> {
    if name == "AST2600"@ {
        "ast2600"@
    } else if name == "AST2700_SSP"@ {
        "ast2700-ssp"@
    } else if name == "AST2700_TSP"@ {
        "ast2700-tsp"@
    } else {
        replace_char(unicode_lowercase(name), '_', '-')
    }
}

/// The feature of a chip whose name is all ASCII: as `feature_of`, with the
/// lower-casing spelled out for ASCII.
pub open spec fn ascii_feature_of(name: Seq<char>) -> Seq<char> {
    if name == "AST2600"@ {
        "ast2600"@
    } else if name == "AST2700_SSP"@ {
        "ast2700-ssp"@
    } else if name == "AST2700_TSP"@ {
        "ast2700-tsp"@
    } else {
        replace_char(name.map_values(|c: char| ascii_lower(c)), '_', '-')
    }
}

/// The Rust module name of a feature: `-` turned into `_`.
pub open spec fn module_of(feature: Seq<char>) -> Seq<char> {
    replace_char(feature, '-', '_')
}

/// The file that holds the PAC module of a chip.
pub open spec fn pac_module_file_of(chip_name: Seq<char>) -> Seq<char> {
    module_of(feature_of(chip_name)) + ".rs"@
}

/// The file that holds the merged C header of a chip: the name in lower
/// case, with `.h`.
pub open spec fn c_header_file_of(chip_name: Seq<char>) -> Seq<char> {
    unicode_lowercase(chip_name) + ".h"@
}

/// Maps a chip name from its YAML definition to its Cargo feature.
pub fn chip_name_to_feature(name: &str) -> (feature: String)
    ensures
        feature@ == feature_of(name@),
        all_ascii(name@) ==> feature@ == ascii_feature_of(name@),
{
    let cs = chars_of(name);
    if chars_eq(&cs, &chars_of("AST2600")) {
        String::from_str("ast2600")
    } else if chars_eq(&cs, &chars_of("AST2700_SSP")) {
        String::from_str("ast2700-ssp")
    } else if chars_eq(&cs, &chars_of("AST2700_TSP")) {
        String::from_str("ast2700-tsp")
    } else {
        let lower = to_lowercase(name);
        string_of(&replace_char_chars(&chars_of(lower.as_str()), '_', '-'))
    }
}

/// Maps a Cargo feature to the Rust module name of its chip.
pub fn feature_to_module(feature: &str) -> (module: String)
    ensures
        module@ == module_of(feature@),
{
    string_of(&replace_char_chars(&chars_of(feature), '-', '_'))
}

/// The file name, under the PAC's `src/chips/`, of a chip's module.
pub fn pac_module_file_name(chip_name: &str) -> (file: String)
    ensures
        file@ == pac_module_file_of(chip_name@),
{
    let feature = chip_name_to_feature(chip_name);
    let mut out = chars_of(feature_to_module(feature.as_str()).as_str());
    append_str(&mut out, ".rs");
    string_of(&out)
}

/// The file name, under the C PAC's `include/`, of a chip's merged header.
pub fn c_header_file_name(chip_name: &str) -> (file: String)
    ensures
        file@ == c_header_file_of(chip_name@),
{
    let lower = to_lowercase(chip_name);
    let mut out = chars_of(lower.as_str());
    append_str(&mut out, ".h");
    string_of(&out)
}

/// Module names hold no `-`: whatever the feature, its module name is a
/// valid Rust identifier as far as hyphens go.
pub proof fn lemma_module_has_no_hyphen(feature: Seq<char>)
    ensures
        forall|i: int| 0 <= i < module_of(feature).len() ==> module_of(feature)[i] != '-',
{
}

/// `s` holds no ASCII upper-case letter.
pub open spec fn has_no_ascii_upper(s: Seq<char>) -> bool {
    forall|i: int| 0 <= i < s.len() ==> !is_ascii_upper(#[trigger] s[i])
}

/// Facts about the three names of the feature table.
proof fn lemma_feature_table()
    ensures
        "AST2600"@ =~= seq!['A', 'S', 'T', '2', '6', '0', '0'],
        "AST2700_SSP"@ =~= seq!['A', 'S', 'T', '2', '7', '0', '0', '_', 'S', 'S', 'P'],
        "AST2700_TSP"@ =~= seq!['A', 'S', 'T', '2', '7', '0', '0', '_', 'T', 'S', 'P'],
        "ast2600"@ =~= seq!['a', 's', 't', '2', '6', '0', '0'],
        "ast2700-ssp"@ =~= seq!['a', 's', 't', '2', '7', '0', '0', '-', 's', 's', 'p'],
        "ast2700-tsp"@ =~= seq!['a', 's', 't', '2', '7', '0', '0', '-', 't', 's', 'p'],
{
    reveal_strlit("AST2600");
    reveal_strlit("AST2700_SSP");
    reveal_strlit("AST2700_TSP");
    reveal_strlit("ast2600");
    reveal_strlit("ast2700-ssp");
    reveal_strlit("ast2700-tsp");
}

/// The feature of an ASCII chip name is ASCII, holds no `_` and no
/// upper-case letter, and is its own feature.
pub proof fn lemma_ascii_feature(name: Seq<char>)
    requires
        all_ascii(name),
    ensures
        all_ascii(ascii_feature_of(name)),
        forall|i: int|
            0 <= i < ascii_feature_of(name).len() ==> #[trigger] ascii_feature_of(name)[i]
                != '_',
        has_no_ascii_upper(ascii_feature_of(name)),
        ascii_feature_of(ascii_feature_of(name)) == ascii_feature_of(name),
{
    lemma_feature_table();
    let f = ascii_feature_of(name);
    assert forall|i: int| 0 <= i < f.len() implies is_ascii_char(#[trigger] f[i]) && f[i] != '_'
        && !is_ascii_upper(f[i]) by {
        if name != "AST2600"@ && name != "AST2700_SSP"@ && name != "AST2700_TSP"@ {
            assert(is_ascii_char(name[i]));
        }
    }
    assert(f != "AST2600"@ && f != "AST2700_SSP"@ && f != "AST2700_TSP"@) by {
        if f.len() > 0 {
            assert(!is_ascii_upper(f[0]));
        }
    }
    assert(f.map_values(|c: char| ascii_lower(c)) =~= f);
    assert(replace_char(f, '_', '-') =~= f);
}

/// The table only spells out the general rule: for every ASCII chip name,
/// the three table names included, the feature is the name in lower case
/// with every `_` turned into `-` (e.g. `AST2700_SSP` gives `ast2700-ssp`).
pub proof fn lemma_feature_is_lower_case_with_hyphens(name: Seq<char>)
    requires
        all_ascii(name),
    ensures
        ascii_feature_of(name) == replace_char(
            name.map_values(|c: char| ascii_lower(c)),
            '_',
            '-',
        ),
{
    lemma_feature_table();
    let r = replace_char(name.map_values(|c: char| ascii_lower(c)), '_', '-');
    if name == "AST2600"@ || name == "AST2700_SSP"@ || name == "AST2700_TSP"@ {
        assert(ascii_feature_of(name) =~= r);
    }
}

/// The module name of the feature of an ASCII chip name without `-` is the
/// name in lower case: e.g. `AST2700_TSP` gives `ast2700_tsp`.
pub proof fn lemma_ascii_module(name: Seq<char>)
    requires
        all_ascii(name),
        forall|i: int| 0 <= i < name.len() ==> #[trigger] name[i] != '-',
    ensures
        module_of(ascii_feature_of(name)) == name.map_values(|c: char| ascii_lower(c)),
{
    lemma_feature_table();
    let lower = name.map_values(|c: char| ascii_lower(c));
    assert(module_of(ascii_feature_of(name)) =~= lower);
}

} // verus!
