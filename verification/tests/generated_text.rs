use aspeed_data_gen::c_header::{assemble_c_header, merge_c_headers, strip_guards_and_includes};
use aspeed_data_gen::names::{chip_name_to_feature, pac_module_file_name};
use aspeed_data_gen::pac_lib::generate_lib_rs;
use aspeed_data_gen::pac_module::pac_module_content;
use aspeed_data_gen::text::{
    char_is_white_space, chars_of, join_chars, lines_chars, string_of, trim_chars, words_chars,
};

fn s(v: &Vec<char>) -> String {
    v.iter().collect()
}

#[test]
fn white_space_matches_std_for_every_char() {
    for u in 0u32..=0x10ffff {
        if let Some(c) = char::from_u32(u) {
            assert_eq!(char_is_white_space(c), c.is_whitespace(), "U+{:04X}", u);
        }
    }
}

#[test]
fn trim_matches_std() {
    for t in ["", "  ", " a ", "\u{3000}x\u{85}", "a b", "\t#define X_H\r", "\u{a0}"] {
        assert_eq!(s(&trim_chars(&chars_of(t))), t.trim(), "{:?}", t);
    }
}

#[test]
fn lines_match_std() {
    for t in ["", "\n", "a", "a\n", "a\nb", "a\r\nb\r\n", "a\r", "a\r\r\n", "\n\nx\n\n", "x\ry\n"] {
        let ours: Vec<String> = lines_chars(&chars_of(t)).iter().map(|l| s(l)).collect();
        let std: Vec<String> = t.lines().map(|l| l.to_string()).collect();
        assert_eq!(ours, std, "{:?}", t);
    }
}

#[test]
fn words_match_std() {
    for t in ["", "  ", "#define  FOO_H", " a\tb\u{3000}c ", "one"] {
        let ours: Vec<String> = words_chars(&chars_of(t)).iter().map(|w| s(w)).collect();
        let std: Vec<String> = t.split_whitespace().map(|w| w.to_string()).collect();
        assert_eq!(ours, std, "{:?}", t);
    }
}

#[test]
fn join_matches_std() {
    let parts = vec![chars_of("a"), chars_of(""), chars_of("bc")];
    assert_eq!(s(&join_chars(&parts, &chars_of("\n"))), "a\n\nbc");
    assert_eq!(s(&join_chars(&Vec::new(), &chars_of(", "))), "");
    assert_eq!(string_of(&chars_of("héllo")), "héllo");
}

#[test]
fn strip_removes_guards_and_includes() {
    let content = "#ifndef PAC_SSP_H\n#define PAC_SSP_H\n\n#include <stdint.h>\n#include \"pac/common.h\"\n#include <stdio.h>\ntypedef struct { uint32_t a; } SSP_Type;\n#define SSP_A_Pos 0\n#endif /* PAC_SSP_H */\n";
    assert_eq!(
        strip_guards_and_includes(content),
        "\n#include <stdio.h>\ntypedef struct { uint32_t a; } SSP_Type;\n#define SSP_A_Pos 0"
    );
}

#[test]
fn strip_edge_cases() {
    assert_eq!(strip_guards_and_includes(""), "");
    assert_eq!(strip_guards_and_includes("\n"), "");
    // Indented guards are recognised after trimming.
    assert_eq!(strip_guards_and_includes("   #ifndef X_H  \r\nkeep\r\n"), "keep");
    // A two-word define of an `_H` name is a guard line wherever it stands;
    // a define with a value is kept even if the value ends in _H.
    assert_eq!(strip_guards_and_includes("#define A B_H\n#define C_H"), "#define A B_H");
    // An ifndef that does not end in _H is kept.
    assert_eq!(strip_guards_and_includes("#ifndef FOO"), "#ifndef FOO");
    // An endif that closes no guard is kept.
    assert_eq!(strip_guards_and_includes("#endif // X_HEADER\n#endif"), "#endif // X_HEADER\n#endif");
    assert_eq!(strip_guards_and_includes("a\n\nb\n"), "a\n\nb");
}

#[test]
fn merged_header_has_one_chip_guard() {
    let files = vec![
        ("device_ast2500.h".to_string(), "#ifndef DEV_H\n#define DEV_H\n#define SSP_BASE 0x1\n#endif /* DEV_H */\n".to_string()),
        ("pac/ssp.h".to_string(), "#ifndef PAC_SSP_H\n#define PAC_SSP_H\n#include <stdint.h>\ntypedef int SSP;\n#endif\n".to_string()),
        ("other.txt".to_string(), "ignored".to_string()),
        ("pac/uart.h".to_string(), "typedef int UART;".to_string()),
    ];
    let expected = "/* Auto-generated by aspeed-data-gen. DO NOT EDIT. */\n\
#ifndef ASPEED_AST2500_H\n#define ASPEED_AST2500_H\n\n\
#include <stdint.h>\n\n\
typedef int SSP;\n\
typedef int UART;\n\
#define SSP_BASE 0x1\n\
#endif /* ASPEED_AST2500_H */\n";
    assert_eq!(merge_c_headers("ast2500", &files), expected);
}

#[test]
fn merged_header_of_no_files() {
    assert_eq!(
        merge_c_headers("Ast2400_x", &[]),
        "/* Auto-generated by aspeed-data-gen. DO NOT EDIT. */\n#ifndef ASPEED_AST2400_X_H\n#define ASPEED_AST2400_X_H\n\n#include <stdint.h>\n\n\n#endif /* ASPEED_AST2400_X_H */\n"
    );
}

#[test]
fn lib_rs_for_two_chips() {
    let chips = vec![
        ("AST2600".to_string(), "ast2600".to_string()),
        ("AST2700_SSP".to_string(), "ast2700-ssp".to_string()),
    ];
    let expected = "// Generated by aspeed-data-gen.  DO NOT EDIT.\n\
// Re-run `cargo run -p aspeed-data-gen` to regenerate.\n\n\
#![no_std]\n\n\
// AST2600\n\
#[cfg(feature = \"ast2600\")]\n\
#[path = \"chips/ast2600.rs\"]\n\
mod ast2600;\n\
#[cfg(feature = \"ast2600\")]\n\
pub use ast2600::*;\n\n\
// AST2700_SSP\n\
#[cfg(feature = \"ast2700-ssp\")]\n\
#[path = \"chips/ast2700_ssp.rs\"]\n\
mod ast2700_ssp;\n\
#[cfg(feature = \"ast2700-ssp\")]\n\
pub use ast2700_ssp::*;\n\n";
    assert_eq!(generate_lib_rs(&chips), expected);
}

#[test]
fn lib_rs_without_chips() {
    assert_eq!(
        generate_lib_rs(&[]),
        "// Generated by aspeed-data-gen.  DO NOT EDIT.\n// Re-run `cargo run -p aspeed-data-gen` to regenerate.\n\n#![no_std]\n\n"
    );
}

#[test]
fn lib_rs_points_at_module_file() {
    for name in ["AST2600", "AST2700_TSP", "AST2700_BOOTMCU", "AST1060"] {
        let chips = vec![(name.to_string(), chip_name_to_feature(name))];
        let text = generate_lib_rs(&chips);
        let needle = format!("#[path = \"chips/{}\"]", pac_module_file_name(name));
        assert!(text.contains(&needle), "{}", name);
    }
}

#[test]
fn pac_module_drops_no_std_and_adds_header() {
    let formatted = "\n\n#![no_std]\n#![allow(non_camel_case_types)]\n  #![no_std]  \npub mod ssp {}\n";
    assert_eq!(
        pac_module_content(formatted),
        "// Generated by aspeed-data-gen. DO NOT EDIT.\n#![allow(non_camel_case_types)]\npub mod ssp {}\n"
    );
    assert_eq!(pac_module_content(""), "// Generated by aspeed-data-gen. DO NOT EDIT.\n\n");
}

#[test]
fn assembled_header_uses_the_given_upper_name() {
    let files = vec![("pac/a.h".to_string(), "int a;".to_string())];
    assert_eq!(
        assemble_c_header("X", &files),
        "/* Auto-generated by aspeed-data-gen. DO NOT EDIT. */\n#ifndef ASPEED_X_H\n#define ASPEED_X_H\n\n#include <stdint.h>\n\nint a;\n\n#endif /* ASPEED_X_H */\n"
    );
    assert_eq!(merge_c_headers("x", &files), assemble_c_header("X", &files));
}

#[test]
fn conditional_that_is_no_guard_is_kept() {
    let content = "#ifdef HAS_HW_FIFO\n#define FIFO_DEPTH 16\n#endif /* HAS_HW_FIFO */";
    assert_eq!(strip_guards_and_includes(content), content);
}

#[test]
fn guard_lines_are_dropped_and_other_conditionals_kept() {
    let content = "#ifndef PAC_X_H\n#define PAC_X_H\n#define OTHER_H\n#ifdef HAS_FIFO\n#define FIFO_H 1\n#endif /* HAS_FIFO_H */\n#ifndef NESTED_H\nint n;\n#endif\nint x;\n#endif /* PAC_X_H */\nint after;";
    assert_eq!(
        strip_guards_and_includes(content),
        "#ifdef HAS_FIFO\n#define FIFO_H 1\n#endif /* HAS_FIFO_H */\nint n;\nint x;\nint after;"
    );
}

#[test]
fn guard_defines_and_includes_are_dropped_anywhere() {
    let content = "#define UART_H\n#define UART_H_Msk 0x1u\n  #include <stdint.h>\n#include \"pac/common.h\"\n#include <string.h>\n#define FIFO_H 16";
    assert_eq!(
        strip_guards_and_includes(content),
        "#define UART_H_Msk 0x1u\n#include <string.h>\n#define FIFO_H 16"
    );
}

#[test]
fn a_guard_after_a_closed_guard_is_dropped_too() {
    let content = "#ifndef A_H\n#define A_H\nint a;\n#endif\n#ifndef B_H\n#define B_H\nint b;\n#endif";
    assert_eq!(strip_guards_and_includes(content), "int a;\nint b;");
}

#[test]
fn stripping_twice_changes_nothing() {
    for content in [
        "#ifndef A_H\n#define A_H\n#ifndef Z_H\nx\n#endif\n#endif",
        "#ifndef A_H\n#ifndef B_H",
        "#ifdef X\n#endif\n#endif /* Y_H */\nint y;",
        "#if 1\n#ifndef Q_H\nq\n#endif\n#endif",
    ] {
        let once = strip_guards_and_includes(content);
        assert_eq!(strip_guards_and_includes(&once), once, "{:?}", content);
    }
    assert_eq!(strip_guards_and_includes("#ifndef A_H\n#ifndef B_H"), "");
    assert_eq!(strip_guards_and_includes("#ifndef A_H\n#define A_H\n#ifndef Z_H\nx\n#endif\n#endif"), "x");
}

#[test]
fn merged_header_drops_nested_guards() {
    let files = vec![("pac/a.h".to_string(), "#ifndef A_H\n#ifndef B_H\nint a;\n#endif\n#endif".to_string())];
    let merged = merge_c_headers("c", &files);
    let guard_lines: Vec<&str> = merged
        .lines()
        .filter(|l| l.trim().starts_with("#ifndef ") && l.trim().ends_with("_H"))
        .collect();
    assert_eq!(guard_lines, vec!["#ifndef ASPEED_C_H"]);
    assert_eq!(merged.lines().filter(|l| l.trim() == "#include <stdint.h>").count(), 1);
    assert_eq!(merged.lines().last(), Some("#endif /* ASPEED_C_H */"));
}

#[test]
fn only_the_chip_guard_and_stdint_include_are_left() {
    let files = vec![
        ("pac/a.h".to_string(), "#ifndef A_H\r\n#define A_H\r\n  #include <stdint.h>\r\nint a;\r\n#endif\r\n".to_string()),
        ("pac/b.h".to_string(), "#define LONE_H\n#include \"pac/common.h\"\n#if X\nint b;\n#endif".to_string()),
        ("device_c.h".to_string(), "#ifndef DEV_H\n#ifndef INNER_H\n#define INNER_H\nint d;\n#endif\n#endif\n".to_string()),
    ];
    let merged = merge_c_headers("c", &files);
    let dropped = |t: &str| {
        let words: Vec<&str> = t.split_whitespace().collect();
        (t.starts_with("#ifndef ") && t.ends_with("_H"))
            || (t.starts_with("#define ") && words.len() == 2 && words[1].ends_with("_H"))
            || t == "#include <stdint.h>"
            || t.starts_with("#include \"pac/")
    };
    let positions: Vec<usize> = merged
        .lines()
        .enumerate()
        .filter(|(_, l)| dropped(l.trim()))
        .map(|(i, _)| i)
        .collect();
    assert_eq!(positions, vec![1, 2, 4]);
    assert!(merged.ends_with(
        "#include <stdint.h>\n\nint a;\n#if X\nint b;\n#endif\nint d;\n#endif /* ASPEED_C_H */\n"
    ));
}
