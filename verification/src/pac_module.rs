//! The text of a chip's PAC module file, made from the pretty-printed
//! output of the Rust code generator.
use vstd::prelude::*;

use crate::text::{
    append_chars, append_str, chars_eq, chars_of, join, join_chars, lines, lines_chars,
    copy_chars, string_of, trim, trim_chars, trim_start_newlines, trim_start_newlines_chars,
    views,
};

verus! {

/// The lines of `ls` except those that, trimmed, are `#![no_std]`: a
/// crate-level attribute that is invalid in a module file. Every other
/// line, inner attributes such as `#![allow(...)]` included, is kept.
pub open spec fn without_no_std(ls: Seq<Seq<char>>) -> Seq<Seq<char>>
    decreases ls.len(),
{
    if ls.len() == 0 {
        ls
    } else if trim(ls.last()) == "#![no_std]"@ {
        without_no_std(ls.drop_last())
    } else {
        without_no_std(ls.drop_last()).push(ls.last())
    }
}

/// The module file for the formatted code generator output: the header
/// line, the kept lines joined by `\n` with leading newlines removed, and a
/// final `\n`.
pub open spec fn pac_module_text(formatted: Seq<char>) -> Seq<char> {
    "// Generated by aspeed-data-gen. DO NOT EDIT.\n"@ + trim_start_newlines(
        join(without_no_std(lines(formatted)), "\n"@),
    ) + "\n"@
}

/// Turns the pretty-printed output of the Rust code generator for one chip
/// into the content of its module file: `#![no_std]` lines are dropped and
/// a header line is put in front.
pub fn pac_module_content(formatted: &str) -> (content: String)
    ensures
        content@ == pac_module_text(formatted@),
{
    let ls = lines_chars(&chars_of(formatted));
    let no_std = chars_of("#![no_std]");
    let mut kept: Vec<Vec<char>> = Vec::new();
    let n = ls.len();
    let mut i: usize = 0;
    assert(views(ls@).take(0) =~= Seq::<Seq<char>>::empty());
    while i < n
        invariant
            n == ls@.len(),
            i <= n,
            no_std@ == "#![no_std]"@,
            views(kept@) == without_no_std(views(ls@).take(i as int)),
        decreases n - i,
    {
        let ghost pre = views(ls@).take(i + 1);
        assert(pre.drop_last() =~= views(ls@).take(i as int));
        assert(pre.last() == ls@[i as int]@);
        let t = trim_chars(&ls[i]);
        if !chars_eq(&t, &no_std) {
            let line = copy_chars(&ls[i]);
            let ghost before = views(kept@);
            let ghost lv = line@;
            kept.push(line);
            assert(views(kept@) =~= before.push(lv));
        }
        i = i + 1;
    }
    assert(views(ls@).take(n as int) =~= views(ls@));
    let body = trim_start_newlines_chars(&join_chars(&kept, &chars_of("\n")));
    let mut out: Vec<char> = Vec::new();
    append_str(&mut out, "// Generated by aspeed-data-gen. DO NOT EDIT.\n");
    append_chars(&mut out, &body);
    append_str(&mut out, "\n");
    string_of(&out)
}

/// Only `#![no_std]` lines are dropped from the module: no kept line is,
/// trimmed, `#![no_std]`, and every other line is kept.
pub proof fn lemma_without_no_std(ls: Seq<Seq<char>>)
    ensures
        forall|i: int|
            0 <= i < without_no_std(ls).len() ==> trim(#[trigger] without_no_std(ls)[i])
                != "#![no_std]"@,
        forall|i: int|
            0 <= i < ls.len() && trim(#[trigger] ls[i]) != "#![no_std]"@ ==> without_no_std(
                ls,
            ).contains(ls[i]),
    decreases ls.len(),
{
    if ls.len() > 0 {
        let init = ls.drop_last();
        lemma_without_no_std(init);
        let prev = without_no_std(init);
        let cur = without_no_std(ls);
        assert forall|i: int|
            0 <= i < ls.len() && trim(#[trigger] ls[i]) != "#![no_std]"@ implies cur.contains(
            ls[i],
        ) by {
            if i < ls.len() - 1 {
                assert(init[i] == ls[i]);
                let k = choose|k: int| 0 <= k < prev.len() && prev[k] == init[i];
                assert(cur[k] == prev[k]);
            } else {
                assert(cur[prev.len() as int] == ls[i]);
            }
        }
    }
}


/// The module keeps the generator's lines in their order and drops exactly
/// the `#![no_std]` ones: its lines are the formatted lines filtered by
/// not being, trimmed, `#![no_std]`.
pub proof fn lemma_without_no_std_is_filter(ls: Seq<Seq<char>>)
    ensures
        without_no_std(ls) == ls.filter(|l: Seq<char>| trim(l) != "#![no_std]"@),
    decreases ls.len(),
{
    reveal(Seq::filter);
    if ls.len() > 0 {
        lemma_without_no_std_is_filter(ls.drop_last());
    }
}

} // verus!
