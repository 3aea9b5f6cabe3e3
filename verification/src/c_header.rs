//! Merging the per-block C headers of a ColdFire chip into one
//! self-contained header with a single chip-level include guard.
use vstd::prelude::*;

use crate::text::{
    append_chars, append_str, chars_ends_with, chars_eq, chars_of, chars_starts_with,
    copy_chars, ends_with, join, join_chars, lines, lines_chars, starts_with, string_of,
    to_uppercase, trim, trim_chars, unicode_uppercase, views, words, words_chars, line_scan,
    lemma_line_scan_append, lemma_line_scan_line, no_newline, strip_cr, no_cr, lemma_lines_clean,
    lemma_lines_of_join, is_white_space, trim_start,
};

verus! {

/// A trimmed line shaped like the opening of an include guard:
/// `#ifndef ..._H`.
pub open spec fn is_guard_ifndef(t: Seq<char>) -> bool {
    starts_with(t, "#ifndef "@) && ends_with(t, "_H"@)
}

/// A trimmed line shaped like the definition of an include guard's macro:
/// `#define X_H`, two words, the second ending in `_H`.
pub open spec fn is_guard_define(t: Seq<char>) -> bool {
    starts_with(t, "#define "@) && words(t).len() == 2 && ends_with(words(t)[1], "_H"@)
}

/// A trimmed line that is one of the includes the merged header replaces:
/// `#include <stdint.h>` or `#include "pac/..."`.
pub open spec fn is_replaced_include(t: Seq<char>) -> bool {
    t == "#include <stdint.h>"@ || starts_with(t, "#include \"pac/"@)
}

/// A trimmed line that is dropped wherever it stands.
pub open spec fn always_dropped(t: Seq<char>) -> bool {
    is_replaced_include(t) || is_guard_ifndef(t) || is_guard_define(t)
}

/// One line of the scan, given the conditionals open before it (innermost
/// last; `true` for a dropped guard `#ifndef`): whether the line is kept,
/// and the conditionals open after it.
///
/// Replaced includes, guard `#ifndef` lines and guard `#define` lines are
/// dropped wherever they stand. Any other `#if...` line opens a kept
/// conditional. An `#endif` closes the innermost open conditional and is
/// dropped exactly when that conditional is a dropped guard; an `#endif`
/// that closes nothing is kept. Every other line is kept.
pub open spec fn scan_step(open: Seq<bool>, line: Seq<char>) -> (bool, Seq<bool>) {
    let t = trim(line);
    if is_replaced_include(t) || is_guard_define(t) {
        (false, open)
    } else if is_guard_ifndef(t) {
        (false, open.push(true))
    } else if starts_with(t, "#if"@) {
        (true, open.push(false))
    } else if starts_with(t, "#endif"@) {
        if open.len() == 0 {
            (true, open)
        } else {
            (!open.last(), open.drop_last())
        }
    } else {
        (true, open)
    }
}

/// Scanning the lines `ls` in order: the lines kept so far, and the
/// conditionals still open.
pub open spec fn strip_scan(ls: Seq<Seq<char>>) -> (Seq<Seq<char>>, Seq<bool>)
    decreases ls.len(),
{
    if ls.len() == 0 {
        (Seq::empty(), Seq::empty())
    } else {
        let (kept, open) = strip_scan(ls.drop_last());
        let (keep, next) = scan_step(open, ls.last());
        (if keep {
            kept.push(ls.last())
        } else {
            kept
        }, next)
    }
}

/// The lines of `ls` that are kept.
pub open spec fn kept_lines(ls: Seq<Seq<char>>) -> Seq<Seq<char>> {
    strip_scan(ls).0
}

/// `content` with its include guards and replaced includes removed, the
/// remaining lines joined by `\n`.
pub open spec fn stripped(content: Seq<char>) -> Seq<char> {
    join(kept_lines(lines(content)), "\n"@)
}

/// Whether the trimmed line `t` is a replaced include.
fn is_replaced_include_line(t: &Vec<char>) -> (r: bool)
    ensures
        r == is_replaced_include(t@),
{
    chars_eq(t, &chars_of("#include <stdint.h>")) || chars_starts_with(
        t,
        &chars_of("#include \"pac/"),
    )
}

/// Whether the trimmed line `t` is a guard `#ifndef` line.
fn is_guard_ifndef_line(t: &Vec<char>) -> (r: bool)
    ensures
        r == is_guard_ifndef(t@),
{
    chars_starts_with(t, &chars_of("#ifndef ")) && chars_ends_with(t, &chars_of("_H"))
}

/// Whether the trimmed line `t` is a guard `#define` line.
fn is_guard_define_line(t: &Vec<char>) -> (r: bool)
    ensures
        r == is_guard_define(t@),
{
    if !chars_starts_with(t, &chars_of("#define ")) {
        return false;
    }
    let ws = words_chars(t);
    if ws.len() != 2 {
        return false;
    }
    assert(views(ws@)[1] == ws@[1]@);
    chars_ends_with(&ws[1], &chars_of("_H"))
}

/// Removes include guard lines, `#include <stdint.h>`, and `#include "pac/…"`
/// lines from a generated C file so that it can be inlined into a merged
/// header. Guard lines are, after trimming, every `#ifndef ..._H`, every
/// two-word `#define ..._H`, and the `#endif` that closes such an
/// `#ifndef`; every other line, other `#endif` lines included, is kept as
/// it was, and the kept lines are joined by `\n`.
pub fn strip_guards_and_includes(content: &str) -> (r: String)
    ensures
        r@ == stripped(content@),
{
    let cs = chars_of(content);
    let ls = lines_chars(&cs);
    let if_prefix = chars_of("#if");
    let endif_prefix = chars_of("#endif");
    let mut kept: Vec<Vec<char>> = Vec::new();
    let mut open: Vec<bool> = Vec::new();
    let n = ls.len();
    let mut i: usize = 0;
    assert(views(ls@).take(0) =~= Seq::<Seq<char>>::empty());
    while i < n
        invariant
            n == ls@.len(),
            i <= n,
            if_prefix@ == "#if"@,
            endif_prefix@ == "#endif"@,
            views(kept@) == strip_scan(views(ls@).take(i as int)).0,
            open@ == strip_scan(views(ls@).take(i as int)).1,
        decreases n - i,
    {
        let ghost pre = views(ls@).take(i + 1);
        assert(pre.drop_last() =~= views(ls@).take(i as int));
        assert(pre.last() == ls@[i as int]@);
        let t = trim_chars(&ls[i]);
        let keep: bool;
        if is_replaced_include_line(&t) || is_guard_define_line(&t) {
            keep = false;
        } else if is_guard_ifndef_line(&t) {
            keep = false;
            open.push(true);
        } else if chars_starts_with(&t, &if_prefix) {
            keep = true;
            open.push(false);
        } else if chars_starts_with(&t, &endif_prefix) {
            match open.pop() {
                Some(guard) => {
                    keep = !guard;
                },
                None => {
                    keep = true;
                },
            }
        } else {
            keep = true;
        }
        if keep {
            let line = copy_chars(&ls[i]);
            let ghost before = views(kept@);
            let ghost lv = line@;
            kept.push(line);
            assert(views(kept@) =~= before.push(lv));
        }
        i = i + 1;
    }
    assert(views(ls@).take(n as int) =~= views(ls@));
    let out = join_chars(&kept, &chars_of("\n"));
    string_of(&out)
}

/// The stripped contents of the files whose name starts with `prefix`, in
/// order, each followed by `suffix`.
pub open spec fn sections(
    files: Seq<(String, String)>,
    prefix: Seq<char>,
    suffix: Seq<char>,
) -> Seq<char>
    decreases files.len(),
{
    if files.len() == 0 {
        Seq::empty()
    } else if starts_with(files.last().0@, prefix) {
        sections(files.drop_last(), prefix, suffix) + stripped(files.last().1@) + suffix
    } else {
        sections(files.drop_last(), prefix, suffix)
    }
}

/// The opening of the merged header, up to and including the `stdint.h`
/// include.
pub open spec fn header_opening(guard: Seq<char>) -> Seq<char> {
    "/* Auto-generated by aspeed-data-gen. DO NOT EDIT. */\n"@ + "#ifndef "@ + guard
        + "\n#define "@ + guard + "\n\n"@ + "#include <stdint.h>\n\n"@
}

/// The close of the merged header.
pub open spec fn header_closing(guard: Seq<char>) -> Seq<char> {
    "\n#endif /* "@ + guard + " */\n"@
}

/// The merged header for the chip whose name in upper case is `upper_name`:
/// the opening with the chip-level guard, the block headers, the device
/// headers, and the closing `#endif`.
pub open spec fn assembled_header(upper_name: Seq<char>, files: Seq<(String, String)>) -> Seq<
    char,
> {
    let guard = "ASPEED_"@ + upper_name + "_H"@;
    header_opening(guard) + sections(files, "pac/"@, "\n"@) + sections(
        files,
        "device_"@,
        Seq::empty(),
    ) + header_closing(guard)
}

/// The merged header of a chip.
pub open spec fn merged_header(chip_name: Seq<char>, files: Seq<(String, String)>) -> Seq<char> {
    assembled_header(unicode_uppercase(chip_name), files)
}

/// Appends the stripped contents of the files whose name starts with
/// `prefix`, each followed by `suffix`.
fn append_sections(
    out: &mut Vec<char>,
    files: &[(String, String)],
    prefix: &str,
    suffix: &str,
)
    ensures
        final(out)@ == old(out)@ + sections(files@, prefix@, suffix@),
{
    let p = chars_of(prefix);
    let n = files.len();
    let mut i: usize = 0;
    assert(files@.take(0) =~= Seq::<(String, String)>::empty());
    while i < n
        invariant
            n == files@.len(),
            i <= n,
            p@ == prefix@,
            out@ == old(out)@ + sections(files@.take(i as int), prefix@, suffix@),
        decreases n - i,
    {
        assert(files@.take(i + 1).drop_last() =~= files@.take(i as int));
        assert(files@.take(i + 1).last() == files@[i as int]);
        let name = chars_of(files[i].0.as_str());
        if chars_starts_with(&name, &p) {
            let section = strip_guards_and_includes(files[i].1.as_str());
            append_str(out, section.as_str());
            append_str(out, suffix);
        }
        i = i + 1;
    }
    assert(files@.take(n as int) =~= files@);
}

/// Assembles the merged header of the chip whose name in upper case is
/// `upper_name` from the per-file C generator output.
pub fn assemble_c_header(upper_name: &str, files: &[(String, String)]) -> (r: String)
    ensures
        r@ == assembled_header(upper_name@, files@),
{
    let mut guard: Vec<char> = Vec::new();
    append_str(&mut guard, "ASPEED_");
    append_str(&mut guard, upper_name);
    append_str(&mut guard, "_H");
    let mut out: Vec<char> = Vec::new();
    append_str(&mut out, "/* Auto-generated by aspeed-data-gen. DO NOT EDIT. */\n");
    append_str(&mut out, "#ifndef ");
    append_chars(&mut out, &guard);
    append_str(&mut out, "\n#define ");
    append_chars(&mut out, &guard);
    append_str(&mut out, "\n\n");
    append_str(&mut out, "#include <stdint.h>\n\n");
    let ghost opening = out@;
    append_sections(&mut out, files, "pac/", "\n");
    let ghost with_blocks = out@;
    append_sections(&mut out, files, "device_", "");
    let ghost with_devices = out@;
    proof {
        reveal_strlit("");
        assert(""@ =~= Seq::<char>::empty());
        assert(with_devices == with_blocks + sections(files@, "device_"@, Seq::empty()));
    }
    append_str(&mut out, "\n#endif /* ");
    append_chars(&mut out, &guard);
    append_str(&mut out, " */\n");
    assert(opening == header_opening(guard@));
    assert(out@ =~= assembled_header(upper_name@, files@));
    string_of(&out)
}

/// Merges the per-file C generator output into a single self-contained C
/// header: one chip-level include guard `ASPEED_<NAME>_H` (the name in
/// upper case), `<stdint.h>`, then every block header (`pac/...`) and every
/// device header (`device_...`), each with its own guards and includes
/// stripped.
pub fn merge_c_headers(chip_name: &str, files: &[(String, String)]) -> (r: String)
    ensures
        r@ == merged_header(chip_name@, files@),
{
    let upper = to_uppercase(chip_name);
    assemble_c_header(upper.as_str(), files)
}

/// Stripping drops only includes and guard lines: no kept line is, trimmed,
/// a replaced include, a guard `#ifndef` or a guard `#define`, and every
/// line that is none of these and no `#endif` is kept.
pub proof fn lemma_kept_lines(ls: Seq<Seq<char>>)
    ensures
        forall|i: int|
            0 <= i < kept_lines(ls).len() ==> !always_dropped(
                trim(#[trigger] kept_lines(ls)[i]),
            ),
        forall|i: int|
            0 <= i < ls.len() && !always_dropped(trim(#[trigger] ls[i])) && !starts_with(
                trim(ls[i]),
                "#endif"@,
            ) ==> kept_lines(ls).contains(ls[i]),
    decreases ls.len(),
{
    if ls.len() > 0 {
        let init = ls.drop_last();
        lemma_kept_lines(init);
        let prev = kept_lines(init);
        let cur = kept_lines(ls);
        assert forall|i: int| 0 <= i < cur.len() implies !always_dropped(
            trim(#[trigger] cur[i]),
        ) by {
            if i < prev.len() {
                assert(cur[i] == prev[i]);
            }
        }
        assert forall|i: int|
            0 <= i < ls.len() && !always_dropped(trim(#[trigger] ls[i])) && !starts_with(
                trim(ls[i]),
                "#endif"@,
            ) implies cur.contains(ls[i]) by {
            if i < ls.len() - 1 {
                assert(init[i] == ls[i]);
                let k = choose|k: int| 0 <= k < prev.len() && prev[k] == init[i];
                assert(cur[k] == prev[k]);
            } else {
                assert(cur[prev.len() as int] == ls[i]);
            }
        }
    }
}

/// Stripping leaves text without guards and replaced includes as it is:
/// lines none of which is, trimmed, a guard `#ifndef`, a guard `#define`
/// or a replaced include are all kept, in order, and every conditional
/// they leave open is a kept one.
pub proof fn lemma_kept_lines_rescan(ls: Seq<Seq<char>>)
    requires
        forall|i: int| 0 <= i < ls.len() ==> !always_dropped(trim(#[trigger] ls[i])),
    ensures
        kept_lines(ls) == ls,
        forall|j: int| 0 <= j < strip_scan(ls).1.len() ==> !(#[trigger] strip_scan(ls).1[j]),
    decreases ls.len(),
{
    if ls.len() > 0 {
        let init = ls.drop_last();
        assert forall|i: int| 0 <= i < init.len() implies !always_dropped(
            trim(#[trigger] init[i]),
        ) by {
            assert(init[i] == ls[i]);
        }
        lemma_kept_lines_rescan(init);
        assert(!always_dropped(trim(ls[ls.len() - 1])));
        let open = strip_scan(init).1;
        if open.len() > 0 {
            assert(!open[open.len() - 1]);
        }
        assert(init.push(ls.last()) =~= ls);
    }
}

/// The lines of a completed line `s` followed by `rest`.
proof fn lemma_lines_after(s: Seq<char>, rest: Seq<char>, done: Seq<Seq<char>>)
    requires
        no_newline(s),
        s.len() == 0 || s.last() != '\r',
        line_scan(rest).1.len() == 0,
        line_scan(rest).0 == done,
    ensures
        line_scan(s.push('\n') + rest) == (seq![s] + done, Seq::<char>::empty()),
{
    lemma_line_scan_line(s);
    assert(strip_cr(s) == s);
    lemma_line_scan_append(s.push('\n'), rest);
}

/// The lines of the merged header: the six opening lines, the lines of the
/// sections followed by a newline, and the closing `#endif`.
proof fn lemma_header_lines(
    upper_name: Seq<char>,
    files: Seq<(String, String)>,
)
    requires
        no_newline(upper_name),
    ensures
        ({
            let g = "ASPEED_"@ + upper_name + "_H"@;
            let mid = sections(files, "pac/"@, "\n"@) + sections(files, "device_"@, Seq::empty());
            let empty = Seq::<char>::empty();
            lines(assembled_header(upper_name, files)) == seq![
                "/* Auto-generated by aspeed-data-gen. DO NOT EDIT. */"@,
                "#ifndef "@ + g,
                "#define "@ + g,
                empty,
                "#include <stdint.h>"@,
                empty,
            ] + line_scan(mid.push('\n')).0 + seq!["#endif /* "@ + g + " */"@]
        }),
{
    reveal_strlit("ASPEED_");
    reveal_strlit("_H");
    reveal_strlit("/* Auto-generated by aspeed-data-gen. DO NOT EDIT. */\n");
    reveal_strlit("/* Auto-generated by aspeed-data-gen. DO NOT EDIT. */");
    reveal_strlit("#ifndef ");
    reveal_strlit("\n#define ");
    reveal_strlit("#define ");
    reveal_strlit("\n\n");
    reveal_strlit("#include <stdint.h>\n\n");
    reveal_strlit("#include <stdint.h>");
    reveal_strlit("\n#endif /* ");
    reveal_strlit("#endif /* ");
    reveal_strlit(" */\n");
    reveal_strlit(" */");
    reveal_strlit("\n");
    reveal_strlit("device_");
    let g = "ASPEED_"@ + upper_name + "_H"@;
    let empty = Seq::<char>::empty();
    let c = "/* Auto-generated by aspeed-data-gen. DO NOT EDIT. */"@;
    let l1 = "#ifndef "@ + g;
    let l2 = "#define "@ + g;
    let inc = "#include <stdint.h>"@;
    let e = "#endif /* "@ + g + " */"@;
    let mid = sections(files, "pac/"@, "\n"@) + sections(files, "device_"@, Seq::empty());

    assert(no_newline(g));
    assert(no_newline(c));
    assert(no_newline(l1));
    assert(no_newline(l2));
    assert(no_newline(inc));
    assert(no_newline(e));
    assert(no_newline(empty));

    // The close: the middle, then `\n`, then the `#endif` line.
    let m = mid.push('\n');
    assert(line_scan(m).1.len() == 0) by {
        assert(m.drop_last() =~= mid);
    }
    let dm = line_scan(m).0;
    let tail = m + e.push('\n');
    assert(line_scan(e.push('\n')) == (seq![e], empty)) by {
        lemma_line_scan_line(e);
        assert(strip_cr(e) == e);
    }
    lemma_line_scan_append(m, e.push('\n'));
    let dt = dm + seq![e];
    assert(line_scan(tail) == (dt, empty));

    // The opening, one line at a time from the back.
    lemma_lines_after(empty, tail, dt);
    let t5 = empty.push('\n') + tail;
    lemma_lines_after(inc, t5, seq![empty] + dt);
    let t4 = inc.push('\n') + t5;
    lemma_lines_after(empty, t4, seq![inc] + (seq![empty] + dt));
    let t3 = empty.push('\n') + t4;
    lemma_lines_after(l2, t3, seq![empty] + (seq![inc] + (seq![empty] + dt)));
    let t2 = l2.push('\n') + t3;
    lemma_lines_after(l1, t2, seq![l2] + (seq![empty] + (seq![inc] + (seq![empty] + dt))));
    let t1 = l1.push('\n') + t2;
    lemma_lines_after(
        c,
        t1,
        seq![l1] + (seq![l2] + (seq![empty] + (seq![inc] + (seq![empty] + dt)))),
    );
    let whole = c.push('\n') + t1;
    let ls = seq![c] + (seq![l1] + (seq![l2] + (seq![empty] + (seq![inc] + (seq![empty] + dt)))));
    assert(line_scan(whole) == (ls, empty));

    assert(whole =~= assembled_header(upper_name, files));
    assert(ls =~= seq![c, l1, l2, empty, inc, empty] + dm + seq![e]);
}

/// The merged header opens with its chip-level include guard and closes
/// it: for a chip name whose upper-case form holds no newline, its lines
/// open with the header comment, `#ifndef G`, `#define G`, an empty line,
/// `#include <stdint.h>` and an empty line, and its last line is
/// `#endif /* G */`, where `G` is `ASPEED_<NAME>_H`.
pub proof fn lemma_header_wrapped_in_chip_guard(
    upper_name: Seq<char>,
    files: Seq<(String, String)>,
)
    requires
        no_newline(upper_name),
    ensures
        ({
            let g = "ASPEED_"@ + upper_name + "_H"@;
            let ls = lines(assembled_header(upper_name, files));
            &&& ls.len() >= 7
            &&& ls[0] == "/* Auto-generated by aspeed-data-gen. DO NOT EDIT. */"@
            &&& ls[1] == "#ifndef "@ + g
            &&& ls[2] == "#define "@ + g
            &&& ls[3] == Seq::<char>::empty()
            &&& ls[4] == "#include <stdint.h>"@
            &&& ls[5] == Seq::<char>::empty()
            &&& ls.last() == "#endif /* "@ + g + " */"@
        }),
{
    lemma_header_lines(upper_name, files);
}

/// Every kept line is one of the lines scanned.
proof fn lemma_kept_from(ls: Seq<Seq<char>>)
    ensures
        forall|i: int| 0 <= i < kept_lines(ls).len() ==> ls.contains(#[trigger] kept_lines(ls)[i]),
    decreases ls.len(),
{
    if ls.len() > 0 {
        let init = ls.drop_last();
        lemma_kept_from(init);
        let prev = kept_lines(init);
        let cur = kept_lines(ls);
        assert forall|i: int| 0 <= i < cur.len() implies ls.contains(#[trigger] cur[i]) by {
            if i < prev.len() {
                assert(cur[i] == prev[i]);
                let j = choose|j: int| 0 <= j < init.len() && init[j] == prev[i];
                assert(ls[j] == init[j]);
            } else {
                assert(cur[i] == ls[ls.len() - 1]);
            }
        }
    }
}

/// Stripping is idempotent: on a text without carriage returns whose
/// stripped form does not end in a newline, stripping the stripped form
/// changes nothing.
pub proof fn lemma_strip_idempotent(content: Seq<char>)
    requires
        no_cr(content),
        stripped(content).len() == 0 || stripped(content).last() != '\n',
    ensures
        stripped(stripped(content)) == stripped(content),
{
    reveal_strlit("\n");
    let ls = lines(content);
    let k = kept_lines(ls);
    lemma_lines_clean(content);
    lemma_kept_from(ls);
    lemma_kept_lines(ls);
    assert forall|i: int| 0 <= i < k.len() implies no_newline(#[trigger] k[i]) && no_cr(k[i]) by {
        let j = choose|j: int| 0 <= j < ls.len() && ls[j] == k[i];
        assert(no_newline(ls[j]) && no_cr(ls[j]));
    }
    let empty = Seq::<char>::empty();
    assert(line_scan(empty) == (Seq::<Seq<char>>::empty(), empty));
    assert(lines(empty) =~= Seq::<Seq<char>>::empty());
    assert(kept_lines(Seq::<Seq<char>>::empty()) =~= Seq::<Seq<char>>::empty());
    if k.len() == 0 {
        assert(stripped(content) =~= empty);
    } else if k.last().len() == 0 {
        if k.len() == 1 {
            assert(stripped(content) =~= empty);
        } else {
            let r = stripped(content);
            assert(r == join(k.drop_last(), "\n"@) + "\n"@ + k.last());
            assert(r.last() == '\n');
        }
    } else {
        lemma_lines_of_join(k);
        assert forall|i: int| 0 <= i < k.len() implies !always_dropped(trim(#[trigger] k[i])) by {}
        lemma_kept_lines_rescan(k);
    }
}

/// A line that keeps its trimmed form when a trailing white-space character
/// is removed.
proof fn lemma_trim_drop_white_space(s: Seq<char>)
    requires
        s.len() > 0,
        is_white_space(s.last()),
    ensures
        trim(s.drop_last()) == trim(s),
    decreases s.len(),
{
    if is_white_space(s[0]) {
        if s.len() == 1 {
            assert(s.drop_last() =~= Seq::<char>::empty());
            assert(s.drop_first() =~= Seq::<char>::empty());
        } else {
            let t = s.drop_first();
            assert(t.last() == s.last());
            lemma_trim_drop_white_space(t);
            assert(s.drop_last().drop_first() =~= t.drop_last());
            assert(s.drop_last()[0] == s[0]);
        }
    } else {
        assert(s.len() > 1);
        assert(s.drop_last()[0] == s[0]);
    }
}

/// Removing a line's carriage return does not change its trimmed form.
proof fn lemma_strip_cr_trim(l: Seq<char>)
    ensures
        trim(strip_cr(l)) == trim(l),
{
    if l.len() > 0 && l.last() == '\r' {
        assert(is_white_space('\r'));
        lemma_trim_drop_white_space(l);
    }
}

/// The empty line is not dropped.
proof fn lemma_empty_line_kept()
    ensures
        !always_dropped(trim(Seq::<char>::empty())),
{
    reveal_strlit("#include <stdint.h>");
    reveal_strlit("#include \"pac/");
    reveal_strlit("#ifndef ");
    reveal_strlit("#define ");
    let e = Seq::<char>::empty();
    assert(trim_start(e) == e);
    assert(trim(e) == e);
}

/// Lines hold no newline.
proof fn lemma_line_scan_no_newlines(s: Seq<char>)
    ensures
        forall|i: int|
            0 <= i < line_scan(s).0.len() ==> no_newline(#[trigger] line_scan(s).0[i]),
        no_newline(line_scan(s).1),
    decreases s.len(),
{
    if s.len() > 0 {
        let init = s.drop_last();
        lemma_line_scan_no_newlines(init);
        let (done, cur) = line_scan(init);
        if s.last() == '\n' {
            let l = strip_cr(cur);
            assert(no_newline(l)) by {
                if cur.len() > 0 && cur.last() == '\r' {
                    assert forall|i: int| 0 <= i < l.len() implies #[trigger] l[i] != '\n' by {
                        assert(l[i] == cur[i]);
                    }
                }
            }
            let d2 = done.push(l);
            assert forall|i: int| 0 <= i < d2.len() implies no_newline(#[trigger] d2[i]) by {
                if i < done.len() {
                    assert(d2[i] == done[i]);
                }
            }
        } else {
            let c2 = cur.push(s.last());
            assert(s.last() == s[s.len() - 1]);
            assert forall|i: int| 0 <= i < c2.len() implies #[trigger] c2[i] != '\n' by {
                if i < cur.len() {
                    assert(c2[i] == cur[i]);
                }
            }
        }
    }
}

/// The lines of any text hold no newline.
proof fn lemma_lines_no_newline(s: Seq<char>)
    ensures
        forall|i: int| 0 <= i < lines(s).len() ==> no_newline(#[trigger] lines(s)[i]),
{
    lemma_line_scan_no_newlines(s);
    let (done, cur) = line_scan(s);
    if cur.len() > 0 {
        assert forall|i: int| 0 <= i < lines(s).len() implies no_newline(
            #[trigger] lines(s)[i],
        ) by {
            if i < done.len() {
                assert(lines(s)[i] == done[i]);
            }
        }
    }
}

/// Lines without newlines, none of them dropped, joined and ended by a
/// newline: only completed lines, none of which is dropped.
proof fn lemma_joined_lines_scan(list: Seq<Seq<char>>)
    requires
        forall|i: int|
            0 <= i < list.len() ==> no_newline(#[trigger] list[i]) && !always_dropped(
                trim(list[i]),
            ),
    ensures
        line_scan(join(list, "\n"@).push('\n')).1.len() == 0,
        forall|i: int|
            0 <= i < line_scan(join(list, "\n"@).push('\n')).0.len() ==> !always_dropped(
                trim(#[trigger] line_scan(join(list, "\n"@).push('\n')).0[i]),
            ),
    decreases list.len(),
{
    reveal_strlit("\n");
    if list.len() == 0 {
        let e = Seq::<char>::empty();
        lemma_line_scan_line(e);
        assert(join(list, "\n"@).push('\n') =~= e.push('\n'));
        lemma_empty_line_kept();
        assert(strip_cr(e) == e);
    } else if list.len() == 1 {
        lemma_line_scan_line(list[0]);
        lemma_strip_cr_trim(list[0]);
    } else {
        let init = list.drop_last();
        assert forall|i: int| 0 <= i < init.len() implies no_newline(#[trigger] init[i])
            && !always_dropped(trim(init[i])) by {
            assert(init[i] == list[i]);
        }
        lemma_joined_lines_scan(init);
        let last = list.last();
        assert(no_newline(last) && !always_dropped(trim(last)));
        let a = join(init, "\n"@).push('\n');
        let b = last.push('\n');
        assert(join(list, "\n"@).push('\n') =~= a + b);
        lemma_line_scan_line(last);
        lemma_strip_cr_trim(last);
        lemma_line_scan_append(a, b);
        let da = line_scan(a).0;
        let all = da + seq![strip_cr(last)];
        assert forall|i: int| 0 <= i < all.len() implies !always_dropped(
            trim(#[trigger] all[i]),
        ) by {
            if i < da.len() {
                assert(all[i] == da[i]);
            }
        }
    }
}

/// A stripped file followed by a newline: only completed lines, none of
/// which is dropped.
proof fn lemma_stripped_lines(content: Seq<char>)
    ensures
        line_scan(stripped(content).push('\n')).1.len() == 0,
        forall|i: int|
            0 <= i < line_scan(stripped(content).push('\n')).0.len() ==> !always_dropped(
                trim(#[trigger] line_scan(stripped(content).push('\n')).0[i]),
            ),
{
    let ls = lines(content);
    let k = kept_lines(ls);
    lemma_lines_no_newline(content);
    lemma_kept_from(ls);
    lemma_kept_lines(ls);
    assert forall|i: int| 0 <= i < k.len() implies no_newline(#[trigger] k[i]) && !always_dropped(
        trim(k[i]),
    ) by {
        let j = choose|j: int| 0 <= j < ls.len() && ls[j] == k[i];
        assert(no_newline(ls[j]));
    }
    lemma_joined_lines_scan(k);
}

/// The block sections end at a line end, and none of their lines is
/// dropped.
proof fn lemma_block_sections_lines(files: Seq<(String, String)>, prefix: Seq<char>)
    ensures
        line_scan(sections(files, prefix, "\n"@)).1.len() == 0,
        forall|i: int|
            0 <= i < line_scan(sections(files, prefix, "\n"@)).0.len() ==> !always_dropped(
                trim(#[trigger] line_scan(sections(files, prefix, "\n"@)).0[i]),
            ),
    decreases files.len(),
{
    reveal_strlit("\n");
    if files.len() > 0 {
        let init = files.drop_last();
        lemma_block_sections_lines(init, prefix);
        if starts_with(files.last().0@, prefix) {
            let a = sections(init, prefix, "\n"@);
            let s = stripped(files.last().1@);
            lemma_stripped_lines(files.last().1@);
            assert(sections(files, prefix, "\n"@) =~= a + s.push('\n'));
            lemma_line_scan_append(a, s.push('\n'));
            let da = line_scan(a).0;
            let db = line_scan(s.push('\n')).0;
            assert forall|i: int| 0 <= i < (da + db).len() implies !always_dropped(
                trim(#[trigger] (da + db)[i]),
            ) by {
                if i < da.len() {
                    assert((da + db)[i] == da[i]);
                } else {
                    assert((da + db)[i] == db[i - da.len()]);
                }
            }
        }
    }
}

/// Sections of files none of which has the prefix are empty.
proof fn lemma_sections_none(files: Seq<(String, String)>, prefix: Seq<char>, suffix: Seq<char>)
    requires
        forall|i: int| 0 <= i < files.len() ==> !starts_with(#[trigger] files[i].0@, prefix),
    ensures
        sections(files, prefix, suffix) == Seq::<char>::empty(),
    decreases files.len(),
{
    if files.len() > 0 {
        let init = files.drop_last();
        assert forall|i: int| 0 <= i < init.len() implies !starts_with(
            #[trigger] init[i].0@,
            prefix,
        ) by {
            assert(init[i] == files[i]);
        }
        lemma_sections_none(init, prefix, suffix);
        assert(!starts_with(files[files.len() - 1].0@, prefix));
    }
}

/// With at most one file having the prefix, the sections with no suffix
/// are empty or that one file stripped.
proof fn lemma_sections_single(files: Seq<(String, String)>, prefix: Seq<char>)
    requires
        forall|i: int, j: int|
            #![trigger files[i], files[j]]
            0 <= i < files.len() && 0 <= j < files.len() && starts_with(files[i].0@, prefix)
                && starts_with(files[j].0@, prefix) ==> i == j,
    ensures
        sections(files, prefix, Seq::empty()) == Seq::<char>::empty() || exists|j: int|
            #![trigger files[j]]
            0 <= j < files.len() && sections(files, prefix, Seq::empty()) == stripped(
                files[j].1@,
            ),
    decreases files.len(),
{
    if files.len() > 0 {
        let n = files.len() - 1;
        let init = files.drop_last();
        assert forall|i: int, j: int|
            #![trigger init[i], init[j]]
            0 <= i < init.len() && 0 <= j < init.len() && starts_with(init[i].0@, prefix)
                && starts_with(init[j].0@, prefix) implies i == j by {
            assert(init[i] == files[i] && init[j] == files[j]);
        }
        if starts_with(files.last().0@, prefix) {
            assert forall|i: int| 0 <= i < init.len() implies !starts_with(
                #[trigger] init[i].0@,
                prefix,
            ) by {
                assert(init[i] == files[i]);
                assert(files[n] == files.last());
            }
            lemma_sections_none(init, prefix, Seq::empty());
            assert(sections(files, prefix, Seq::empty()) =~= stripped(files[n].1@));
        } else {
            lemma_sections_single(init, prefix);
            if sections(init, prefix, Seq::empty()) != Seq::<char>::empty() {
                let j = choose|j: int|
                    #![trigger init[j]]
                    0 <= j < init.len() && sections(init, prefix, Seq::empty()) == stripped(
                        init[j].1@,
                    );
                assert(init[j] == files[j]);
            }
        }
    }
}

/// A line that begins with neither `#i` nor `#d` and neither begins nor
/// ends with white space is not dropped.
proof fn lemma_plain_line_kept(l: Seq<char>)
    requires
        l.len() > 1,
        l[0] != '#' || (l[1] != 'i' && l[1] != 'd'),
        !is_white_space(l[0]),
        !is_white_space(l.last()),
    ensures
        !always_dropped(trim(l)),
{
    reveal_strlit("#include <stdint.h>");
    reveal_strlit("#include \"pac/");
    reveal_strlit("#ifndef ");
    reveal_strlit("#define ");
    assert(trim_start(l) == l);
    assert(trim(l) == l);
    let a = "#include <stdint.h>"@;
    let b = "#include \"pac/"@;
    let c = "#ifndef "@;
    let d = "#define "@;
    if starts_with(l, b) {
        assert(l.take(b.len() as int)[0] == b[0] && l.take(b.len() as int)[1] == b[1]);
    }
    if starts_with(l, c) {
        assert(l.take(c.len() as int)[0] == c[0] && l.take(c.len() as int)[1] == c[1]);
    }
    if starts_with(l, d) {
        assert(l.take(d.len() as int)[0] == d[0] && l.take(d.len() as int)[1] == d[1]);
    }
    if l == a {
        assert(l[0] == a[0] && l[1] == a[1]);
    }
}

/// How a line changes the nesting of conditionals: `1` for a line that,
/// trimmed, begins with `#if` (`#if`, `#ifdef`, `#ifndef`), `-1` for one
/// that begins with `#endif`, `0` for any other.
pub open spec fn nesting_step(line: Seq<char>) -> int {
    let t = trim(line);
    if starts_with(t, "#if"@) {
        1
    } else if starts_with(t, "#endif"@) {
        -1
    } else {
        0
    }
}

/// The nesting of conditionals after the lines `ls`.
pub open spec fn nesting(ls: Seq<Seq<char>>) -> int
    decreases ls.len(),
{
    if ls.len() == 0 {
        0
    } else {
        nesting(ls.drop_last()) + nesting_step(ls.last())
    }
}

/// Every `#endif` of `ls` closes a conditional opened in `ls`, and every
/// conditional opened in `ls` is closed in it.
pub open spec fn balanced(ls: Seq<Seq<char>>) -> bool {
    &&& forall|k: int| 0 <= k <= ls.len() ==> nesting(#[trigger] ls.take(k)) >= 0
    &&& nesting(ls) == 0
}

/// The scan of `ls` begun with the conditionals `open` already open.
spec fn scan_from(open: Seq<bool>, ls: Seq<Seq<char>>) -> (Seq<Seq<char>>, Seq<bool>)
    decreases ls.len(),
{
    if ls.len() == 0 {
        (Seq::empty(), open)
    } else {
        let (kept, o) = scan_from(open, ls.drop_last());
        let (keep, next) = scan_step(o, ls.last());
        (if keep {
            kept.push(ls.last())
        } else {
            kept
        }, next)
    }
}

/// The scan begins with nothing open.
proof fn lemma_strip_scan_from(ls: Seq<Seq<char>>)
    ensures
        strip_scan(ls) == scan_from(Seq::empty(), ls),
    decreases ls.len(),
{
    if ls.len() > 0 {
        lemma_strip_scan_from(ls.drop_last());
    }
}

/// Scanning `a` then `b` is scanning `b` from where `a` left off.
proof fn lemma_scan_from_append(open: Seq<bool>, a: Seq<Seq<char>>, b: Seq<Seq<char>>)
    ensures
        ({
            let (ka, oa) = scan_from(open, a);
            let (kb, ob) = scan_from(oa, b);
            scan_from(open, a + b) == (ka + kb, ob)
        }),
    decreases b.len(),
{
    if b.len() == 0 {
        assert(a + b =~= a);
        assert(scan_from(open, a).0 + Seq::<Seq<char>>::empty() =~= scan_from(open, a).0);
    } else {
        lemma_scan_from_append(open, a, b.drop_last());
        assert((a + b).drop_last() =~= a + b.drop_last());
        assert((a + b).last() == b.last());
        let (ka, oa) = scan_from(open, a);
        let (kb, ob) = scan_from(oa, b.drop_last());
        assert((ka + kb).push(b.last()) =~= ka + kb.push(b.last()));
    }
}

/// A prefix fixes the characters it covers.
proof fn lemma_prefix_char(t: Seq<char>, p: Seq<char>, i: int)
    requires
        starts_with(t, p),
        0 <= i < p.len(),
    ensures
        t[i] == p[i],
{
    assert(t.take(p.len() as int)[i] == t[i]);
}

/// The kinds of trimmed lines the scan tells apart exclude each other
/// where the nesting needs it: a replaced include or a guard `#define`
/// neither opens nor closes a conditional, a guard `#ifndef` opens one,
/// and an `#endif` is nothing else.
proof fn lemma_line_kinds(t: Seq<char>)
    ensures
        is_replaced_include(t) || is_guard_define(t) ==> !starts_with(t, "#if"@) && !starts_with(
            t,
            "#endif"@,
        ),
        is_guard_ifndef(t) ==> starts_with(t, "#if"@),
        starts_with(t, "#endif"@) ==> !always_dropped(t) && !starts_with(t, "#if"@),
        is_guard_ifndef(t) ==> !is_replaced_include(t) && !is_guard_define(t),
{
    reveal_strlit("#if");
    reveal_strlit("#endif");
    reveal_strlit("#ifndef ");
    reveal_strlit("#define ");
    reveal_strlit("#include <stdint.h>");
    reveal_strlit("#include \"pac/");
    let a = "#include <stdint.h>"@;
    let b = "#include \"pac/"@;
    if starts_with(t, "#if"@) {
        lemma_prefix_char(t, "#if"@, 1);
        lemma_prefix_char(t, "#if"@, 2);
    }
    if starts_with(t, "#endif"@) {
        lemma_prefix_char(t, "#endif"@, 1);
    }
    if starts_with(t, b) {
        lemma_prefix_char(t, b, 1);
        lemma_prefix_char(t, b, 2);
    }
    if t == a {
        assert(t[1] == a[1] && t[2] == a[2]);
    }
    if starts_with(t, "#define "@) {
        lemma_prefix_char(t, "#define "@, 1);
    }
    if starts_with(t, "#ifndef "@) {
        lemma_prefix_char(t, "#ifndef "@, 0);
        lemma_prefix_char(t, "#ifndef "@, 1);
        lemma_prefix_char(t, "#ifndef "@, 2);
        assert(t.take(3) =~= "#if"@);
    }
}

/// Lines that never close more conditionals than they opened scan the
/// same whatever was open before them: they keep the same lines, leave
/// what was open below what they open, and leave open as many as their
/// nesting.
proof fn lemma_scan_from_shift(base: Seq<bool>, b: Seq<Seq<char>>)
    requires
        forall|k: int| 0 <= k <= b.len() ==> nesting(#[trigger] b.take(k)) >= 0,
    ensures
        scan_from(base, b).0 == scan_from(Seq::empty(), b).0,
        scan_from(base, b).1 == base + scan_from(Seq::empty(), b).1,
        scan_from(Seq::empty(), b).1.len() == nesting(b),
    decreases b.len(),
{
    if b.len() == 0 {
        assert(base + Seq::<bool>::empty() =~= base);
    } else {
        let init = b.drop_last();
        assert forall|k: int| 0 <= k <= init.len() implies nesting(#[trigger] init.take(k)) >= 0 by {
            assert(init.take(k) =~= b.take(k));
        }
        lemma_scan_from_shift(base, init);
        assert(b.take(b.len() as int) =~= b);
        assert(nesting(b) >= 0);
        let st = scan_from(Seq::empty(), init).1;
        let l = b.last();
        let t = trim(l);
        lemma_line_kinds(t);
        if is_replaced_include(t) || is_guard_define(t) {
        } else if is_guard_ifndef(t) {
            assert((base + st).push(true) =~= base + st.push(true));
        } else if starts_with(t, "#if"@) {
            assert((base + st).push(false) =~= base + st.push(false));
        } else if starts_with(t, "#endif"@) {
            assert(st.len() > 0);
            assert((base + st).last() == st.last());
            assert((base + st).drop_last() =~= base + st.drop_last());
        }
    }
}

/// Stripping removes a file's own include guard and nothing of what it
/// wraps: lines that open with a guard `#ifndef` and a guard `#define`,
/// hold a balanced body, and close with an `#endif` keep exactly what the
/// body alone keeps. So every conditional the body opens and closes keeps
/// its `#endif`, and the guard's `#endif` is the one dropped.
pub proof fn lemma_strip_unwraps_guard(
    open_line: Seq<char>,
    define_line: Seq<char>,
    body: Seq<Seq<char>>,
    close_line: Seq<char>,
)
    requires
        is_guard_ifndef(trim(open_line)),
        is_guard_define(trim(define_line)),
        starts_with(trim(close_line), "#endif"@),
        balanced(body),
    ensures
        kept_lines(seq![open_line, define_line] + body + seq![close_line]) == kept_lines(body),
{
    let head = seq![open_line, define_line];
    let e = Seq::<bool>::empty();
    lemma_line_kinds(trim(open_line));
    lemma_line_kinds(trim(define_line));
    lemma_line_kinds(trim(close_line));
    lemma_strip_scan_from(seq![open_line, define_line] + body + seq![close_line]);
    lemma_strip_scan_from(body);
    assert(head.drop_last() =~= seq![open_line]);
    assert(seq![open_line].drop_last() =~= Seq::<Seq<char>>::empty());
    let none = Seq::<Seq<char>>::empty();
    assert(scan_from(e, none) == (none, e));
    assert(seq![open_line].last() == open_line);
    assert(e.push(true) =~= seq![true]);
    assert(scan_step(e, open_line) == (false, seq![true]));
    assert(scan_from(e, seq![open_line]) == (none, seq![true]));
    assert(head.last() == define_line);
    assert(scan_from(e, head) == (Seq::<Seq<char>>::empty(), seq![true]));
    lemma_scan_from_append(e, head, body);
    lemma_scan_from_shift(seq![true], body);
    assert(body.take(body.len() as int) =~= body);
    let kb = scan_from(e, body).0;
    assert(scan_from(e, body).1 =~= e);
    assert(seq![true] + e =~= seq![true]);
    assert(Seq::<Seq<char>>::empty() + kb =~= kb);
    assert(scan_from(e, head + body) == (kb, seq![true]));
    lemma_scan_from_append(e, head + body, seq![close_line]);
    assert(seq![close_line].drop_last() =~= Seq::<Seq<char>>::empty());
    assert(seq![true].drop_last() =~= e);
    assert(scan_from(seq![true], none) == (none, seq![true]));
    assert(seq![close_line].last() == close_line);
    assert(seq![true].last() == true);
    assert(scan_step(seq![true], close_line) == (false, e));
    assert(scan_from(seq![true], seq![close_line]) == (none, e));
    assert(kb + Seq::<Seq<char>>::empty() =~= kb);
}

/// The same on text: a file of lines without newlines or carriage returns
/// that is a guard `#ifndef`, a guard `#define`, a balanced body and an
/// `#endif` strips to what the body alone strips to (the body's last line,
/// if any, not empty, so that splitting gives the body back).
pub proof fn lemma_strip_unwraps_guard_text(
    open_line: Seq<char>,
    define_line: Seq<char>,
    body: Seq<Seq<char>>,
    close_line: Seq<char>,
)
    requires
        is_guard_ifndef(trim(open_line)),
        is_guard_define(trim(define_line)),
        starts_with(trim(close_line), "#endif"@),
        balanced(body),
        body.len() == 0 || body.last().len() > 0,
        forall|i: int| 0 <= i < body.len() ==> no_newline(#[trigger] body[i]) && no_cr(body[i]),
        no_newline(open_line) && no_cr(open_line),
        no_newline(define_line) && no_cr(define_line),
        no_newline(close_line) && no_cr(close_line),
    ensures
        stripped(join(seq![open_line, define_line] + body + seq![close_line], "\n"@)) == stripped(
            join(body, "\n"@),
        ),
{
    reveal_strlit("#endif");
    let w = seq![open_line, define_line] + body + seq![close_line];
    let empty = Seq::<char>::empty();
    if close_line.len() == 0 {
        assert(close_line =~= empty);
        assert(trim_start(empty) == empty);
        assert(trim(close_line) == empty);
    }
    assert forall|i: int| 0 <= i < w.len() implies no_newline(#[trigger] w[i]) && no_cr(w[i]) by {
        if i == 0 {
            assert(w[i] == open_line);
        } else if i == 1 {
            assert(w[i] == define_line);
        } else if i < w.len() - 1 {
            assert(w[i] == body[i - 2]);
        } else {
            assert(w[i] == close_line);
        }
    }
    assert(w.last() == close_line);
    lemma_lines_of_join(w);
    if body.len() == 0 {
        assert(join(body, "\n"@) == empty);
        assert(line_scan(empty) == (Seq::<Seq<char>>::empty(), empty));
        assert(lines(join(body, "\n"@)) =~= body);
    } else {
        lemma_lines_of_join(body);
    }
    lemma_strip_unwraps_guard(open_line, define_line, body, close_line);
}

/// The chip-level guard and `<stdint.h>` include are the only guard and
/// replaced include left: in the merged header of a chip whose upper-case
/// name holds no newline, with at most one device file, the only lines
/// that are, trimmed, a guard `#ifndef`, a guard `#define`,
/// `#include <stdint.h>` or a `pac/` include are the second, the third
/// and the fifth line (the chip-level `#ifndef` and `#define`, and the
/// `<stdint.h>` include).
pub proof fn lemma_only_chip_guard_and_stdint_include(
    upper_name: Seq<char>,
    files: Seq<(String, String)>,
)
    requires
        no_newline(upper_name),
        forall|i: int, j: int|
            #![trigger files[i], files[j]]
            0 <= i < files.len() && 0 <= j < files.len() && starts_with(files[i].0@, "device_"@)
                && starts_with(files[j].0@, "device_"@) ==> i == j,
    ensures
        ({
            let ls = lines(assembled_header(upper_name, files));
            forall|i: int|
                0 <= i < ls.len() && always_dropped(trim(#[trigger] ls[i])) ==> i == 1 || i == 2
                    || i == 4
        }),
{
    reveal_strlit("\n");
    lemma_header_lines(upper_name, files);
    let p = sections(files, "pac/"@, "\n"@);
    let d = sections(files, "device_"@, Seq::empty());
    let m = (p + d).push('\n');
    lemma_block_sections_lines(files, "pac/"@);
    lemma_sections_single(files, "device_"@);
    let dp = line_scan(p).0;
    if d == Seq::<char>::empty() {
        let e = Seq::<char>::empty();
        lemma_line_scan_line(e);
        assert(strip_cr(e) == e);
        lemma_empty_line_kept();
        assert(m =~= p + e.push('\n'));
        lemma_line_scan_append(p, e.push('\n'));
    } else {
        let j = choose|j: int|
            #![trigger files[j]]
            0 <= j < files.len() && d == stripped(files[j].1@);
        lemma_stripped_lines(files[j].1@);
        assert(m =~= p + d.push('\n'));
        lemma_line_scan_append(p, d.push('\n'));
    }
    let dm = line_scan(m).0;
    assert forall|i: int| 0 <= i < dm.len() implies !always_dropped(trim(#[trigger] dm[i])) by {
        let db = line_scan(m.subrange(p.len() as int, m.len() as int)).0;
        assert(m.subrange(p.len() as int, m.len() as int) =~= d.push('\n'));
        if i < dp.len() {
            assert(dm[i] == dp[i]);
        } else {
            assert(dm[i] == db[i - dp.len()]);
        }
    }
    let g = "ASPEED_"@ + upper_name + "_H"@;
    let e = Seq::<char>::empty();
    let ls = lines(assembled_header(upper_name, files));
    reveal_strlit("/* Auto-generated by aspeed-data-gen. DO NOT EDIT. */");
    reveal_strlit("#endif /* ");
    reveal_strlit(" */");
    let first = "/* Auto-generated by aspeed-data-gen. DO NOT EDIT. */"@;
    let last = "#endif /* "@ + g + " */"@;
    assert(last[0] == '#' && last[1] == 'e');
    assert(last.last() == '/');
    lemma_plain_line_kept(first);
    lemma_plain_line_kept(last);
    lemma_empty_line_kept();
    assert forall|i: int|
        0 <= i < ls.len() && always_dropped(trim(#[trigger] ls[i])) implies i == 1 || i == 2
            || i == 4 by {
        if i == 0 {
            assert(ls[i] == first);
        } else if i == 3 || i == 5 {
            assert(ls[i] == e);
        } else if i == ls.len() - 1 {
            assert(ls[i] == last);
        } else if i >= 6 {
            assert(ls[i] == dm[i - 6]);
        }
    }
}

} // verus!
