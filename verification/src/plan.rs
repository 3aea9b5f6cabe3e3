//! The decisions of the generator around the outside work: which chip
//! files to process and with which backend, which register files a chip
//! needs, the device description handed to the code generator, and whether
//! an output file has to be written.
use vstd::prelude::*;

use crate::chip::{ChipDef, InterruptDef, PeripheralDef};
use crate::namespace::opt_view;
use crate::text::{
    append_str, chars_ends_with, chars_eq, chars_occur_at, chars_of, contains_seq, ends_with,
    occurs_at, string_of,
};

verus! {

// ---------------------------------------------------------------------------
// Backends
// ---------------------------------------------------------------------------

/// The code generator a chip is rendered with.
#[derive(PartialEq, Eq, Structural, Clone, Copy, Debug)]
pub enum Backend {
    /// A single merged C header (ColdFire chips).
    CHeader,
    /// A Rust PAC module (Cortex-M and RISC-V chips).
    RustPac,
}

/// The target architecture of a Rust PAC module.
#[derive(PartialEq, Eq, Structural, Clone, Copy, Debug)]
pub enum PacArch {
    CortexM,
    RiscV,
}

/// `"coldfire"` chips get a C header, all others a Rust module.
pub open spec fn backend_of(arch: Seq<char>) -> Backend {
    if arch == "coldfire"@ {
        Backend::CHeader
    } else {
        Backend::RustPac
    }
}

/// `"riscv"` selects RISC-V, anything else Cortex-M.
pub open spec fn pac_arch_of(arch: Seq<char>) -> PacArch {
    if arch == "riscv"@ {
        PacArch::RiscV
    } else {
        PacArch::CortexM
    }
}

/// The backend for a chip of the given `arch`.
pub fn chip_backend(arch: &str) -> (b: Backend)
    ensures
        b == backend_of(arch@),
{
    if chars_eq(&chars_of(arch), &chars_of("coldfire")) {
        Backend::CHeader
    } else {
        Backend::RustPac
    }
}

/// The architecture of the Rust PAC module of a chip of the given `arch`.
pub fn rust_arch_for(arch: &str) -> (a: PacArch)
    ensures
        a == pac_arch_of(arch@),
{
    if chars_eq(&chars_of(arch), &chars_of("riscv")) {
        PacArch::RiscV
    } else {
        PacArch::CortexM
    }
}

/// Only ColdFire chips get a C header and only RISC-V chips a RISC-V
/// module: `"coldfire"` selects the C header, every other architecture a
/// Rust module; `"riscv"` selects RISC-V, every other architecture
/// Cortex-M.
pub proof fn lemma_backend_and_arch_choice(arch: Seq<char>)
    ensures
        backend_of("coldfire"@) == Backend::CHeader,
        arch != "coldfire"@ ==> backend_of(arch) == Backend::RustPac,
        pac_arch_of("riscv"@) == PacArch::RiscV,
        arch != "riscv"@ ==> pac_arch_of(arch) == PacArch::CortexM,
{
}

// ---------------------------------------------------------------------------
// Files
// ---------------------------------------------------------------------------

/// A directory entry is a chip definition when its extension is exactly
/// `yaml`: the name ends in `.yaml` and something stands before that dot.
pub open spec fn is_chip_file(file_name: Seq<char>) -> bool {
    ends_with(file_name, ".yaml"@) && file_name.len() > ".yaml"@.len()
}

/// Whether the directory entry `file_name` is a chip definition.
pub fn is_chip_definition_file(file_name: &str) -> (r: bool)
    ensures
        r == is_chip_file(file_name@),
{
    let name = chars_of(file_name);
    let ext = chars_of(".yaml");
    chars_ends_with(&name, &ext) && name.len() > ext.len()
}

/// A file has to be written unless it exists with exactly this content.
pub open spec fn must_write(existing: Option<Seq<char>>, content: Seq<char>) -> bool {
    !(existing == Some(content))
}

/// Whether an output file whose current content is `existing` (`None` when
/// it cannot be read) has to be written with `content`.
pub fn needs_write(existing: &Option<String>, content: &str) -> (r: bool)
    ensures
        r == must_write(opt_view(*existing), content@),
{
    match existing {
        Some(e) => !chars_eq(&chars_of(e.as_str()), &chars_of(content)),
        None => true,
    }
}

/// Chip definitions are found by their extension alone: every name made of
/// a non-empty stem and `.yaml` is a chip definition, whatever the stem
/// holds, and every chip definition is such a name.
pub proof fn lemma_chip_file_is_stem_and_yaml(stem: Seq<char>, file_name: Seq<char>)
    ensures
        stem.len() > 0 ==> is_chip_file(stem + ".yaml"@),
        is_chip_file(file_name) ==> file_name.len() > 5 && file_name == file_name.take(
            file_name.len() - 5,
        ) + ".yaml"@,
        !ends_with(file_name, ".yaml"@) ==> !is_chip_file(file_name),
{
    reveal_strlit(".yaml");
    let n = stem + ".yaml"@;
    assert(n.skip(n.len() - 5) =~= ".yaml"@);
    if is_chip_file(file_name) {
        assert(file_name =~= file_name.take(file_name.len() - 5) + file_name.skip(
            file_name.len() - 5,
        ));
    }
}

/// A file is written exactly when it could not be read or holds other
/// text: an unreadable file is written, a file holding `content` is left
/// alone, and a file holding any other text is written.
pub proof fn lemma_write_exactly_when_changed(existing: Seq<char>, content: Seq<char>)
    ensures
        must_write(None, content),
        !must_write(Some(content), content),
        existing != content ==> must_write(Some(existing), content),
{
}

// ---------------------------------------------------------------------------
// Register files
// ---------------------------------------------------------------------------

/// The position of the first occurrence of `p` in `s`.
pub open spec fn first_occurrence(s: Seq<char>, p: Seq<char>) -> int {
    choose|i: int| occurs_at(s, p, i) && forall|j: int| 0 <= j < i ==> !occurs_at(s, p, j)
}

/// The file stem of a block reference `"<file_stem>::<BlockName>"`: what
/// stands before the first `::`; `None` when the reference has no `::`.
#[verifier::opaque]
pub open spec fn file_stem_of(block_ref: Seq<char>) -> Option<Seq<char>> {
    if contains_seq(block_ref, "::"@) {
        Some(block_ref.take(first_occurrence(block_ref, "::"@)))
    } else {
        None
    }
}

/// A first occurrence is the one `first_occurrence` picks.
proof fn lemma_first_occurrence(s: Seq<char>, p: Seq<char>, i: int)
    requires
        occurs_at(s, p, i),
        forall|j: int| 0 <= j < i ==> !occurs_at(s, p, j),
    ensures
        first_occurrence(s, p) == i,
{
    let c = first_occurrence(s, p);
    assert(occurs_at(s, p, c) && forall|j: int| 0 <= j < c ==> !occurs_at(s, p, j));
    if c < i {
        assert(!occurs_at(s, p, c));
    }
    if i < c {
        assert(!occurs_at(s, p, i));
    }
}

/// The stem of a block reference is what stands before its first `::`:
/// a stem without `:` followed by `::` and anything gives that stem back,
/// whatever follows (more `::` included), and a reference without `::`
/// has no stem.
pub proof fn lemma_file_stem_is_before_first_separator(stem: Seq<char>, rest: Seq<char>, r: Seq<char>)
    requires
        forall|i: int| 0 <= i < stem.len() ==> #[trigger] stem[i] != ':',
    ensures
        file_stem_of(stem + "::"@ + rest) == Some(stem),
        !contains_seq(r, "::"@) ==> file_stem_of(r) is None,
{
    reveal(file_stem_of);
    reveal_strlit("::");
    let s = stem + "::"@ + rest;
    let n = stem.len() as int;
    assert(s.subrange(n, n + 2) =~= "::"@);
    assert(occurs_at(s, "::"@, n));
    assert forall|j: int| 0 <= j < n implies !occurs_at(s, "::"@, j) by {
        if occurs_at(s, "::"@, j) {
            assert(s.subrange(j, j + 2)[0] == s[j]);
            assert(s[j] == stem[j]);
        }
    }
    lemma_first_occurrence(s, "::"@, n);
    assert(s.take(n) =~= stem);
}

/// The file stem of a block reference; `None` when it has no `::`.
pub fn block_file_stem(block_ref: &str) -> (stem: Option<String>)
    ensures
        opt_view(stem) == file_stem_of(block_ref@),
{
    reveal(file_stem_of);
    let s = chars_of(block_ref);
    let sep = chars_of("::");
    let n = s.len();
    let mut i: usize = 0;
    while i < n
        invariant
            n == s@.len(),
            s@ == block_ref@,
            sep@ == "::"@,
            i <= n,
            forall|j: int| 0 <= j < i ==> !occurs_at(s@, sep@, j),
        decreases n - i,
    {
        if chars_occur_at(&s, &sep, i) {
            proof {
                reveal(file_stem_of);
                lemma_first_occurrence(s@, sep@, i as int);
            }
            let mut stem: Vec<char> = Vec::new();
            let mut k: usize = 0;
            while k < i
                invariant
                    i <= n == s@.len(),
                    k <= i,
                    stem@ == s@.take(k as int),
                decreases i - k,
            {
                stem.push(s[k]);
                k = k + 1;
                assert(stem@ =~= s@.take(k as int));
            }
            return Some(string_of(&stem));
        }
        i = i + 1;
    }
    assert forall|j: int| !occurs_at(s@, sep@, j) by {
        reveal_strlit("::");
        if 0 <= j < n {
            assert(j < i);
        }
    }
    None
}

/// The register file stems a chip needs, in the order of its peripherals,
/// each once: one per peripheral that names a register block. It is an
/// error, carrying the reference, when a peripheral's block reference (the
/// first such, in order) has no `::`.
pub open spec fn stems_to_load(ps: Seq<PeripheralDef>) -> Result<Seq<Seq<char>>, Seq<char>>
    decreases ps.len(),
{
    if ps.len() == 0 {
        Ok(Seq::empty())
    } else {
        match stems_to_load(ps.drop_last()) {
            Err(e) => Err(e),
            Ok(prev) => match ps.last().block {
                None => Ok(prev),
                Some(b) => match file_stem_of(b@) {
                    None => Err(b@),
                    Some(st) => Ok(
                        if prev.contains(st) {
                            prev
                        } else {
                            prev.push(st)
                        },
                    ),
                },
            },
        }
    }
}

/// The views of a sequence of strings.
pub open spec fn string_views(v: Seq<String>) -> Seq<Seq<char>> {
    v.map_values(|s: String| s@)
}

/// Whether `v` holds a string equal to `s`.
fn contains_string(v: &Vec<String>, s: &String) -> (r: bool)
    ensures
        r == string_views(v@).contains(s@),
{
    let n = v.len();
    let mut i: usize = 0;
    while i < n
        invariant
            n == v@.len(),
            i <= n,
            forall|j: int| 0 <= j < i ==> v@[j]@ != s@,
        decreases n - i,
    {
        if chars_eq(&chars_of(v[i].as_str()), &chars_of(s.as_str())) {
            assert(string_views(v@)[i as int] == s@);
            return true;
        }
        i = i + 1;
    }
    false
}

/// The stems of the register files that a chip's peripherals refer to, in
/// order of first reference, each once; `Err` with the first block
/// reference that has no `::`.
#[verifier::rlimit(40)]
pub fn register_file_stems(peripherals: &Vec<PeripheralDef>) -> (r: Result<Vec<String>, String>)
    ensures
        match r {
            Ok(stems) => stems_to_load(peripherals@) == Ok::<Seq<Seq<char>>, Seq<char>>(
                string_views(stems@),
            ),
            Err(b) => stems_to_load(peripherals@) == Err::<Seq<Seq<char>>, Seq<char>>(b@),
        },
{
    let mut stems: Vec<String> = Vec::new();
    let n = peripherals.len();
    let mut i: usize = 0;
    assert(peripherals@.take(0) =~= Seq::<PeripheralDef>::empty());
    assert(string_views(stems@) =~= Seq::<Seq<char>>::empty());
    while i < n
        invariant
            n == peripherals@.len(),
            i <= n,
            stems_to_load(peripherals@.take(i as int)) == Ok::<Seq<Seq<char>>, Seq<char>>(
                string_views(stems@),
            ),
        decreases n - i,
    {
        assert(peripherals@.take(i + 1).drop_last() =~= peripherals@.take(i as int));
        assert(peripherals@.take(i + 1).last() == peripherals@[i as int]);
        match &peripherals[i].block {
            Some(b) => {
                match block_file_stem(b.as_str()) {
                    Some(stem) => {
                        if !contains_string(&stems, &stem) {
                            let ghost before = string_views(stems@);
                            let ghost sv = stem@;
                            stems.push(stem);
                            assert(string_views(stems@) =~= before.push(sv));
                        }
                    },
                    None => {
                        proof {
                            let ghost pre = peripherals@.take(i + 1);
                            assert(pre.last().block == Some(*b));
                            assert(stems_to_load(pre) == Err::<Seq<Seq<char>>, Seq<char>>(b@));
                            lemma_stems_error_stays(peripherals@, i as int + 1);
                        }
                        return Err(b.clone());
                    },
                }
            },
            None => {},
        }
        i = i + 1;
    }
    assert(peripherals@.take(n as int) =~= peripherals@);
    Ok(stems)
}

/// Once the stems of a prefix of the peripherals are an error, so are
/// those of all of them.
proof fn lemma_stems_error_stays(ps: Seq<PeripheralDef>, k: int)
    requires
        0 <= k <= ps.len(),
        stems_to_load(ps.take(k)) is Err,
    ensures
        stems_to_load(ps) == stems_to_load(ps.take(k)),
    decreases ps.len() - k,
{
    if k < ps.len() {
        assert(ps.take(k + 1).drop_last() =~= ps.take(k));
        lemma_stems_error_stays(ps, k + 1);
    } else {
        assert(ps.take(k) =~= ps);
    }
}

/// A chip whose block references are not all of the form
/// `<stem>::<Block>` is refused with its first such reference: the error
/// is the block reference of a peripheral that has no `::`, and every
/// peripheral before it that names a block names one with `::`.
pub proof fn lemma_stems_error_is_first_bad_reference(ps: Seq<PeripheralDef>)
    ensures
        stems_to_load(ps) matches Err(e) ==> exists|i: int|
            #![trigger ps[i]]
            0 <= i < ps.len() && opt_view(ps[i].block) == Some(e) && !contains_seq(e, "::"@)
                && forall|j: int|
                #![trigger ps[j]]
                0 <= j < i && ps[j].block is Some ==> contains_seq(ps[j].block->0@, "::"@),
    decreases ps.len(),
{
    reveal(file_stem_of);
    if ps.len() > 0 {
        let init = ps.drop_last();
        lemma_stems_error_is_first_bad_reference(init);
        assert forall|i: int| 0 <= i < init.len() implies #[trigger] init[i] == ps[i] by {}
        match stems_to_load(init) {
            Err(e) => {
                let i = choose|i: int|
                    #![trigger init[i]]
                    0 <= i < init.len() && opt_view(init[i].block) == Some(e) && !contains_seq(
                        e,
                        "::"@,
                    ) && forall|j: int|
                        #![trigger init[j]]
                        0 <= j < i && init[j].block is Some ==> contains_seq(
                            init[j].block->0@,
                            "::"@,
                        );
                assert(ps[i] == init[i]);
                assert forall|j: int| #![trigger ps[j]]
                    0 <= j < i && ps[j].block is Some implies contains_seq(ps[j].block->0@, "::"@) by {
                    assert(init[j] == ps[j]);
                }
            },
            Ok(prev) => {
                if stems_to_load(ps) is Err {
                    let n = ps.len() - 1;
                    assert(ps[n] == ps.last());
                    lemma_stems_to_load(init);
                    assert forall|j: int| #![trigger ps[j]]
                        0 <= j < n && ps[j].block is Some implies contains_seq(
                        ps[j].block->0@,
                        "::"@,
                    ) by {
                        assert(init[j] == ps[j]);
                        assert(has_block(init[j]));
                        assert(block_stem(init[j]) is Some);
                    }
                }
            },
        }
    }
}

/// The name of the register file with the given stem.
pub fn register_file_name(stem: &str) -> (name: String)
    ensures
        name@ == stem@ + ".yaml"@,
{
    let mut out = chars_of(stem);
    append_str(&mut out, ".yaml");
    string_of(&out)
}

/// A peripheral names a register block.
pub open spec fn has_block(p: PeripheralDef) -> bool {
    p.block is Some
}

/// The stem of the block of peripheral `p`, where it names one with `::`.
pub open spec fn block_stem(p: PeripheralDef) -> Option<Seq<char>> {
    match p.block {
        Some(b) => file_stem_of(b@),
        None => None,
    }
}

/// Register files are loaded once each, and every register file a
/// peripheral refers to is loaded: the stems a chip needs are found exactly
/// when every block reference has `::`, and then they are distinct, hold
/// the stem of every peripheral's block, and hold nothing else.
#[verifier::rlimit(40)]
pub proof fn lemma_stems_to_load(ps: Seq<PeripheralDef>)
    ensures
        stems_to_load(ps) is Ok <==> forall|i: int|
            #![trigger ps[i]]
            0 <= i < ps.len() && has_block(ps[i]) ==> block_stem(ps[i]) is Some,
        stems_to_load(ps) matches Ok(st) ==> {
            &&& forall|i: int, j: int| 0 <= i < j < st.len() ==> st[i] != st[j]
            &&& forall|i: int|
                #![trigger ps[i]]
                0 <= i < ps.len() && has_block(ps[i]) ==> st.contains(block_stem(ps[i])->0)
            &&& forall|k: int|
                #![trigger st[k]]
                0 <= k < st.len() ==> exists|i: int|
                    #![trigger ps[i]]
                    0 <= i < ps.len() && block_stem(ps[i]) == Some(st[k])
        },
    decreases ps.len(),
{
    if ps.len() > 0 {
        let init = ps.drop_last();
        lemma_stems_to_load(init);
        assert forall|i: int| 0 <= i < init.len() implies #[trigger] init[i] == ps[i] by {}
        let last = ps[ps.len() - 1];
        assert(last == ps.last());
        match stems_to_load(init) {
            Err(_) => {
                let i = choose|i: int|
                    #![trigger init[i]]
                    0 <= i < init.len() && has_block(init[i]) && !(block_stem(init[i]) is Some);
                assert(ps[i] == init[i]);
            },
            Ok(prev) => {
                if stems_to_load(ps) is Ok {
                    let cur = stems_to_load(ps)->Ok_0;
                    assert forall|i: int|
                        0 <= i < ps.len() && has_block(ps[i]) implies block_stem(ps[i]) is Some
                        && cur.contains(block_stem(ps[i])->0) by {
                        if i < ps.len() - 1 {
                            assert(init[i] == ps[i]);
                            let k = choose|k: int|
                                0 <= k < prev.len() && prev[k] == block_stem(init[i])->0;
                            assert(cur[k] == prev[k]);
                        } else if !prev.contains(block_stem(ps[i])->0) {
                            assert(cur[prev.len() as int] == block_stem(ps[i])->0);
                        }
                    }
                    assert forall|k: int| #![trigger cur[k]] 0 <= k < cur.len() implies exists|i: int|
                        #![trigger ps[i]]
                        0 <= i < ps.len() && block_stem(ps[i]) == Some(cur[k]) by {
                        if k < prev.len() {
                            let i = choose|i: int|
                                #![trigger init[i]]
                                0 <= i < init.len() && block_stem(init[i]) == Some(prev[k]);
                            assert(ps[i] == init[i]);
                        } else {
                            assert(block_stem(ps[ps.len() - 1]) == Some(cur[k]));
                        }
                    }
                } else {
                    assert(has_block(ps[ps.len() - 1]) && !(block_stem(ps[ps.len() - 1]) is Some));
                }
            },
        }
    }
}

/// Register files are loaded in the order their peripherals first refer
/// to them: the stems needed by the first `k` peripherals are the start of
/// the stems needed by all of them.
pub proof fn lemma_stems_in_order_of_first_reference(ps: Seq<PeripheralDef>, k: int)
    requires
        0 <= k <= ps.len(),
        stems_to_load(ps) is Ok,
    ensures
        stems_to_load(ps.take(k)) is Ok,
        ({
            let a = stems_to_load(ps.take(k))->Ok_0;
            let all = stems_to_load(ps)->Ok_0;
            a.len() <= all.len() && all.take(a.len() as int) == a
        }),
    decreases ps.len(),
{
    if k == ps.len() {
        assert(ps.take(k) =~= ps);
        let all = stems_to_load(ps)->Ok_0;
        assert(all.take(all.len() as int) =~= all);
    } else {
        let init = ps.drop_last();
        assert(init.take(k) =~= ps.take(k));
        assert(stems_to_load(init) is Ok);
        lemma_stems_in_order_of_first_reference(init, k);
        let a = stems_to_load(ps.take(k))->Ok_0;
        let prev = stems_to_load(init)->Ok_0;
        let all = stems_to_load(ps)->Ok_0;
        assert(all.len() >= prev.len());
        assert(all.take(prev.len() as int) =~= prev);
        assert(all.take(a.len() as int) =~= prev.take(a.len() as int));
    }
}

// ---------------------------------------------------------------------------
// The device
// ---------------------------------------------------------------------------

/// A peripheral of the device handed to the code generator.
pub struct PeripheralEntry {
    pub name: String,
    pub description: Option<String>,
    pub base_address: u64,
    pub block: String,
}

/// An interrupt of the device handed to the code generator.
pub struct InterruptEntry {
    pub name: String,
    pub description: Option<String>,
    pub value: u32,
}

/// The device handed to the code generator, under the chip's name.
pub struct DevicePlan {
    pub nvic_priority_bits: Option<u8>,
    pub peripherals: Vec<PeripheralEntry>,
    pub interrupts: Vec<InterruptEntry>,
}

/// The peripherals that name a register block, in order.
pub open spec fn with_block(ps: Seq<PeripheralDef>) -> Seq<PeripheralDef>
    decreases ps.len(),
{
    if ps.len() == 0 {
        ps
    } else if has_block(ps.last()) {
        with_block(ps.drop_last()).push(ps.last())
    } else {
        with_block(ps.drop_last())
    }
}

/// The device peripheral `e` is the chip peripheral `p`.
pub open spec fn peripheral_entry_of(e: PeripheralEntry, p: PeripheralDef) -> bool {
    &&& e.name@ == p.name@
    &&& opt_view(e.description) == opt_view(p.description)
    &&& e.base_address == p.address
    &&& p.block matches Some(b) && e.block@ == b@
}

/// The device interrupt `e` is the chip interrupt `d`.
pub open spec fn interrupt_entry_of(e: InterruptEntry, d: InterruptDef) -> bool {
    &&& e.name@ == d.name@
    &&& opt_view(e.description) == opt_view(d.description)
    &&& e.value == d.number
}

/// The device's peripherals are the chip's peripherals that name a block,
/// all of them and in order, repeated blocks included: they are the
/// chip's list filtered by having a block.
pub proof fn lemma_with_block_is_filter(ps: Seq<PeripheralDef>)
    ensures
        with_block(ps) == ps.filter(|p: PeripheralDef| p.block is Some),
    decreases ps.len(),
{
    reveal(Seq::filter);
    if ps.len() > 0 {
        lemma_with_block_is_filter(ps.drop_last());
    }
}

/// A copy of an optional string.
fn copy_opt_string(o: &Option<String>) -> (r: Option<String>)
    ensures
        opt_view(r) == opt_view(*o),
{
    match o {
        Some(s) => Some(s.clone()),
        None => None,
    }
}

/// The device of a chip: its NVIC priority bits, every peripheral that
/// names a register block (the others are left out), and every interrupt,
/// each in the chip's order.
pub fn device_plan(chip: &ChipDef) -> (d: DevicePlan)
    ensures
        d.nvic_priority_bits == chip.nvic_priority_bits,
        d.peripherals@.len() == with_block(chip.peripherals@).len(),
        d.peripherals@.len() == chip.peripherals@.filter(|p: PeripheralDef| p.block is Some).len(),
        forall|k: int|
            0 <= k < d.peripherals@.len() ==> peripheral_entry_of(
                #[trigger] d.peripherals@[k],
                chip.peripherals@.filter(|p: PeripheralDef| p.block is Some)[k],
            ),
        forall|k: int|
            0 <= k < d.peripherals@.len() ==> peripheral_entry_of(
                #[trigger] d.peripherals@[k],
                with_block(chip.peripherals@)[k],
            ),
        d.interrupts@.len() == chip.interrupts@.len(),
        forall|k: int|
            0 <= k < d.interrupts@.len() ==> interrupt_entry_of(
                #[trigger] d.interrupts@[k],
                chip.interrupts@[k],
            ),
{
    let ps = &chip.peripherals;
    let mut peripherals: Vec<PeripheralEntry> = Vec::new();
    let n = ps.len();
    let mut i: usize = 0;
    assert(ps@.take(0) =~= Seq::<PeripheralDef>::empty());
    while i < n
        invariant
            n == ps@.len(),
            i <= n,
            peripherals@.len() == with_block(ps@.take(i as int)).len(),
            forall|k: int|
                0 <= k < peripherals@.len() ==> peripheral_entry_of(
                    #[trigger] peripherals@[k],
                    with_block(ps@.take(i as int))[k],
                ),
        decreases n - i,
    {
        assert(ps@.take(i + 1).drop_last() =~= ps@.take(i as int));
        assert(ps@.take(i + 1).last() == ps@[i as int]);
        let p = &ps[i];
        match &p.block {
            Some(b) => {
                peripherals.push(
                    PeripheralEntry {
                        name: p.name.clone(),
                        description: copy_opt_string(&p.description),
                        base_address: p.address,
                        block: b.clone(),
                    },
                );
            },
            None => {},
        }
        i = i + 1;
    }
    assert(ps@.take(n as int) =~= ps@);
    proof {
        lemma_with_block_is_filter(ps@);
    }

    let is = &chip.interrupts;
    let mut interrupts: Vec<InterruptEntry> = Vec::new();
    let m = is.len();
    let mut j: usize = 0;
    while j < m
        invariant
            m == is@.len(),
            j <= m,
            interrupts@.len() == j,
            forall|k: int|
                0 <= k < j ==> interrupt_entry_of(#[trigger] interrupts@[k], is@[k]),
        decreases m - j,
    {
        let d = &is[j];
        interrupts.push(
            InterruptEntry {
                name: d.name.clone(),
                description: copy_opt_string(&d.description),
                value: d.number,
            },
        );
        j = j + 1;
    }
    DevicePlan { nvic_priority_bits: chip.nvic_priority_bits, peripherals, interrupts }
}

/// A chip whose definition names no architecture (so `default_arch`,
/// `"cortex-m"`) is rendered as a Rust PAC module for Cortex-M.
pub proof fn lemma_default_arch_is_cortex_m_pac()
    ensures
        backend_of("cortex-m"@) == Backend::RustPac,
        pac_arch_of("cortex-m"@) == PacArch::CortexM,
{
    reveal_strlit("cortex-m");
    reveal_strlit("coldfire");
    reveal_strlit("riscv");
    assert("cortex-m"@[2] != "coldfire"@[2]);
    assert("cortex-m"@.len() != "riscv"@.len());
}

} // verus!
