//! The names of one register file's IR, and their namespacing by the file
//! stem: every key and every reference `K` becomes `<stem>::K`, so that the
//! register files of one chip can be merged without clashes.
use vstd::prelude::*;

use crate::text::{append_chars, append_str, chars_of, string_of};

verus! {

// ---------------------------------------------------------------------------
// The model
// ---------------------------------------------------------------------------

/// What an item of a block refers to.
pub enum BlockItemRef {
    /// A register, with the field set that describes it, if any.
    Register { fieldset: Option<String> },
    /// A nested block.
    Block { block: String },
}

/// The names a block refers to.
pub struct BlockRefs {
    /// The block this one extends, if any.
    pub extends: Option<String>,
    /// Its items, in order.
    pub items: Vec<BlockItemRef>,
}

/// The names a field set refers to.
pub struct FieldSetRefs {
    /// The field set this one extends, if any.
    pub extends: Option<String>,
    /// For each field, in order, the enum that gives its values, if any.
    pub field_enums: Vec<Option<String>>,
}

/// The keys of an IR and the names its entries refer to. Each list is in
/// the IR's key order.
pub struct IrNames {
    pub blocks: Vec<(String, BlockRefs)>,
    pub fieldsets: Vec<(String, FieldSetRefs)>,
    pub enums: Vec<String>,
}

/// The view of a `BlockItemRef`.
pub enum ItemRefView {
    Register(Option<Seq<char>>),
    Block(Seq<char>),
}

/// The view of a `BlockRefs`.
pub struct BlockView {
    pub extends: Option<Seq<char>>,
    pub items: Seq<ItemRefView>,
}

/// The view of a `FieldSetRefs`.
pub struct FieldSetView {
    pub extends: Option<Seq<char>>,
    pub field_enums: Seq<Option<Seq<char>>>,
}

/// The view of an `IrNames`.
pub struct IrView {
    pub blocks: Seq<(Seq<char>, BlockView)>,
    pub fieldsets: Seq<(Seq<char>, FieldSetView)>,
    pub enums: Seq<Seq<char>>,
}

/// The view of an optional name.
pub open spec fn opt_view(o: Option<String>) -> Option<Seq<char>> {
    match o {
        Some(s) => Some(s@),
        None => None,
    }
}

impl View for BlockItemRef {
    type V = ItemRefView;

    open spec fn view(&self) -> ItemRefView {
        match self {
            BlockItemRef::Register { fieldset } => ItemRefView::Register(opt_view(*fieldset)),
            BlockItemRef::Block { block } => ItemRefView::Block(block@),
        }
    }
}

impl View for BlockRefs {
    type V = BlockView;

    open spec fn view(&self) -> BlockView {
        BlockView {
            extends: opt_view(self.extends),
            items: self.items@.map_values(|it: BlockItemRef| it@),
        }
    }
}

impl View for FieldSetRefs {
    type V = FieldSetView;

    open spec fn view(&self) -> FieldSetView {
        FieldSetView {
            extends: opt_view(self.extends),
            field_enums: self.field_enums@.map_values(|e: Option<String>| opt_view(e)),
        }
    }
}

impl View for IrNames {
    type V = IrView;

    open spec fn view(&self) -> IrView {
        IrView {
            blocks: self.blocks@.map_values(|kv: (String, BlockRefs)| (kv.0@, kv.1@)),
            fieldsets: self.fieldsets@.map_values(|kv: (String, FieldSetRefs)| (kv.0@, kv.1@)),
            enums: self.enums@.map_values(|k: String| k@),
        }
    }
}

// ---------------------------------------------------------------------------
// Namespacing
// ---------------------------------------------------------------------------

/// `name` in the namespace `prefix`: `<prefix>::<name>`.
pub open spec fn prefixed(prefix: Seq<char>, name: Seq<char>) -> Seq<char> {
    prefix + "::"@ + name
}

/// An optional name in the namespace `prefix`.
pub open spec fn prefixed_opt(prefix: Seq<char>, o: Option<Seq<char>>) -> Option<Seq<char>> {
    match o {
        Some(n) => Some(prefixed(prefix, n)),
        None => None,
    }
}

/// An item whose reference is moved into the namespace `prefix`.
pub open spec fn namespaced_item(prefix: Seq<char>, it: ItemRefView) -> ItemRefView {
    match it {
        ItemRefView::Register(fs) => ItemRefView::Register(prefixed_opt(prefix, fs)),
        ItemRefView::Block(b) => ItemRefView::Block(prefixed(prefix, b)),
    }
}

/// A block whose references are moved into the namespace `prefix`.
pub open spec fn namespaced_block(prefix: Seq<char>, b: BlockView) -> BlockView {
    BlockView {
        extends: prefixed_opt(prefix, b.extends),
        items: b.items.map_values(|it: ItemRefView| namespaced_item(prefix, it)),
    }
}

/// A field set whose references are moved into the namespace `prefix`.
pub open spec fn namespaced_fieldset(prefix: Seq<char>, f: FieldSetView) -> FieldSetView {
    FieldSetView {
        extends: prefixed_opt(prefix, f.extends),
        field_enums: f.field_enums.map_values(|e: Option<Seq<char>>| prefixed_opt(prefix, e)),
    }
}

/// The IR with every key and every reference moved into the namespace
/// `prefix`; the order of the entries is kept.
pub open spec fn namespaced(ir: IrView, prefix: Seq<char>) -> IrView {
    IrView {
        blocks: ir.blocks.map_values(
            |kv: (Seq<char>, BlockView)| (prefixed(prefix, kv.0), namespaced_block(prefix, kv.1)),
        ),
        fieldsets: ir.fieldsets.map_values(
            |kv: (Seq<char>, FieldSetView)|
                (prefixed(prefix, kv.0), namespaced_fieldset(prefix, kv.1)),
        ),
        enums: ir.enums.map_values(|k: Seq<char>| prefixed(prefix, k)),
    }
}

/// `<prefix>::<name>`.
fn prefixed_name(prefix: &Vec<char>, name: &String) -> (r: String)
    ensures
        r@ == prefixed(prefix@, name@),
{
    let mut out: Vec<char> = Vec::new();
    append_chars(&mut out, prefix);
    append_str(&mut out, "::");
    append_str(&mut out, name.as_str());
    string_of(&out)
}

/// An optional name in the namespace `prefix`.
fn prefixed_opt_name(prefix: &Vec<char>, o: &Option<String>) -> (r: Option<String>)
    ensures
        opt_view(r) == prefixed_opt(prefix@, opt_view(*o)),
{
    match o {
        Some(n) => Some(prefixed_name(prefix, n)),
        None => None,
    }
}

/// A block whose references are moved into the namespace `prefix`.
fn namespace_block(prefix: &Vec<char>, b: &BlockRefs) -> (r: BlockRefs)
    ensures
        r@ == namespaced_block(prefix@, b@),
{
    let mut items: Vec<BlockItemRef> = Vec::new();
    let n = b.items.len();
    let mut i: usize = 0;
    while i < n
        invariant
            n == b.items@.len(),
            i <= n,
            items@.len() == i,
            forall|j: int|
                0 <= j < i ==> #[trigger] items@[j]@ == namespaced_item(prefix@, b.items@[j]@),
        decreases n - i,
    {
        let item = match &b.items[i] {
            BlockItemRef::Register { fieldset } => BlockItemRef::Register {
                fieldset: prefixed_opt_name(prefix, fieldset),
            },
            BlockItemRef::Block { block } => BlockItemRef::Block {
                block: prefixed_name(prefix, block),
            },
        };
        items.push(item);
        i = i + 1;
    }
    let r = BlockRefs { extends: prefixed_opt_name(prefix, &b.extends), items };
    assert(r@.items =~= namespaced_block(prefix@, b@).items);
    r
}

/// A field set whose references are moved into the namespace `prefix`.
fn namespace_fieldset(prefix: &Vec<char>, f: &FieldSetRefs) -> (r: FieldSetRefs)
    ensures
        r@ == namespaced_fieldset(prefix@, f@),
{
    let mut field_enums: Vec<Option<String>> = Vec::new();
    let n = f.field_enums.len();
    let mut i: usize = 0;
    while i < n
        invariant
            n == f.field_enums@.len(),
            i <= n,
            field_enums@.len() == i,
            forall|j: int|
                0 <= j < i ==> opt_view(#[trigger] field_enums@[j]) == prefixed_opt(
                    prefix@,
                    opt_view(f.field_enums@[j]),
                ),
        decreases n - i,
    {
        field_enums.push(prefixed_opt_name(prefix, &f.field_enums[i]));
        i = i + 1;
    }
    let r = FieldSetRefs { extends: prefixed_opt_name(prefix, &f.extends), field_enums };
    assert(r@.field_enums =~= namespaced_fieldset(prefix@, f@).field_enums);
    r
}

/// Namespaces every key of the IR of the register file `prefix` and every
/// reference inside it with `<prefix>::`.
pub fn namespace_ir(ir: &mut IrNames, prefix: &str)
    ensures
        final(ir)@ == namespaced(old(ir)@, prefix@),
{
    let p = chars_of(prefix);

    let mut blocks: Vec<(String, BlockRefs)> = Vec::new();
    let n = ir.blocks.len();
    let mut i: usize = 0;
    while i < n
        invariant
            n == ir.blocks@.len(),
            i <= n,
            p@ == prefix@,
            blocks@.len() == i,
            forall|j: int|
                0 <= j < i ==> (#[trigger] blocks@[j]).0@ == prefixed(prefix@, ir.blocks@[j].0@)
                    && blocks@[j].1@ == namespaced_block(prefix@, ir.blocks@[j].1@),
        decreases n - i,
    {
        let key = prefixed_name(&p, &ir.blocks[i].0);
        let refs = namespace_block(&p, &ir.blocks[i].1);
        blocks.push((key, refs));
        i = i + 1;
    }

    let mut fieldsets: Vec<(String, FieldSetRefs)> = Vec::new();
    let n = ir.fieldsets.len();
    let mut i: usize = 0;
    while i < n
        invariant
            n == ir.fieldsets@.len(),
            i <= n,
            p@ == prefix@,
            fieldsets@.len() == i,
            forall|j: int|
                0 <= j < i ==> (#[trigger] fieldsets@[j]).0@ == prefixed(
                    prefix@,
                    ir.fieldsets@[j].0@,
                ) && fieldsets@[j].1@ == namespaced_fieldset(prefix@, ir.fieldsets@[j].1@),
        decreases n - i,
    {
        let key = prefixed_name(&p, &ir.fieldsets[i].0);
        let refs = namespace_fieldset(&p, &ir.fieldsets[i].1);
        fieldsets.push((key, refs));
        i = i + 1;
    }

    let mut enums: Vec<String> = Vec::new();
    let n = ir.enums.len();
    let mut i: usize = 0;
    while i < n
        invariant
            n == ir.enums@.len(),
            i <= n,
            p@ == prefix@,
            enums@.len() == i,
            forall|j: int|
                0 <= j < i ==> (#[trigger] enums@[j])@ == prefixed(prefix@, ir.enums@[j]@),
        decreases n - i,
    {
        enums.push(prefixed_name(&p, &ir.enums[i]));
        i = i + 1;
    }

    let ghost before = ir@;
    ir.blocks = blocks;
    ir.fieldsets = fieldsets;
    ir.enums = enums;
    assert(ir@.blocks =~= namespaced(before, prefix@).blocks);
    assert(ir@.fieldsets =~= namespaced(before, prefix@).fieldsets);
    assert(ir@.enums =~= namespaced(before, prefix@).enums);
}

// ---------------------------------------------------------------------------
// Laws
// ---------------------------------------------------------------------------

/// No two entries of `kvs` have the same key.
pub open spec fn keys_distinct<V>(kvs: Seq<(Seq<char>, V)>) -> bool {
    forall|i: int, j: int| 0 <= i < j < kvs.len() ==> kvs[i].0 != kvs[j].0
}

/// No name occurs twice in `ks`.
pub open spec fn names_distinct(ks: Seq<Seq<char>>) -> bool {
    forall|i: int, j: int| 0 <= i < j < ks.len() ==> ks[i] != ks[j]
}

/// Every kind of entry of the IR has distinct keys.
pub open spec fn ir_keys_distinct(ir: IrView) -> bool {
    &&& keys_distinct(ir.blocks)
    &&& keys_distinct(ir.fieldsets)
    &&& names_distinct(ir.enums)
}

/// Some entry of `kvs` has the key `k`.
pub open spec fn has_key<V>(kvs: Seq<(Seq<char>, V)>, k: Seq<char>) -> bool {
    exists|i: int| 0 <= i < kvs.len() && kvs[i].0 == k
}

/// An optional reference is absent or names an entry of `kvs`.
pub open spec fn opt_resolves<V>(kvs: Seq<(Seq<char>, V)>, o: Option<Seq<char>>) -> bool {
    match o {
        Some(n) => has_key(kvs, n),
        None => true,
    }
}

/// An optional reference is absent or one of `names`.
pub open spec fn opt_in_names(names: Seq<Seq<char>>, o: Option<Seq<char>>) -> bool {
    match o {
        Some(n) => names.contains(n),
        None => true,
    }
}

/// The reference of a block item names an entry of the IR.
pub open spec fn item_resolves(ir: IrView, it: ItemRefView) -> bool {
    match it {
        ItemRefView::Register(fs) => opt_resolves(ir.fieldsets, fs),
        ItemRefView::Block(b) => has_key(ir.blocks, b),
    }
}

/// Every reference inside the IR names one of its own entries: the block a
/// block extends, the blocks and field sets its items use, the field set a
/// field set extends, and the enums of its fields.
pub open spec fn refs_resolved(ir: IrView) -> bool {
    &&& forall|i: int|
        #![trigger ir.blocks[i]]
        0 <= i < ir.blocks.len() ==> {
            &&& opt_resolves(ir.blocks, ir.blocks[i].1.extends)
            &&& forall|j: int|
                0 <= j < ir.blocks[i].1.items.len() ==> item_resolves(
                    ir,
                    #[trigger] ir.blocks[i].1.items[j],
                )
        }
    &&& forall|i: int|
        #![trigger ir.fieldsets[i]]
        0 <= i < ir.fieldsets.len() ==> {
            &&& opt_resolves(ir.fieldsets, ir.fieldsets[i].1.extends)
            &&& forall|j: int|
                0 <= j < ir.fieldsets[i].1.field_enums.len() ==> opt_in_names(
                    ir.enums,
                    #[trigger] ir.fieldsets[i].1.field_enums[j],
                )
        }
}

/// `after` is `before` moved into the namespace `prefix`: absent when it
/// was absent, and `<prefix>::<name>` when it was `name`.
pub open spec fn moved_into(prefix: Seq<char>, before: Option<Seq<char>>, after: Option<
    Seq<char>,
>) -> bool {
    match before {
        Some(x) => after == Some(prefix + "::"@ + x),
        None => after is None,
    }
}

/// Namespacing renames and drops nothing: every entry keeps its place, its
/// key becomes `<prefix>::<key>`, and every reference it holds (the block
/// or field set it extends, each item's register field set or nested
/// block, each field's enum) is kept, absent where it was absent and
/// `<prefix>::<name>` where it was `name`.
pub proof fn lemma_namespace_moves_every_name(ir: IrView, prefix: Seq<char>)
    ensures
        ({
            let out = namespaced(ir, prefix);
            &&& out.blocks.len() == ir.blocks.len()
            &&& forall|i: int|
                #![trigger out.blocks[i]]
                0 <= i < ir.blocks.len() ==> {
                    &&& out.blocks[i].0 == prefix + "::"@ + ir.blocks[i].0
                    &&& moved_into(prefix, ir.blocks[i].1.extends, out.blocks[i].1.extends)
                    &&& out.blocks[i].1.items.len() == ir.blocks[i].1.items.len()
                    &&& forall|j: int|
                        #![trigger out.blocks[i].1.items[j]]
                        0 <= j < ir.blocks[i].1.items.len() ==> match ir.blocks[i].1.items[j] {
                            ItemRefView::Register(o) => out.blocks[i].1.items[j] matches ItemRefView::Register(
                                o2,
                            ) && moved_into(prefix, o, o2),
                            ItemRefView::Block(x) => out.blocks[i].1.items[j] == ItemRefView::Block(
                                prefix + "::"@ + x,
                            ),
                        }
                }
            &&& out.fieldsets.len() == ir.fieldsets.len()
            &&& forall|i: int|
                #![trigger out.fieldsets[i]]
                0 <= i < ir.fieldsets.len() ==> {
                    &&& out.fieldsets[i].0 == prefix + "::"@ + ir.fieldsets[i].0
                    &&& moved_into(prefix, ir.fieldsets[i].1.extends, out.fieldsets[i].1.extends)
                    &&& out.fieldsets[i].1.field_enums.len() == ir.fieldsets[i].1.field_enums.len()
                    &&& forall|j: int|
                        #![trigger out.fieldsets[i].1.field_enums[j]]
                        0 <= j < ir.fieldsets[i].1.field_enums.len() ==> moved_into(
                            prefix,
                            ir.fieldsets[i].1.field_enums[j],
                            out.fieldsets[i].1.field_enums[j],
                        )
                }
            &&& out.enums.len() == ir.enums.len()
            &&& forall|i: int|
                #![trigger out.enums[i]]
                0 <= i < ir.enums.len() ==> out.enums[i] == prefix + "::"@ + ir.enums[i]
        }),
{
    let out = namespaced(ir, prefix);
    assert forall|i: int| #![trigger out.blocks[i]] 0 <= i < ir.blocks.len() implies {
        &&& out.blocks[i].0 == prefix + "::"@ + ir.blocks[i].0
        &&& moved_into(prefix, ir.blocks[i].1.extends, out.blocks[i].1.extends)
        &&& out.blocks[i].1.items.len() == ir.blocks[i].1.items.len()
        &&& forall|j: int|
            #![trigger out.blocks[i].1.items[j]]
            0 <= j < ir.blocks[i].1.items.len() ==> match ir.blocks[i].1.items[j] {
                ItemRefView::Register(o) => out.blocks[i].1.items[j] matches ItemRefView::Register(
                    o2,
                ) && moved_into(prefix, o, o2),
                ItemRefView::Block(x) => out.blocks[i].1.items[j] == ItemRefView::Block(
                    prefix + "::"@ + x,
                ),
            }
    } by {
        let b = ir.blocks[i].1;
        assert(out.blocks[i].1 == namespaced_block(prefix, b));
        assert forall|j: int|
            #![trigger out.blocks[i].1.items[j]]
            0 <= j < b.items.len() implies match b.items[j] {
                ItemRefView::Register(o) => out.blocks[i].1.items[j] matches ItemRefView::Register(
                    o2,
                ) && moved_into(prefix, o, o2),
                ItemRefView::Block(x) => out.blocks[i].1.items[j] == ItemRefView::Block(
                    prefix + "::"@ + x,
                ),
            } by {
            assert(out.blocks[i].1.items[j] == namespaced_item(prefix, b.items[j]));
        }
    }
    assert forall|i: int| #![trigger out.fieldsets[i]] 0 <= i < ir.fieldsets.len() implies {
        &&& out.fieldsets[i].0 == prefix + "::"@ + ir.fieldsets[i].0
        &&& moved_into(prefix, ir.fieldsets[i].1.extends, out.fieldsets[i].1.extends)
        &&& out.fieldsets[i].1.field_enums.len() == ir.fieldsets[i].1.field_enums.len()
        &&& forall|j: int|
            #![trigger out.fieldsets[i].1.field_enums[j]]
            0 <= j < ir.fieldsets[i].1.field_enums.len() ==> moved_into(
                prefix,
                ir.fieldsets[i].1.field_enums[j],
                out.fieldsets[i].1.field_enums[j],
            )
    } by {
        let f = ir.fieldsets[i].1;
        assert(out.fieldsets[i].1 == namespaced_fieldset(prefix, f));
        assert forall|j: int|
            #![trigger out.fieldsets[i].1.field_enums[j]]
            0 <= j < f.field_enums.len() implies moved_into(
                prefix,
                f.field_enums[j],
                out.fieldsets[i].1.field_enums[j],
            ) by {
            assert(out.fieldsets[i].1.field_enums[j] == prefixed_opt(prefix, f.field_enums[j]));
        }
    }
}

/// Two names in one namespace are equal only if the names are.
pub proof fn lemma_prefixed_injective(prefix: Seq<char>, a: Seq<char>, b: Seq<char>)
    ensures
        prefixed(prefix, a) == prefixed(prefix, b) ==> a == b,
{
    let head = prefix + "::"@;
    assert(prefixed(prefix, a).skip(head.len() as int) =~= a);
    assert(prefixed(prefix, b).skip(head.len() as int) =~= b);
}

/// Namespacing keeps keys distinct: an IR whose keys are distinct still has
/// distinct keys after its keys are prefixed with the file stem.
pub proof fn lemma_namespace_keeps_keys_distinct(ir: IrView, prefix: Seq<char>)
    requires
        ir_keys_distinct(ir),
    ensures
        ir_keys_distinct(namespaced(ir, prefix)),
{
    let nir = namespaced(ir, prefix);
    assert forall|i: int, j: int| 0 <= i < j < nir.blocks.len() implies nir.blocks[i].0
        != nir.blocks[j].0 by {
        lemma_prefixed_injective(prefix, ir.blocks[i].0, ir.blocks[j].0);
    }
    assert forall|i: int, j: int| 0 <= i < j < nir.fieldsets.len() implies nir.fieldsets[i].0
        != nir.fieldsets[j].0 by {
        lemma_prefixed_injective(prefix, ir.fieldsets[i].0, ir.fieldsets[j].0);
    }
    assert forall|i: int, j: int| 0 <= i < j < nir.enums.len() implies nir.enums[i]
        != nir.enums[j] by {
        lemma_prefixed_injective(prefix, ir.enums[i], ir.enums[j]);
    }
}

/// A reference that named an entry names the namespaced entry after
/// namespacing.
proof fn lemma_opt_resolves_namespaced<V, W>(
    kvs: Seq<(Seq<char>, V)>,
    nkvs: Seq<(Seq<char>, W)>,
    prefix: Seq<char>,
    o: Option<Seq<char>>,
)
    requires
        nkvs.len() == kvs.len(),
        forall|k: int| 0 <= k < kvs.len() ==> #[trigger] nkvs[k].0 == prefixed(prefix, kvs[k].0),
        opt_resolves(kvs, o),
    ensures
        opt_resolves(nkvs, prefixed_opt(prefix, o)),
{
    if let Some(n) = o {
        let k = choose|k: int| 0 <= k < kvs.len() && kvs[k].0 == n;
        assert(nkvs[k].0 == prefixed(prefix, n));
    }
}

/// Namespacing keeps references resolved: if every reference inside a
/// register file's IR names one of its own entries, then after namespacing
/// every reference still names one of its (namespaced) entries.
pub proof fn lemma_namespace_keeps_refs_resolved(ir: IrView, prefix: Seq<char>)
    requires
        refs_resolved(ir),
    ensures
        refs_resolved(namespaced(ir, prefix)),
{
    let nir = namespaced(ir, prefix);
    assert forall|i: int| 0 <= i < nir.blocks.len() implies {
        &&& opt_resolves(nir.blocks, nir.blocks[i].1.extends)
        &&& forall|j: int|
            0 <= j < nir.blocks[i].1.items.len() ==> item_resolves(
                nir,
                #[trigger] nir.blocks[i].1.items[j],
            )
    } by {
        let b = ir.blocks[i].1;
        lemma_opt_resolves_namespaced(ir.blocks, nir.blocks, prefix, b.extends);
        assert forall|j: int| 0 <= j < nir.blocks[i].1.items.len() implies item_resolves(
            nir,
            #[trigger] nir.blocks[i].1.items[j],
        ) by {
            let it = b.items[j];
            assert(item_resolves(ir, it));
            match it {
                ItemRefView::Register(fs) => {
                    lemma_opt_resolves_namespaced(ir.fieldsets, nir.fieldsets, prefix, fs);
                },
                ItemRefView::Block(bn) => {
                    lemma_opt_resolves_namespaced(
                        ir.blocks,
                        nir.blocks,
                        prefix,
                        Some(bn),
                    );
                },
            }
        }
    }
    assert forall|i: int| 0 <= i < nir.fieldsets.len() implies {
        &&& opt_resolves(nir.fieldsets, nir.fieldsets[i].1.extends)
        &&& forall|j: int|
            0 <= j < nir.fieldsets[i].1.field_enums.len() ==> opt_in_names(
                nir.enums,
                #[trigger] nir.fieldsets[i].1.field_enums[j],
            )
    } by {
        let f = ir.fieldsets[i].1;
        lemma_opt_resolves_namespaced(ir.fieldsets, nir.fieldsets, prefix, f.extends);
        assert forall|j: int| 0 <= j < nir.fieldsets[i].1.field_enums.len() implies opt_in_names(
            nir.enums,
            #[trigger] nir.fieldsets[i].1.field_enums[j],
        ) by {
            let e = f.field_enums[j];
            assert(opt_in_names(ir.enums, e));
            if let Some(n) = e {
                let k = choose|k: int| 0 <= k < ir.enums.len() && ir.enums[k] == n;
                assert(nir.enums[k] == prefixed(prefix, n));
            }
        }
    }
}

} // verus!
