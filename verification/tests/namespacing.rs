use aspeed_data_gen::namespace::{
    namespace_ir, BlockItemRef, BlockRefs, FieldSetRefs, IrNames,
};

fn sample() -> IrNames {
    IrNames {
        blocks: vec![
            (
                "SSP".to_string(),
                BlockRefs {
                    extends: Some("BASE".to_string()),
                    items: vec![
                        BlockItemRef::Register { fieldset: Some("CTRL".to_string()) },
                        BlockItemRef::Register { fieldset: None },
                        BlockItemRef::Block { block: "BASE".to_string() },
                    ],
                },
            ),
            ("BASE".to_string(), BlockRefs { extends: None, items: vec![] }),
        ],
        fieldsets: vec![(
            "CTRL".to_string(),
            FieldSetRefs {
                extends: None,
                field_enums: vec![Some("Mode".to_string()), None],
            },
        )],
        enums: vec!["Mode".to_string()],
    }
}

#[test]
fn every_key_and_reference_is_prefixed() {
    let mut ir = sample();
    namespace_ir(&mut ir, "ssp_v1");
    assert_eq!(ir.blocks[0].0, "ssp_v1::SSP");
    assert_eq!(ir.blocks[0].1.extends.as_deref(), Some("ssp_v1::BASE"));
    match &ir.blocks[0].1.items[0] {
        BlockItemRef::Register { fieldset } => assert_eq!(fieldset.as_deref(), Some("ssp_v1::CTRL")),
        _ => panic!("register expected"),
    }
    match &ir.blocks[0].1.items[1] {
        BlockItemRef::Register { fieldset } => assert!(fieldset.is_none()),
        _ => panic!("register expected"),
    }
    match &ir.blocks[0].1.items[2] {
        BlockItemRef::Block { block } => assert_eq!(block, "ssp_v1::BASE"),
        _ => panic!("block expected"),
    }
    assert_eq!(ir.blocks[1].0, "ssp_v1::BASE");
    assert!(ir.blocks[1].1.extends.is_none());
    assert_eq!(ir.fieldsets[0].0, "ssp_v1::CTRL");
    assert_eq!(ir.fieldsets[0].1.field_enums[0].as_deref(), Some("ssp_v1::Mode"));
    assert!(ir.fieldsets[0].1.field_enums[1].is_none());
    assert_eq!(ir.enums, vec!["ssp_v1::Mode".to_string()]);
}

#[test]
fn namespaced_references_still_resolve() {
    let mut ir = sample();
    namespace_ir(&mut ir, "ssp_v1");
    let block_keys: Vec<&String> = ir.blocks.iter().map(|(k, _)| k).collect();
    let fs_keys: Vec<&String> = ir.fieldsets.iter().map(|(k, _)| k).collect();
    for (_, b) in &ir.blocks {
        if let Some(e) = &b.extends {
            assert!(block_keys.contains(&e));
        }
        for it in &b.items {
            match it {
                BlockItemRef::Register { fieldset: Some(f) } => assert!(fs_keys.contains(&f)),
                BlockItemRef::Register { fieldset: None } => {}
                BlockItemRef::Block { block } => assert!(block_keys.contains(&block)),
            }
        }
    }
    for (_, f) in &ir.fieldsets {
        for e in f.field_enums.iter().flatten() {
            assert!(ir.enums.contains(e));
        }
    }
}

#[test]
fn namespacing_keeps_keys_distinct() {
    let mut ir = IrNames {
        blocks: vec![],
        fieldsets: vec![],
        enums: vec!["A".to_string(), "B".to_string(), "A::B".to_string()],
    };
    namespace_ir(&mut ir, "x");
    assert_eq!(ir.enums, vec!["x::A", "x::B", "x::A::B"]);
}

#[test]
fn empty_prefix_still_adds_separator() {
    let mut ir = IrNames { blocks: vec![], fieldsets: vec![], enums: vec!["E".to_string()] };
    namespace_ir(&mut ir, "");
    assert_eq!(ir.enums, vec!["::E"]);
}
