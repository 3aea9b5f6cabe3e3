use aspeed_data_gen::chip::{default_arch, ChipDef, InterruptDef, PeripheralDef};
use aspeed_data_gen::names::{
    c_header_file_name, chip_name_to_feature, feature_to_module, pac_module_file_name,
};
use aspeed_data_gen::plan::{
    block_file_stem, chip_backend, device_plan, is_chip_definition_file, needs_write,
    register_file_name, register_file_stems, rust_arch_for, Backend, PacArch,
};

fn peripheral(name: &str, block: Option<&str>, address: u64) -> PeripheralDef {
    PeripheralDef {
        name: name.to_string(),
        description: None,
        block: block.map(|b| b.to_string()),
        address,
    }
}

#[test]
fn default_arch_is_cortex_m() {
    assert_eq!(default_arch(), "cortex-m");
}

#[test]
fn feature_table_of_named_chips() {
    assert_eq!(chip_name_to_feature("AST2600"), "ast2600");
    assert_eq!(chip_name_to_feature("AST2700_SSP"), "ast2700-ssp");
    assert_eq!(chip_name_to_feature("AST2700_TSP"), "ast2700-tsp");
}

#[test]
fn feature_of_other_chips_is_lowercase_with_hyphens() {
    assert_eq!(chip_name_to_feature("AST1060"), "ast1060");
    assert_eq!(chip_name_to_feature("AST2700_BOOTMCU"), "ast2700-bootmcu");
    assert_eq!(chip_name_to_feature("Foo_Bar_Baz"), "foo-bar-baz");
    assert_eq!(chip_name_to_feature(""), "");
}

#[test]
fn module_names_replace_hyphens() {
    assert_eq!(feature_to_module("ast2700-ssp"), "ast2700_ssp");
    assert_eq!(feature_to_module("ast2600"), "ast2600");
    assert_eq!(feature_to_module("a-b-c"), "a_b_c");
}

#[test]
fn output_file_names() {
    assert_eq!(pac_module_file_name("AST2700_TSP"), "ast2700_tsp.rs");
    assert_eq!(pac_module_file_name("AST2700_BOOTMCU"), "ast2700_bootmcu.rs");
    assert_eq!(pac_module_file_name("AST2600"), "ast2600.rs");
    assert_eq!(c_header_file_name("AST2500"), "ast2500.h");
    assert_eq!(c_header_file_name("AST2400_CF"), "ast2400_cf.h");
}

#[test]
fn backends_and_arches() {
    assert_eq!(chip_backend("coldfire"), Backend::CHeader);
    assert_eq!(chip_backend("cortex-m"), Backend::RustPac);
    assert_eq!(chip_backend("riscv"), Backend::RustPac);
    assert_eq!(chip_backend("ColdFire"), Backend::RustPac);
    assert_eq!(rust_arch_for("riscv"), PacArch::RiscV);
    assert_eq!(rust_arch_for("cortex-m"), PacArch::CortexM);
    assert_eq!(rust_arch_for("anything"), PacArch::CortexM);
}

#[test]
fn default_arch_gives_cortex_m_pac() {
    let arch = default_arch();
    assert_eq!(chip_backend(&arch), Backend::RustPac);
    assert_eq!(rust_arch_for(&arch), PacArch::CortexM);
}

#[test]
fn chip_definition_files() {
    assert!(is_chip_definition_file("ast2600.yaml"));
    assert!(is_chip_definition_file("a.b.yaml"));
    assert!(is_chip_definition_file("..yaml"));
    assert!(!is_chip_definition_file(".yaml"));
    assert!(!is_chip_definition_file("ast2600.yml"));
    assert!(!is_chip_definition_file("ast2600.YAML"));
    assert!(!is_chip_definition_file("yaml"));
    assert!(!is_chip_definition_file("ast2600.yaml.bak"));
}

#[test]
fn chip_definition_files_agree_with_path_extension() {
    for name in ["a.yaml", ".yaml", "..yaml", "x.yml", "yaml", "b.c.yaml", "d.yaml.txt", ".a.yaml"] {
        let by_path = std::path::Path::new(name).extension().and_then(|x| x.to_str()) == Some("yaml");
        assert_eq!(is_chip_definition_file(name), by_path, "{}", name);
    }
}

#[test]
fn write_only_when_content_changes() {
    assert!(!needs_write(&Some("abc".to_string()), "abc"));
    assert!(needs_write(&Some("abc".to_string()), "abd"));
    assert!(needs_write(&Some(String::new()), "x"));
    assert!(needs_write(&None, ""));
    assert!(needs_write(&None, "abc"));
}

#[test]
fn block_file_stems() {
    assert_eq!(block_file_stem("ssp_v1::SSP").as_deref(), Some("ssp_v1"));
    assert_eq!(block_file_stem("a:::b").as_deref(), Some("a"));
    assert_eq!(block_file_stem("::X").as_deref(), Some(""));
    assert_eq!(block_file_stem("a:b::c::d").as_deref(), Some("a:b"));
    assert_eq!(block_file_stem("ssp_v1"), None);
    assert_eq!(block_file_stem("a:b"), None);
    assert_eq!(block_file_stem(""), None);
}

#[test]
fn register_files_are_loaded_once_in_order() {
    let ps = vec![
        peripheral("SSP", Some("ssp_v1::SSP"), 0x7e6e2a00),
        peripheral("UART0", Some("uart_v1::UART"), 0x1000),
        peripheral("NONE", None, 0x2000),
        peripheral("IPC", Some("ssp_v1::IPC"), 0x3000),
        peripheral("UART1", Some("uart_v1::UART"), 0x4000),
        peripheral("SCU", Some("scu::SCU"), 0x5000),
    ];
    assert_eq!(register_file_stems(&ps), Ok(vec!["ssp_v1".to_string(), "uart_v1".to_string(), "scu".to_string()]));
    assert_eq!(register_file_stems(&Vec::new()), Ok(Vec::<String>::new()));
    assert_eq!(register_file_name("ssp_v1"), "ssp_v1.yaml");
}

#[test]
fn block_reference_without_separator_is_an_error() {
    let ps = vec![
        peripheral("SSP", Some("ssp_v1::SSP"), 0x1),
        peripheral("BAD", Some("uart_v1"), 0x2),
        peripheral("WORSE", Some("scu"), 0x3),
    ];
    assert_eq!(register_file_stems(&ps), Err("uart_v1".to_string()));
}

#[test]
fn device_plan_keeps_peripherals_with_blocks() {
    let chip = ChipDef {
        name: "AST2600".to_string(),
        family: "ast26xx".to_string(),
        core: "cortex-m3".to_string(),
        target: "thumbv7m-none-eabi".to_string(),
        arch: default_arch(),
        nvic_priority_bits: Some(3),
        num_irqs: 240,
        peripherals: vec![
            PeripheralDef {
                name: "SSP".to_string(),
                description: Some("Secondary service processor".to_string()),
                block: Some("ssp_v1::SSP".to_string()),
                address: 0x7e6e2a00,
            },
            peripheral("GHOST", None, 0x1),
            peripheral("UART", Some("uart_v1::UART"), 0x7e78_4000),
        ],
        interrupts: vec![
            InterruptDef { name: "SDRAM".to_string(), number: 0, description: None },
            InterruptDef {
                name: "UART".to_string(),
                number: 47,
                description: Some("uart".to_string()),
            },
        ],
    };
    let d = device_plan(&chip);
    assert_eq!(d.nvic_priority_bits, Some(3));
    assert_eq!(d.peripherals.len(), 2);
    assert_eq!(d.peripherals[0].name, "SSP");
    assert_eq!(d.peripherals[0].description.as_deref(), Some("Secondary service processor"));
    assert_eq!(d.peripherals[0].base_address, 0x7e6e2a00);
    assert_eq!(d.peripherals[0].block, "ssp_v1::SSP");
    assert_eq!(d.peripherals[1].name, "UART");
    assert_eq!(d.peripherals[1].block, "uart_v1::UART");
    assert_eq!(d.peripherals[1].base_address, 0x7e78_4000);
    assert_eq!(d.interrupts.len(), 2);
    assert_eq!(d.interrupts[0].name, "SDRAM");
    assert_eq!(d.interrupts[0].value, 0);
    assert_eq!(d.interrupts[1].value, 47);
    assert_eq!(d.interrupts[1].description.as_deref(), Some("uart"));
}
