//! The chip definition read from `data/chips/<chip>.yaml`.
use vstd::prelude::*;

verus! {

/// Top-level chip definition.
#[derive(Debug)]
///
/// `family`, `core`, `target` and `num_irqs` describe the chip and are not
/// read by the generators.
pub struct ChipDef {
    pub name: String,
    pub family: String,
    pub core: String,
    pub target: String,
    /// CPU architecture string; selects the code-generator backend.
    /// `"cortex-m"` (the default), `"riscv"` or `"coldfire"`.
    pub arch: String,
    /// NVIC priority bits; absent for RISC-V chips.
    pub nvic_priority_bits: Option<u8>,
    pub num_irqs: u32,
    pub peripherals: Vec<PeripheralDef>,
    pub interrupts: Vec<InterruptDef>,
}

/// A peripheral instance on the chip.
#[derive(Debug)]
pub struct PeripheralDef {
    /// Identifier used in the generated PAC (e.g. `SSP`, `IPC`, `UART11`).
    pub name: String,
    /// Optional doc string.
    pub description: Option<String>,
    /// Register block reference of the form `"<file_stem>::<BlockName>"`; the
    /// file stem names the register YAML file under `data/registers/`.
    pub block: Option<String>,
    /// Base address in the CPU's address space.
    pub address: u64,
}

/// An interrupt line.
#[derive(Debug)]
pub struct InterruptDef {
    /// Identifier used in the interrupt enum.
    pub name: String,
    /// IRQ number, counted from the first peripheral exception.
    pub number: u32,
    /// Optional description, emitted as a doc comment.
    pub description: Option<String>,
}

/// The architecture of a chip whose definition names none.
pub fn default_arch() -> (arch: String)
    ensures
        arch@ == "cortex-m"@,
{
    String::from_str("cortex-m")
}

} // verus!
