//! The local APIC: register offsets and the values the kernel computes for its registers.
use vstd::prelude::*;

verus! {

pub const PIC1: u16 = 0x20;
pub const PIC2: u16 = 0xA0;
pub const PIC1_COMMAND: u16 = 0x20;
pub const PIC1_DATA: u16 = 0x21;
pub const PIC2_COMMAND: u16 = 0xA0;
pub const PIC2_DATA: u16 = 0xA1;

/// The model-specific register that holds the APIC base and its enable bit.
pub const IA32_APIC_BASE_MSR: u32 = 0x1B;

/// Where the local APIC is (identity mapped).
pub const LAPIC_PHYSICAL_ADDRESS_DEFAULT: usize = 0xFEE0_0000;
/// The enable bit of the APIC base register.
pub const LAPIC_ENABLE_BIT: u64 = 0x800;
pub const LAPIC_EOI_REG_OFFSET: usize = 0xB0;
pub const LAPIC_SIVR_REG_OFFSET: usize = 0xF0;
pub const LAPIC_ID_REG_OFFSET: usize = 0x20;
pub const LAPIC_DIVIDE_CONFIG_REG_OFFSET: usize = 0x3E0;
pub const LAPIC_INITIAL_COUNT_REG_OFFSET: usize = 0x380;
pub const LAPIC_CURRENT_COUNT_REG_OFFSET: usize = 0x390;
pub const LAPIC_LVT_TIMER_REG_OFFSET: usize = 0x320;

/// The spurious-interrupt vector register value: APIC software enable (bit 8) and vector
/// 0xFF.
pub const LAPIC_SIVR_VALUE: u32 = 0x1FF;

/// The timer mode bits of the LVT timer register: one-shot.
pub const LVT_TIMER_ONESHOT: u32 = 0;
/// The timer mode bits of the LVT timer register: periodic (bit 17).
pub const LVT_TIMER_PERIODIC: u32 = 0x2_0000;

/// The divider of the APIC timer's clock.
#[derive(Debug, Clone, Copy, PartialEq, Eq, Structural)]
pub enum DivideConfig {
    DivideBy2,
    DivideBy4,
    DivideBy8,
    DivideBy16,
    DivideBy32,
    DivideBy64,
    DivideBy128,
    DivideBy1,
}

/// The divide configuration register value of each divider.
pub open spec fn divide_bits(d: DivideConfig) -> u32 {
    match d {
        DivideConfig::DivideBy2 => 0b000,
        DivideConfig::DivideBy4 => 0b001,
        DivideConfig::DivideBy8 => 0b010,
        DivideConfig::DivideBy16 => 0b011,
        DivideConfig::DivideBy32 => 0b100,
        DivideConfig::DivideBy64 => 0b101,
        DivideConfig::DivideBy128 => 0b110,
        DivideConfig::DivideBy1 => 0b111,
    }
}

/// What each divider divides by.
pub open spec fn divisor(d: DivideConfig) -> u64 {
    match d {
        DivideConfig::DivideBy1 => 1,
        DivideConfig::DivideBy2 => 2,
        DivideConfig::DivideBy4 => 4,
        DivideConfig::DivideBy8 => 8,
        DivideConfig::DivideBy16 => 16,
        DivideConfig::DivideBy32 => 32,
        DivideConfig::DivideBy64 => 64,
        DivideConfig::DivideBy128 => 128,
    }
}

impl DivideConfig {
    /// The dividers with what they divide by, from the smallest to the largest.
    pub fn ascending() -> (r: [(u64, DivideConfig); 8])
        ensures
            forall|i: int| 0 <= i < 8 ==> r@[i].0 == divisor(r@[i].1),
            forall|i: int, j: int| 0 <= i < j < 8 ==> r@[i].0 < r@[j].0,
    {
        [
            (1, DivideConfig::DivideBy1),
            (2, DivideConfig::DivideBy2),
            (4, DivideConfig::DivideBy4),
            (8, DivideConfig::DivideBy8),
            (16, DivideConfig::DivideBy16),
            (32, DivideConfig::DivideBy32),
            (64, DivideConfig::DivideBy64),
            (128, DivideConfig::DivideBy128),
        ]
    }

    /// The divide configuration register value.
    pub fn bits(self) -> (r: u32)
        ensures
            r == divide_bits(self),
    {
        match self {
            DivideConfig::DivideBy2 => 0b000,
            DivideConfig::DivideBy4 => 0b001,
            DivideConfig::DivideBy8 => 0b010,
            DivideConfig::DivideBy16 => 0b011,
            DivideConfig::DivideBy32 => 0b100,
            DivideConfig::DivideBy64 => 0b101,
            DivideConfig::DivideBy128 => 0b110,
            DivideConfig::DivideBy1 => 0b111,
        }
    }
}

/// The APIC id in the ID register value `reg` (its top byte).
pub fn get_id(reg: u32) -> (r: u8)
    ensures
        r == reg / 0x100_0000,
{
    proof {
        assert((reg >> 24u32) as u8 == reg / 0x100_0000) by (bit_vector);
    }
    (reg >> 24u32) as u8
}

/// The LVT timer register value for timer mode bits `mode` and interrupt `vector`.
pub fn lvt_timer_value(mode: u32, vector: u32) -> (r: u32)
    ensures
        r == mode | vector,
{
    mode | vector
}

/// The APIC base register value that enables the APIC, when `msr` has it disabled.
pub fn apic_base_enabling(msr: u64) -> (r: Option<u64>)
    ensures
        msr & LAPIC_ENABLE_BIT != 0 ==> r is None,
        msr & LAPIC_ENABLE_BIT == 0 ==> r == Some(msr | LAPIC_ENABLE_BIT),
{
    if msr & LAPIC_ENABLE_BIT == 0 {
        Some(msr | LAPIC_ENABLE_BIT)
    } else {
        None
    }
}

/// The length of the calibration wait, in milliseconds.
pub const CALIBRATION_MILLIS: u32 = 10;

/// The timer frequency in Hz that a calibration measures when the current-count register
/// went from `before` to `after` during the calibration wait.
pub fn calibrate_lapic_timer(before: u32, after: u32) -> (r: u32)
    requires
        after <= before,
        (before - after) * 1000 <= u32::MAX,
    ensures
        r == (before - after) * 1000 / CALIBRATION_MILLIS as int,
{
    let apic_ticks = before - after;
    (apic_ticks * 1000) / CALIBRATION_MILLIS
}

} // verus!
