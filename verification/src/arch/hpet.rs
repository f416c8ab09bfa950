//! The arithmetic of the high precision event timer: its tick period, the ticks a wait
//! takes and the time since boot.
use vstd::prelude::*;

verus! {

/// The offset of the capabilities register.
pub const HPET_CAPABILITES: usize = 0x00;
/// The offset of the configuration register.
pub const HPET_CONFIG: usize = 0x10;
/// The offset of the main counter.
pub const HPET_COUNTER: usize = 0xF0;

/// Femtoseconds per nanosecond.
pub const FEMTOS_PER_NANO: u128 = 1_000_000;

/// A high precision event timer mapped at `base_address`.
pub struct Hpet {
    pub base_address: usize,
    /// The length of one tick, in femtoseconds.
    pub time_period: usize,
}

impl Hpet {
    /// The timer at `base_addr` whose capabilities register reads `capabilities`: its tick
    /// period is the register's upper 32 bits.
    pub fn new(base_addr: usize, capabilities: u64) -> (r: Hpet)
        ensures
            r.base_address == base_addr,
            r.time_period == capabilities / 0x1_0000_0000,
    {
        let period = capabilities >> 32u64;
        proof {
            assert(capabilities >> 32u64 == capabilities / 0x1_0000_0000) by (bit_vector);
            assert(period < 0x1_0000_0000);
        }
        Hpet { base_address: base_addr, time_period: period as usize }
    }

    /// The configuration register `config` with the enable bit (bit 0) set.
    pub fn enabled_config(config: usize) -> (r: usize)
        ensures
            r == config | 1,
    {
        config | 1
    }

    /// The address of the register at `offset`.
    pub fn register_address(&self, offset: usize) -> (r: usize)
        requires
            self.base_address + offset <= usize::MAX,
        ensures
            r == self.base_address + offset,
    {
        self.base_address + offset
    }

    /// The number of ticks in `nanos` nanoseconds.
    pub fn busy_wait_ticks(&self, nanos: u128) -> (r: u128)
        requires
            self.time_period > 0,
            nanos * FEMTOS_PER_NANO <= u128::MAX,
        ensures
            r == nanos * FEMTOS_PER_NANO / self.time_period as int,
    {
        nanos * FEMTOS_PER_NANO / self.time_period as u128
    }

    /// A wait of `ticks` ticks that started when the counter read `start` is over now that
    /// it reads `now`.
    pub fn busy_wait_done(start: usize, now: usize, ticks: u128) -> (r: bool)
        requires
            now >= start,
        ensures
            r == (now - start >= ticks),
    {
        !((now as u128 - start as u128) < ticks)
    }

    /// The nanoseconds since boot when the counter reads `counter`, truncated to 64 bits.
    pub fn uptime_nanos(&self, counter: usize) -> (r: u64)
        ensures
            r == ((counter as int * self.time_period as int) / FEMTOS_PER_NANO as int) as u64,
    {
        proof {
            assert(counter as int * self.time_period as int <= u128::MAX) by (nonlinear_arith)
                requires
                    counter <= usize::MAX,
                    self.time_period <= usize::MAX,
                    usize::MAX <= u64::MAX,
            ;
        }
        ((counter as u128 * self.time_period as u128) / FEMTOS_PER_NANO) as u64
    }
}

} // verus!
