//! The resource monitor: one current memory sample, overwritten by the
//! sampling tick and read by the alert, report, and console ticks.

use vstd::prelude::*;
use sysinfo::SystemExt;

verus! {

/// One point-in-time measurement of host memory, in bytes.
#[derive(Clone, Copy, Debug, PartialEq, Eq, Structural)]
pub struct MemoryStats {
    pub total_bytes: u64,
    pub used_bytes: u64,
    pub free_bytes: u64,
    pub available_bytes: u64,
}

/// The alert threshold, in hundredths of a percent of used memory (95%).
pub const ALERT_THRESHOLD_BP: u32 = 9500;

/// Whether used memory strictly exceeds `threshold_bp` hundredths of a
/// percent of total memory, compared exactly and without rounding:
/// `used / total > threshold_bp / 10000` as rationals.
pub open spec fn spec_exceeds_threshold(used: u64, total: u64, threshold_bp: u32) -> bool {
    used * 10000 > threshold_bp * total
}

impl MemoryStats {
    /// Whether this sample's used percentage strictly exceeds the threshold.
    pub fn exceeds_threshold(&self, threshold_bp: u32) -> (r: bool)
        ensures
            r == spec_exceeds_threshold(self.used_bytes, self.total_bytes, threshold_bp),
    {
        let ghost th = threshold_bp as u128;
        let ghost tot = self.total_bytes as u128;
        proof {
            assert(th * tot < 0x1_0000_0000u128 * 0x1_0000_0000_0000_0000u128)
                by (nonlinear_arith)
                requires
                    th < 0x1_0000_0000u128,
                    tot < 0x1_0000_0000_0000_0000u128,
            ;
        }
        (self.used_bytes as u128) * 10000 > (threshold_bp as u128) * (self.total_bytes as u128)
    }
}

/// The alert check is exclusive at the boundary: a sample at exactly the threshold
/// percentage raises no alert; a sample a hundredth of a percent above it
/// does.
pub proof fn lemma_alert_boundary_exclusive(used: u64, total: u64, threshold_bp: u32)
    ensures
        used * 10000 == threshold_bp * total ==> !spec_exceeds_threshold(
            used,
            total,
            threshold_bp,
        ),
        total > 0 && used * 10000 == (threshold_bp + 1) * total ==> spec_exceeds_threshold(
            used,
            total,
            threshold_bp,
        ),
{
    if total > 0 && used * 10000 == (threshold_bp + 1) * total {
        assert((threshold_bp + 1) * total > threshold_bp * total) by (nonlinear_arith)
            requires
                total > 0,
        ;
    }
}

/// Relies on `sysinfo::System::new_all` and its memory getters
/// (`total_memory`, `used_memory`, `free_memory`, `available_memory`): one
/// refreshed reading of host memory, in bytes.  The values depend on the
/// machine at the instant of the call, so nothing is assumed of them; the
/// monitor's contracts hold for every outcome.
#[verifier::external_body]
fn read_host_memory() -> MemoryStats {
    let system = sysinfo::System::new_all();
    MemoryStats {
        total_bytes: system.total_memory(),
        used_bytes: system.used_memory(),
        free_bytes: system.free_memory(),
        available_bytes: system.available_memory(),
    }
}

/// The resource monitor's state: the single current sample slot, replaced
/// atomically by the sampling tick, and the configured alert threshold.
pub struct ResourceMonitor {
    pub current: MemoryStats,
    pub threshold_bp: u32,
}

impl ResourceMonitor {
    /// A monitor holding the given initial sample.
    pub fn new(initial: MemoryStats, threshold_bp: u32) -> (m: Self)
        ensures
            m.current == initial,
            m.threshold_bp == threshold_bp,
    {
        ResourceMonitor { current: initial, threshold_bp }
    }

    /// Sampling tick: overwrites the slot with `s`.  No alert or report
    /// logic runs here.
    pub fn on_sample(&mut self, s: MemoryStats)
        ensures
            final(self).current == s,
            final(self).threshold_bp == old(self).threshold_bp,
    {
        self.current = s;
    }

    /// Sampling tick against the host: reads a fresh sample and overwrites
    /// the slot with it.
    pub fn on_sample_tick(&mut self)
        ensures
            final(self).threshold_bp == old(self).threshold_bp,
    {
        let s = read_host_memory();
        self.on_sample(s);
    }

    /// Alert tick: reads the current slot (which may be up to one sampling
    /// interval stale) and returns the alert payload exactly when the used
    /// percentage strictly exceeds the threshold.  The caller sends the
    /// payload to the broadcast channel and as a direct message.
    pub fn on_alert_tick(&self) -> (r: Option<MemoryStats>)
        ensures
            spec_exceeds_threshold(
                self.current.used_bytes,
                self.current.total_bytes,
                self.threshold_bp,
            ) ==> r == Some(self.current),
            !spec_exceeds_threshold(
                self.current.used_bytes,
                self.current.total_bytes,
                self.threshold_bp,
            ) ==> r is None,
    {
        if self.current.exceeds_threshold(self.threshold_bp) {
            Some(self.current)
        } else {
            None
        }
    }

    /// Daily report tick (cron-anchored): the current slot, for the summary
    /// sent to the broadcast channel.
    pub fn on_report_tick(&self) -> (r: MemoryStats)
        ensures
            r == self.current,
    {
        self.current
    }

    /// Console report tick: the current slot, for the operator console dump.
    pub fn on_console_tick(&self) -> (r: MemoryStats)
        ensures
            r == self.current,
    {
        self.current
    }
}

} // verus!
