//! The canonical cross-platform process record and its inputs.

use vstd::prelude::*;

verus! {

/// One observation of a live process, as the platform enumerator reports it
/// for the current instant: identity, naming, and raw cumulative counters.
/// All counters are cumulative since the process started; none of them is a
/// rate.
#[derive(Clone, Debug)]
pub struct ProcessObservation {
    /// The pid of the process.
    pub pid: i32,
    /// The parent pid, or `None` for a root process. Whether a parent slot
    /// of 0 means "no parent" differs per platform; the enumerator decides.
    pub parent_pid: Option<i32>,
    /// The name of the process; empty when unreadable.
    pub name: String,
    /// The exact command for the process; empty when unreadable.
    pub command: String,
    /// Resident memory, in bytes.
    pub mem_usage_bytes: u64,
    /// Cumulative CPU time, in milliseconds.
    pub cpu_time_millis: u64,
    /// Cumulative bytes read.
    pub total_read_bytes: u64,
    /// Cumulative bytes written.
    pub total_write_bytes: u64,
    /// The current state of the process as a human label (e.g. "Zombie").
    pub process_state: String,
    /// The state as a single-character code (e.g. 'Z'). Kept separate from
    /// the label: consumers may depend on either independently.
    pub process_state_char: char,
    /// The effective user id, on platforms that report one.
    pub uid: Option<u32>,
}

/// System-wide totals the delta engine normalizes against.
#[derive(Clone, Copy, PartialEq, Eq, Debug, Structural)]
pub struct SystemTotals {
    /// Number of logical cores; at least 1 on any machine that runs this.
    pub logical_cores: u64,
    /// Physical memory, in bytes; at least 1 on any machine that runs this.
    pub total_memory_bytes: u64,
    /// Whether the platform's cumulative CPU counter sums over all cores,
    /// so that the CPU percentage must be divided by the core count.
    pub cpu_counter_is_per_core_cumulative: bool,
}

impl SystemTotals {
    /// Totals a delta engine can divide by.
    pub open spec fn valid(self) -> bool {
        self.logical_cores >= 1 && self.total_memory_bytes >= 1
    }

    /// What the CPU percentage is divided by on this platform.
    pub open spec fn spec_cpu_divisor(self) -> u64 {
        if self.cpu_counter_is_per_core_cumulative {
            self.logical_cores
        } else {
            1u64
        }
    }

    /// Executable twin of [`Self::spec_cpu_divisor`].
    pub fn cpu_divisor(&self) -> (r: u64)
        ensures
            r == self.spec_cpu_divisor(),
    {
        if self.cpu_counter_is_per_core_cumulative {
            self.logical_cores
        } else {
            1
        }
    }
}

/// The canonical per-process output record of one harvesting cycle: a fresh
/// value each cycle, never mutated across cycles. Percentages are carried in
/// hundredths of a percent (100 units = 1%), so that 5025 means 50.25%.
#[derive(Clone, Debug)]
pub struct ProcessHarvest {
    /// The pid of the process.
    pub pid: i32,
    /// The parent pid of the process, or `None` for a root.
    pub parent_pid: Option<i32>,
    /// CPU usage, in hundredths of a percent. May exceed 10000 (100%) where
    /// the platform accumulates over several cores.
    pub cpu_usage_centi_percent: u64,
    /// Memory usage as a share of total memory, in hundredths of a percent,
    /// clamped to at most 10000 (100%).
    pub mem_usage_centi_percent: u64,
    /// Memory usage, in bytes.
    pub mem_usage_bytes: u64,
    /// The name of the process.
    pub name: String,
    /// The exact command for the process.
    pub command: String,
    /// Bytes read per second.
    pub read_bytes_per_sec: u64,
    /// Bytes written per second.
    pub write_bytes_per_sec: u64,
    /// The total number of bytes read by the process.
    pub total_read_bytes: u64,
    /// The total number of bytes written by the process.
    pub total_write_bytes: u64,
    /// The current state of the process (e.g. zombie, asleep).
    pub process_state: String,
    /// The process state represented by a character.
    pub process_state_char: char,
    /// The effective user id of the process, on platforms that report one.
    pub uid: Option<u32>,
}

} // verus!
