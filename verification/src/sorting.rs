//! The selectable sort key for process records.

use vstd::prelude::*;
use vstd::string::StringExecFns;

verus! {

/// The closed set of keys a consumer may sort process records by.
#[derive(Clone, PartialEq, Eq, Hash, Debug, Structural)]
pub enum ProcessSorting {
    CpuPercent,
    Mem,
    MemPercent,
    Pid,
    ProcessName,
    Command,
    ReadPerSecond,
    WritePerSecond,
    TotalRead,
    TotalWrite,
    State,
    User,
    Count,
}

/// The fixed display label of each sort key.
pub open spec fn spec_label(key: ProcessSorting) -> Seq<char> {
    match key {
        ProcessSorting::CpuPercent => "CPU%"@,
        ProcessSorting::MemPercent => "Mem%"@,
        ProcessSorting::Mem => "Mem"@,
        ProcessSorting::ReadPerSecond => "R/s"@,
        ProcessSorting::WritePerSecond => "W/s"@,
        ProcessSorting::TotalRead => "T.Read"@,
        ProcessSorting::TotalWrite => "T.Write"@,
        ProcessSorting::State => "State"@,
        ProcessSorting::ProcessName => "Name"@,
        ProcessSorting::Command => "Command"@,
        ProcessSorting::Pid => "PID"@,
        ProcessSorting::Count => "Count"@,
        ProcessSorting::User => "User"@,
    }
}

impl ProcessSorting {
    /// The display label of this sort key; one exhaustive table, so that a
    /// new key forces this mapping and the comparator to change together.
    pub fn label(&self) -> (r: String)
        ensures
            r@ == spec_label(*self),
    {
        match self {
            ProcessSorting::CpuPercent => String::from_str("CPU%"),
            ProcessSorting::MemPercent => String::from_str("Mem%"),
            ProcessSorting::Mem => String::from_str("Mem"),
            ProcessSorting::ReadPerSecond => String::from_str("R/s"),
            ProcessSorting::WritePerSecond => String::from_str("W/s"),
            ProcessSorting::TotalRead => String::from_str("T.Read"),
            ProcessSorting::TotalWrite => String::from_str("T.Write"),
            ProcessSorting::State => String::from_str("State"),
            ProcessSorting::ProcessName => String::from_str("Name"),
            ProcessSorting::Command => String::from_str("Command"),
            ProcessSorting::Pid => String::from_str("PID"),
            ProcessSorting::Count => String::from_str("Count"),
            ProcessSorting::User => String::from_str("User"),
        }
    }
}

impl Default for ProcessSorting {
    /// The default sort key is CPU%.
    fn default() -> (r: Self)
        ensures
            r == ProcessSorting::CpuPercent,
    {
        ProcessSorting::CpuPercent
    }
}

} // verus!
