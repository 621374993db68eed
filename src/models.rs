//! The values that the sampler and the process catalog hand out.

use vstd::prelude::*;
use crate::delta::Ratio;

verus! {

/// One value of a metric series and the time it was taken, in milliseconds.
#[derive(Debug, Clone, Copy, PartialEq, Eq, Structural)]
pub struct MetricPoint {
    pub ts_ms: i64,
    pub value: Ratio,
}

/// One sampling tick: the instantaneous values and a copy of each history.
/// `cpu_busy` and the RAM history hold shares of one; the four rates hold
/// bytes per millisecond.
pub struct MetricsSnapshot {
    pub cpu_busy: Ratio,
    pub ram_used_bytes: u64,
    pub ram_total_bytes: u64,
    pub swap_used_bytes: u64,
    pub swap_total_bytes: u64,
    pub disk_read_rate: Ratio,
    pub disk_write_rate: Ratio,
    pub net_rx_rate: Ratio,
    pub net_tx_rate: Ratio,
    pub cpu_history: Vec<MetricPoint>,
    pub ram_history: Vec<MetricPoint>,
    pub disk_read_history: Vec<MetricPoint>,
    pub disk_write_history: Vec<MetricPoint>,
    pub net_rx_history: Vec<MetricPoint>,
    pub net_tx_history: Vec<MetricPoint>,
}

/// One process: its CPU time over the system's uptime, and its resident
/// memory over all memory, each as a share of one.
pub struct ProcessRow {
    pub pid: i32,
    pub user: String,
    pub command: String,
    pub cpu_share: Ratio,
    pub mem_share: Ratio,
}

impl ProcessRow {
    /// A copy of the row.
    pub fn duplicate(&self) -> (r: ProcessRow)
        ensures
            r == *self,
    {
        ProcessRow {
            pid: self.pid,
            user: self.user.clone(),
            command: self.command.clone(),
            cpu_share: self.cpu_share,
            mem_share: self.mem_share,
        }
    }
}

} // verus!
