//! Metric records produced by the collectors.

use vstd::prelude::*;
use crate::common::ProcessMetrics;

verus! {

/// Counters of one process, as read from the kernel-side metrics map.
#[derive(Clone, Copy, Debug)]
pub struct ProcessMetricsSnapshot {
    pub pid: u32,
    pub metrics: ProcessMetrics,
}

/// One sample of the system-wide metrics.
#[derive(Clone, Debug)]
pub struct GlobalMetrics {
    pub memory: MemoryMetrics,
    pub cpu: CpuMetrics,
}

/// Memory figures from `/proc/meminfo`, in bytes.
#[derive(Clone, Copy, Debug)]
pub struct MemoryMetrics {
    /// Total physical RAM (`MemTotal`).
    pub total: u64,
    /// Unused RAM (`MemFree`).
    pub free: u64,
    /// RAM usable for new applications without swapping (`MemAvailable`).
    pub available: u64,
    /// RAM in use: `total - available`, or 0 when `available` exceeds `total`.
    pub used: u64,
    /// Raw disk block cache (`Buffers`).
    pub buffers: u64,
    /// Regular file page cache (`Cached`).
    pub cached: u64,
    /// Total swap space (`SwapTotal`).
    pub swap_total: u64,
    /// Unused swap space (`SwapFree`).
    pub swap_free: u64,
    /// Kernel data structure cache (`Slab`).
    pub slab: u64,
}

/// Time counters of one `cpu` line of `/proc/stat`, in clock ticks.
#[derive(Clone, Copy, Debug)]
pub struct CpuCounters {
    /// Normal processes in user mode.
    pub user: u64,
    /// Niced processes in user mode.
    pub nice: u64,
    /// Kernel mode.
    pub system: u64,
    /// Idle.
    pub idle: u64,
    /// Waiting for I/O to complete.
    pub iowait: u64,
    /// Servicing hardware interrupts.
    pub irq: u64,
    /// Servicing software interrupts.
    pub softirq: u64,
    /// Stolen by the hypervisor.
    pub steal: u64,
    /// Running a virtual CPU for a guest.
    pub guest: u64,
    /// Running a niced guest.
    pub guest_nice: u64,
}

/// CPU figures from `/proc/stat`.
#[derive(Clone, Debug)]
pub struct CpuMetrics {
    /// The aggregate `cpu` line.
    pub cpu_total: CpuCounters,
    /// The `cpuN` lines, in the order they appear.
    pub cpu_cores: Vec<CpuCounters>,
    pub num_procs_running: u64,
    pub num_procs_blocked: u64,
}

/// Errors of a metrics sample.
#[derive(Clone, Copy, Debug, PartialEq, Eq)]
pub enum MetricsError {
    /// The file read is not valid UTF-8.
    InvalidUtf8,
    /// A `/proc/meminfo` value in kB does not fit in a `u64` once converted to bytes.
    ValueOverflow,
}

/// Memory figures that are all zero.
pub open spec fn zero_memory_metrics() -> MemoryMetrics {
    MemoryMetrics {
        total: 0,
        free: 0,
        available: 0,
        used: 0,
        buffers: 0,
        cached: 0,
        swap_total: 0,
        swap_free: 0,
        slab: 0,
    }
}

/// CPU counters that are all zero.
pub open spec fn zero_cpu_counters() -> CpuCounters {
    CpuCounters {
        user: 0,
        nice: 0,
        system: 0,
        idle: 0,
        iowait: 0,
        irq: 0,
        softirq: 0,
        steal: 0,
        guest: 0,
        guest_nice: 0,
    }
}

impl Default for MemoryMetrics {
    fn default() -> (res: Self)
        ensures
            res == zero_memory_metrics(),
    {
        MemoryMetrics {
            total: 0,
            free: 0,
            available: 0,
            used: 0,
            buffers: 0,
            cached: 0,
            swap_total: 0,
            swap_free: 0,
            slab: 0,
        }
    }
}

impl Default for CpuCounters {
    fn default() -> (res: Self)
        ensures
            res == zero_cpu_counters(),
    {
        CpuCounters {
            user: 0,
            nice: 0,
            system: 0,
            idle: 0,
            iowait: 0,
            irq: 0,
            softirq: 0,
            steal: 0,
            guest: 0,
            guest_nice: 0,
        }
    }
}

impl Default for CpuMetrics {
    fn default() -> (res: Self)
        ensures
            res.cpu_total == zero_cpu_counters(),
            res.cpu_cores@ == Seq::<CpuCounters>::empty(),
            res.num_procs_running == 0,
            res.num_procs_blocked == 0,
    {
        CpuMetrics {
            cpu_total: CpuCounters::default(),
            cpu_cores: Vec::new(),
            num_procs_running: 0,
            num_procs_blocked: 0,
        }
    }
}

impl Default for GlobalMetrics {
    fn default() -> (res: Self)
        ensures
            res.memory == zero_memory_metrics(),
            res.cpu.cpu_total == zero_cpu_counters(),
            res.cpu.cpu_cores@ == Seq::<CpuCounters>::empty(),
            res.cpu.num_procs_running == 0,
            res.cpu.num_procs_blocked == 0,
    {
        GlobalMetrics { memory: MemoryMetrics::default(), cpu: CpuMetrics::default() }
    }
}

} // verus!
