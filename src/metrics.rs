//! Normalized metric shapes shared by hosts, containers and processes.
//!
//! Percentages are held in basis points, hundredths of a percent: 10_000 is 100%.
use vstd::prelude::*;

verus! {

/// `x`, or `u64::MAX` where `x` is larger.
pub open spec fn clamp(x: int) -> u64 {
    if x > u64::MAX {
        u64::MAX
    } else {
        x as u64
    }
}

/// `num / den` in basis points, rounded down; 0 when `den` is 0.
pub open spec fn basis_points(num: int, den: int) -> int {
    if den == 0 {
        0
    } else {
        num * 10000 / den
    }
}

/// `num / den` in basis points, rounded down and saturated; 0 when `den` is 0.
pub fn ratio_bp(num: u128, den: u128) -> (r: u64)
    requires
        num <= u64::MAX * 8,
    ensures
        r == clamp(basis_points(num as int, den as int)),
{
    if den == 0 {
        return 0;
    }
    let q = num * 10000 / den;
    if q > u64::MAX as u128 {
        u64::MAX
    } else {
        q as u64
    }
}

/// CPU usage of a host or a container, in basis points.
#[derive(Debug, Clone, Copy, PartialEq, Eq)]
pub struct CpuMetrics {
    pub usage_bp: u64,
    pub user_bp: u64,
    pub system_bp: u64,
    /// Reported by hosts only.
    pub iowait_bp: Option<u64>,
}

impl CpuMetrics {
    pub fn new(usage_bp: u64, user_bp: u64, system_bp: u64) -> (r: CpuMetrics)
        ensures
            r == (CpuMetrics { usage_bp, user_bp, system_bp, iowait_bp: None }),
    {
        CpuMetrics { usage_bp, user_bp, system_bp, iowait_bp: None }
    }

    pub fn with_iowait(self, iowait_bp: u64) -> (r: CpuMetrics)
        ensures
            r == (CpuMetrics { iowait_bp: Some(iowait_bp), ..self }),
    {
        CpuMetrics { iowait_bp: Some(iowait_bp), ..self }
    }
}

/// Memory of a host or a container, in bytes.
#[derive(Debug, Clone, Copy, PartialEq, Eq)]
pub struct MemoryMetrics {
    pub used_bytes: u64,
    pub total_bytes: u64,
    pub available_bytes: u64,
    /// Reported by hosts only.
    pub cached_bytes: Option<u64>,
    /// Reported by hosts only.
    pub swap_used_bytes: Option<u64>,
}

impl MemoryMetrics {
    pub fn new(used_bytes: u64, total_bytes: u64, available_bytes: u64) -> (r: MemoryMetrics)
        ensures
            r == (MemoryMetrics {
                used_bytes,
                total_bytes,
                available_bytes,
                cached_bytes: None,
                swap_used_bytes: None,
            }),
    {
        MemoryMetrics {
            used_bytes,
            total_bytes,
            available_bytes,
            cached_bytes: None,
            swap_used_bytes: None,
        }
    }

    pub fn with_cache(self, cached_bytes: u64) -> (r: MemoryMetrics)
        ensures
            r == (MemoryMetrics { cached_bytes: Some(cached_bytes), ..self }),
    {
        MemoryMetrics { cached_bytes: Some(cached_bytes), ..self }
    }

    pub fn with_swap(self, swap_used_bytes: u64) -> (r: MemoryMetrics)
        ensures
            r == (MemoryMetrics { swap_used_bytes: Some(swap_used_bytes), ..self }),
    {
        MemoryMetrics { swap_used_bytes: Some(swap_used_bytes), ..self }
    }

    /// Used over total in basis points; 0 when the total is 0.
    pub fn usage_bp(&self) -> (r: u64)
        ensures
            r == clamp(basis_points(self.used_bytes as int, self.total_bytes as int)),
    {
        ratio_bp(self.used_bytes as u128, self.total_bytes as u128)
    }
}

/// Read and written bytes of block devices.
#[derive(Debug, Clone, Copy, PartialEq, Eq)]
pub struct IoMetrics {
    pub read_bytes: u64,
    pub write_bytes: u64,
}

impl IoMetrics {
    pub fn new(read_bytes: u64, write_bytes: u64) -> (r: IoMetrics)
        ensures
            r == (IoMetrics { read_bytes, write_bytes }),
    {
        IoMetrics { read_bytes, write_bytes }
    }

    pub fn zero() -> (r: IoMetrics)
        ensures
            r == (IoMetrics { read_bytes: 0, write_bytes: 0 }),
    {
        IoMetrics { read_bytes: 0, write_bytes: 0 }
    }
}

/// Byte and error counters of a network interface or a container.
#[derive(Debug, Clone, Copy, PartialEq, Eq)]
pub struct NetworkMetrics {
    pub rx_bytes: u64,
    pub tx_bytes: u64,
    pub rx_errors: u64,
    pub tx_errors: u64,
}

impl NetworkMetrics {
    pub fn new(rx_bytes: u64, tx_bytes: u64, rx_errors: u64, tx_errors: u64) -> (r:
        NetworkMetrics)
        ensures
            r == (NetworkMetrics { rx_bytes, tx_bytes, rx_errors, tx_errors }),
    {
        NetworkMetrics { rx_bytes, tx_bytes, rx_errors, tx_errors }
    }

    pub fn zero() -> (r: NetworkMetrics)
        ensures
            r == (NetworkMetrics { rx_bytes: 0, tx_bytes: 0, rx_errors: 0, tx_errors: 0 }),
    {
        NetworkMetrics { rx_bytes: 0, tx_bytes: 0, rx_errors: 0, tx_errors: 0 }
    }
}

/// The 1, 5 and 15 minute load averages, in hundredths.
#[derive(Debug, Clone, Copy, PartialEq, Eq)]
pub struct LoadAverage {
    pub one: u64,
    pub five: u64,
    pub fifteen: u64,
}

impl LoadAverage {
    pub fn new(one: u64, five: u64, fifteen: u64) -> (r: LoadAverage)
        ensures
            r == (LoadAverage { one, five, fifteen }),
    {
        LoadAverage { one, five, fifteen }
    }

    pub fn zero() -> (r: LoadAverage)
        ensures
            r == (LoadAverage { one: 0, five: 0, fifteen: 0 }),
    {
        LoadAverage { one: 0, five: 0, fifteen: 0 }
    }
}

} // verus!
