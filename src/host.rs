//! Host-level entities: disks, network interfaces and the snapshot itself.
use vstd::prelude::*;

use crate::container::Container;
use crate::metrics::{
    basis_points, clamp, ratio_bp, CpuMetrics, LoadAverage, MemoryMetrics, NetworkMetrics,
};
use crate::process::Process;

verus! {

/// A mounted filesystem with its usage.
#[derive(Debug, Clone)]
pub struct Disk {
    pub device: String,
    pub mount_point: String,
    pub filesystem: String,
    pub total_bytes: u64,
    pub used_bytes: u64,
    pub available_bytes: u64,
}

impl Disk {
    pub fn new(
        device: String,
        mount_point: String,
        filesystem: String,
        total_bytes: u64,
        used_bytes: u64,
        available_bytes: u64,
    ) -> (r: Disk)
        ensures
            r.device == device,
            r.mount_point == mount_point,
            r.filesystem == filesystem,
            r.total_bytes == total_bytes,
            r.used_bytes == used_bytes,
            r.available_bytes == available_bytes,
    {
        Disk { device, mount_point, filesystem, total_bytes, used_bytes, available_bytes }
    }

    /// Used over total in basis points; 0 when the total is 0.
    pub fn usage_bp(&self) -> (r: u64)
        ensures
            r == clamp(basis_points(self.used_bytes as int, self.total_bytes as int)),
            self.total_bytes == 0 ==> r == 0,
    {
        ratio_bp(self.used_bytes as u128, self.total_bytes as u128)
    }
}

/// A network interface, its link state and its counters.
#[derive(Debug, Clone)]
pub struct NetworkInterface {
    pub name: String,
    pub is_up: bool,
    pub metrics: NetworkMetrics,
}

impl NetworkInterface {
    pub fn new(name: String, is_up: bool, metrics: NetworkMetrics) -> (r: NetworkInterface)
        ensures
            r.name == name,
            r.is_up == is_up,
            r.metrics == metrics,
    {
        NetworkInterface { name, is_up, metrics }
    }
}

/// Host name and uptime.
#[derive(Debug, Clone)]
pub struct HostInfo {
    pub hostname: String,
    pub uptime_seconds: u64,
}

} // verus!

verus! {

/// Relies on `chrono::Utc::now` and `DateTime::timestamp_millis`: the current
/// time in milliseconds since the Unix epoch. Nothing is promised of its value;
/// `Utc::now` panics only on a system clock set before the epoch.
#[verifier::external_body]
pub(crate) fn now_millis() -> (r: i64) {
    chrono::Utc::now().timestamp_millis()
}

/// One point-in-time snapshot of the host, its containers and its processes.
#[derive(Debug, Clone)]
pub struct Host {
    pub hostname: String,
    pub uptime_seconds: u64,
    pub load_average: LoadAverage,
    pub cpu: CpuMetrics,
    pub memory: MemoryMetrics,
    pub network_interfaces: Vec<NetworkInterface>,
    pub disks: Vec<Disk>,
    pub containers: Vec<Container>,
    pub processes: Vec<Process>,
    /// Capture time, in milliseconds since the Unix epoch.
    pub timestamp: i64,
}

impl Host {
    /// An empty snapshot of `hostname`, stamped with the current time.
    pub fn new(hostname: String) -> (r: Host)
        ensures
            r.hostname == hostname,
            r.uptime_seconds == 0,
            r.load_average == (LoadAverage { one: 0, five: 0, fifteen: 0 }),
            r.cpu == (CpuMetrics { usage_bp: 0, user_bp: 0, system_bp: 0, iowait_bp: None }),
            r.memory == (MemoryMetrics {
                used_bytes: 0,
                total_bytes: 0,
                available_bytes: 0,
                cached_bytes: None,
                swap_used_bytes: None,
            }),
            r.network_interfaces@.len() == 0,
            r.disks@.len() == 0,
            r.containers@.len() == 0,
            r.processes@.len() == 0,
    {
        Host {
            hostname,
            uptime_seconds: 0,
            load_average: LoadAverage::zero(),
            cpu: CpuMetrics::new(0, 0, 0),
            memory: MemoryMetrics::new(0, 0, 0),
            network_interfaces: Vec::new(),
            disks: Vec::new(),
            containers: Vec::new(),
            processes: Vec::new(),
            timestamp: now_millis(),
        }
    }

    pub fn with_metrics(
        self,
        uptime_seconds: u64,
        load_average: LoadAverage,
        cpu: CpuMetrics,
        memory: MemoryMetrics,
    ) -> (r: Host)
        ensures
            r == (Host { uptime_seconds, load_average, cpu, memory, ..self }),
    {
        Host { uptime_seconds, load_average, cpu, memory, ..self }
    }

    pub fn with_network_interfaces(self, interfaces: Vec<NetworkInterface>) -> (r: Host)
        ensures
            r == (Host { network_interfaces: interfaces, ..self }),
    {
        Host { network_interfaces: interfaces, ..self }
    }

    pub fn with_disks(self, disks: Vec<Disk>) -> (r: Host)
        ensures
            r == (Host { disks, ..self }),
    {
        Host { disks, ..self }
    }

    pub fn with_containers(self, containers: Vec<Container>) -> (r: Host)
        ensures
            r == (Host { containers, ..self }),
    {
        Host { containers, ..self }
    }

    pub fn with_processes(self, processes: Vec<Process>) -> (r: Host)
        ensures
            r == (Host { processes, ..self }),
    {
        Host { processes, ..self }
    }

    pub fn with_timestamp(self, timestamp: i64) -> (r: Host)
        ensures
            r == (Host { timestamp, ..self }),
    {
        Host { timestamp, ..self }
    }

    /// Received bytes over all interfaces, saturated at `u64::MAX`.
    pub fn total_network_rx_bytes(&self) -> (r: u64)
        ensures
            r == clamp(rx_total(self.network_interfaces@)),
    {
        let mut total: u64 = 0;
        let mut i: usize = 0;
        while i < self.network_interfaces.len()
            invariant
                i <= self.network_interfaces@.len(),
                total == clamp(rx_total(self.network_interfaces@.take(i as int))),
            decreases self.network_interfaces@.len() - i,
        {
            let ghost v = self.network_interfaces@;
            assert(v.take(i + 1).drop_last() =~= v.take(i as int));
            proof {
                lemma_totals_nonneg(v.take(i as int));
            }
            total = total.saturating_add(self.network_interfaces[i].metrics.rx_bytes);
            i += 1;
        }
        assert(self.network_interfaces@.take(i as int) =~= self.network_interfaces@);
        total
    }

    /// Transmitted bytes over all interfaces, saturated at `u64::MAX`.
    pub fn total_network_tx_bytes(&self) -> (r: u64)
        ensures
            r == clamp(tx_total(self.network_interfaces@)),
    {
        let mut total: u64 = 0;
        let mut i: usize = 0;
        while i < self.network_interfaces.len()
            invariant
                i <= self.network_interfaces@.len(),
                total == clamp(tx_total(self.network_interfaces@.take(i as int))),
            decreases self.network_interfaces@.len() - i,
        {
            let ghost v = self.network_interfaces@;
            assert(v.take(i + 1).drop_last() =~= v.take(i as int));
            proof {
                lemma_totals_nonneg(v.take(i as int));
            }
            total = total.saturating_add(self.network_interfaces[i].metrics.tx_bytes);
            i += 1;
        }
        assert(self.network_interfaces@.take(i as int) =~= self.network_interfaces@);
        total
    }
}

pub open spec fn rx_total(v: Seq<NetworkInterface>) -> int
    decreases v.len(),
{
    if v.len() == 0 {
        0
    } else {
        rx_total(v.drop_last()) + v.last().metrics.rx_bytes
    }
}

pub open spec fn tx_total(v: Seq<NetworkInterface>) -> int
    decreases v.len(),
{
    if v.len() == 0 {
        0
    } else {
        tx_total(v.drop_last()) + v.last().metrics.tx_bytes
    }
}

proof fn lemma_totals_nonneg(v: Seq<NetworkInterface>)
    ensures
        rx_total(v) >= 0,
        tx_total(v) >= 0,
    decreases v.len(),
{
    if v.len() > 0 {
        lemma_totals_nonneg(v.drop_last());
    }
}

} // verus!

verus! {

impl Host {
    /// Assembles one snapshot from the results of the eight collection
    /// operations, stamped with `timestamp`.
    pub fn assemble(
        info: HostInfo,
        cpu: CpuMetrics,
        memory: MemoryMetrics,
        load_average: LoadAverage,
        disks: Vec<Disk>,
        network_interfaces: Vec<NetworkInterface>,
        containers: Vec<Container>,
        processes: Vec<Process>,
        timestamp: i64,
    ) -> (r: Host)
        ensures
            r == (Host {
                hostname: info.hostname,
                uptime_seconds: info.uptime_seconds,
                load_average,
                cpu,
                memory,
                network_interfaces,
                disks,
                containers,
                processes,
                timestamp,
            }),
    {
        Host::new(info.hostname).with_metrics(info.uptime_seconds, load_average, cpu, memory)
            .with_network_interfaces(network_interfaces).with_disks(disks).with_containers(
            containers,
        ).with_processes(processes).with_timestamp(timestamp)
    }
}

} // verus!
