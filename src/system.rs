//! Host metrics: CPU usage from consecutive tick samples, memory, load,
//! disks and network interfaces.
use vstd::prelude::*;

use crate::host::{Disk, HostInfo};
use crate::host::NetworkInterface;
use crate::process::ProcfsProcessSource;
use crate::metrics::{
    basis_points, clamp, ratio_bp, CpuMetrics, LoadAverage, MemoryMetrics, NetworkMetrics,
};
use crate::parser::{
    counter_of, cpu_stat_of, is_parse_error, loadavg_of, map_of, meminfo_entries, mount_views,
    mounts_of, parse_cpu_stat, parse_loadavg, parse_meminfo, parse_mounts, parse_net_stats,
    parse_uptime, uptime_of, CpuStat, MemInfo, MountInfo, ParseError,
};
use crate::text::{chars_of, lines, string_from_chars, trim, trimmed};

verus! {

/// Where the kernel counter tree and the device tree are found.
#[derive(Debug, Clone)]
pub struct ProcfsConfig {
    pub proc_path: String,
    pub sys_path: String,
}

impl ProcfsConfig {
    pub fn new(proc_path: String, sys_path: String) -> (r: ProcfsConfig)
        ensures
            r.proc_path == proc_path,
            r.sys_path == sys_path,
    {
        ProcfsConfig { proc_path, sys_path }
    }

    /// The host's own trees, `/proc` and `/sys`.
    pub fn host() -> (r: ProcfsConfig)
        ensures
            r.proc_path@ == "/proc"@,
            r.sys_path@ == "/sys"@,
    {
        ProcfsConfig { proc_path: "/proc".to_owned(), sys_path: "/sys".to_owned() }
    }
}

/// `a - b`, or 0 where `b` is larger.
pub open spec fn sat_sub(a: int, b: int) -> int {
    if a >= b {
        a - b
    } else {
        0
    }
}

pub open spec fn zero_cpu() -> CpuMetrics {
    CpuMetrics { usage_bp: 0, user_bp: 0, system_bp: 0, iowait_bp: Some(0) }
}

/// Usage between two aggregate samples. Each category's delta saturates at
/// zero; user counts user and nice, system counts system, irq and softirq,
/// usage counts the busy delta. Without a previous sample, or when no tick
/// elapsed, everything is 0.
pub open spec fn cpu_metrics_of(cur: CpuStat, prev: Option<CpuStat>) -> CpuMetrics {
    match prev {
        None => zero_cpu(),
        Some(p) => {
            let td = sat_sub(cur.total_spec(), p.total_spec());
            if td == 0 {
                zero_cpu()
            } else {
                let user = sat_sub(cur.user as int, p.user as int) + sat_sub(
                    cur.nice as int,
                    p.nice as int,
                );
                let system = sat_sub(cur.system as int, p.system as int) + sat_sub(
                    cur.irq as int,
                    p.irq as int,
                ) + sat_sub(cur.softirq as int, p.softirq as int);
                let iowait = sat_sub(cur.iowait as int, p.iowait as int);
                let busy = sat_sub(cur.busy_spec(), p.busy_spec());
                CpuMetrics {
                    usage_bp: clamp(basis_points(busy, td)),
                    user_bp: clamp(basis_points(user, td)),
                    system_bp: clamp(basis_points(system, td)),
                    iowait_bp: Some(clamp(basis_points(iowait, td))),
                }
            }
        },
    }
}

fn wide_total(s: &CpuStat) -> (r: u128)
    ensures
        r == s.total_spec(),
{
    s.user as u128 + s.nice as u128 + s.system as u128 + s.idle as u128 + s.iowait as u128
        + s.irq as u128 + s.softirq as u128 + s.steal as u128
}

fn delta(a: u128, b: u128) -> (r: u128)
    ensures
        r == sat_sub(a as int, b as int),
{
    if a >= b {
        a - b
    } else {
        0
    }
}

/// Turns two consecutive aggregate samples into percentages.
pub fn calculate_cpu_metrics(current: &CpuStat, previous: Option<&CpuStat>) -> (r: CpuMetrics)
    ensures
        r == cpu_metrics_of(
            *current,
            match previous {
                Some(p) => Some(*p),
                None => None,
            },
        ),
        previous is None ==> r == zero_cpu(),
{
    let prev = match previous {
        Some(p) => p,
        None => {
            return CpuMetrics::new(0, 0, 0).with_iowait(0);
        },
    };
    let ct = wide_total(current);
    let pt = wide_total(prev);
    let td = delta(ct, pt);
    if td == 0 {
        return CpuMetrics::new(0, 0, 0).with_iowait(0);
    }
    let user = delta(current.user as u128, prev.user as u128) + delta(
        current.nice as u128,
        prev.nice as u128,
    );
    let system = delta(current.system as u128, prev.system as u128) + delta(
        current.irq as u128,
        prev.irq as u128,
    ) + delta(current.softirq as u128, prev.softirq as u128);
    let iowait = delta(current.iowait as u128, prev.iowait as u128);
    let busy = delta(
        ct - current.idle as u128 - current.iowait as u128,
        pt - prev.idle as u128 - prev.iowait as u128,
    );
    CpuMetrics::new(ratio_bp(busy, td), ratio_bp(user, td), ratio_bp(system, td)).with_iowait(
        ratio_bp(iowait, td),
    )
}

/// Every counter of `cur` is at least that of `prev`.
pub open spec fn counters_advance(prev: CpuStat, cur: CpuStat) -> bool {
    &&& prev.user <= cur.user
    &&& prev.nice <= cur.nice
    &&& prev.system <= cur.system
    &&& prev.idle <= cur.idle
    &&& prev.iowait <= cur.iowait
    &&& prev.irq <= cur.irq
    &&& prev.softirq <= cur.softirq
    &&& prev.steal <= cur.steal
}

proof fn lemma_bp_bounded(x: int, t: int)
    requires
        0 <= x <= t,
        t > 0,
    ensures
        0 <= basis_points(x, t) <= 10000,
{
    assert(x * 10000 <= t * 10000) by (nonlinear_arith)
        requires
            x <= t,
    ;
    assert(x * 10000 / t <= 10000) by (nonlinear_arith)
        requires
            x * 10000 <= t * 10000,
            t > 0,
            x >= 0,
    ;
    assert(x * 10000 / t >= 0) by (nonlinear_arith)
        requires
            x >= 0,
            t > 0,
    ;
}

proof fn lemma_bp_sum(x: int, y: int, t: int)
    requires
        0 <= x,
        0 <= y,
        x + y <= t,
        t > 0,
    ensures
        basis_points(x, t) + basis_points(y, t) <= 10000,
{
    let a = x * 10000;
    let b = y * 10000;
    assert(a / t + b / t <= (a + b) / t) by (nonlinear_arith)
        requires
            a >= 0,
            b >= 0,
            t > 0,
    ;
    assert((x + y) * 10000 == a + b) by (nonlinear_arith)
        requires
            a == x * 10000,
            b == y * 10000,
    ;
    lemma_bp_bounded(x + y, t);
}

/// No category advanced by more ticks than elapsed in all: user (with nice),
/// system (with irq and softirq), and busy and iowait together each fit in the
/// total delta. Counters that all advance meet this.
pub open spec fn deltas_within_elapsed(prev: CpuStat, cur: CpuStat) -> bool {
    let td = sat_sub(cur.total_spec(), prev.total_spec());
    let user = sat_sub(cur.user as int, prev.user as int) + sat_sub(cur.nice as int, prev.nice as int);
    let system = sat_sub(cur.system as int, prev.system as int) + sat_sub(
        cur.irq as int,
        prev.irq as int,
    ) + sat_sub(cur.softirq as int, prev.softirq as int);
    let iowait = sat_sub(cur.iowait as int, prev.iowait as int);
    let busy = sat_sub(cur.busy_spec(), prev.busy_spec());
    td == 0 || (user <= td && system <= td && busy + iowait <= td)
}

/// Counters that never go back keep every category within the elapsed ticks.
pub proof fn lemma_advancing_counters_within_elapsed(prev: CpuStat, cur: CpuStat)
    requires
        counters_advance(prev, cur),
    ensures
        deltas_within_elapsed(prev, cur),
{
}

/// For two consecutive samples whose category deltas fit in the elapsed
/// ticks, every percentage lies between 0 and 100 and usage plus iowait stays
/// within 100.
pub proof fn lemma_cpu_percentages_bounded(prev: CpuStat, cur: CpuStat)
    requires
        deltas_within_elapsed(prev, cur),
    ensures
        ({
            let m = cpu_metrics_of(cur, Some(prev));
            &&& m.usage_bp <= 10000
            &&& m.user_bp <= 10000
            &&& m.system_bp <= 10000
            &&& m.iowait_bp matches Some(w) && w <= 10000 && m.usage_bp + w <= 10000
        }),
{
    let td = sat_sub(cur.total_spec(), prev.total_spec());
    if td > 0 {
        let user = sat_sub(cur.user as int, prev.user as int) + sat_sub(
            cur.nice as int,
            prev.nice as int,
        );
        let system = sat_sub(cur.system as int, prev.system as int) + sat_sub(
            cur.irq as int,
            prev.irq as int,
        ) + sat_sub(cur.softirq as int, prev.softirq as int);
        let iowait = sat_sub(cur.iowait as int, prev.iowait as int);
        let busy = sat_sub(cur.busy_spec(), prev.busy_spec());
        lemma_bp_bounded(user, td);
        lemma_bp_bounded(system, td);
        lemma_bp_bounded(iowait, td);
        lemma_bp_bounded(busy, td);
        lemma_bp_sum(busy, iowait, td);
    }
}

} // verus!

verus! {

/// The host collector. It keeps the previous aggregate CPU sample, so that
/// each reading reports the usage since the one before.
pub struct ProcfsSystemSource {
    config: ProcfsConfig,
    last_cpu_stat: Option<CpuStat>,
}

impl ProcfsSystemSource {
    /// The previous aggregate sample, if any was taken.
    pub closed spec fn last_sample(&self) -> Option<CpuStat> {
        self.last_cpu_stat
    }

    pub closed spec fn config_spec(&self) -> ProcfsConfig {
        self.config
    }

    pub fn new(config: ProcfsConfig) -> (r: ProcfsSystemSource)
        ensures
            r.last_sample() is None,
            r.config_spec() == config,
    {
        ProcfsSystemSource { config, last_cpu_stat: None }
    }

    pub fn config(&self) -> (r: &ProcfsConfig)
        ensures
            *r == self.config_spec(),
    {
        &self.config
    }

    /// Reports the usage since the stored sample, then stores `current`.
    pub fn record_cpu_sample(&mut self, current: CpuStat) -> (r: CpuMetrics)
        ensures
            r == cpu_metrics_of(current, old(self).last_sample()),
            old(self).last_sample() is None ==> r == zero_cpu(),
            final(self).last_sample() == Some(current),
            final(self).config_spec() == old(self).config_spec(),
    {
        let r = match &self.last_cpu_stat {
            Some(p) => calculate_cpu_metrics(&current, Some(p)),
            None => calculate_cpu_metrics(&current, None),
        };
        self.last_cpu_stat = Some(current);
        r
    }

    /// Parses the aggregate CPU counters and reports the usage since the
    /// previous reading; the sample is stored only when it parses.
    pub fn get_cpu_metrics(&mut self, stat_content: &str) -> (r: Result<CpuMetrics, ParseError>)
        ensures
            r is Ok <==> cpu_stat_of(stat_content@) is Some,
            r is Err ==> is_parse_error(r) && *final(self) == *old(self),
            r matches Ok(m) ==> m == cpu_metrics_of(
                cpu_stat_of(stat_content@)->0,
                old(self).last_sample(),
            ) && final(self).last_sample() == cpu_stat_of(stat_content@)
                && final(self).config_spec() == old(self).config_spec(),
            old(self).last_sample() is None ==> (r matches Ok(m) ==> m == zero_cpu()),
    {
        let current = parse_cpu_stat(stat_content)?;
        Ok(self.record_cpu_sample(current))
    }
}

/// Builds the host's name and uptime from the uptime counter and the host-name
/// file; an unreadable host-name file gives `unknown`.
pub fn get_host_info(uptime_content: &str, hostname_content: Option<&str>) -> (r: Result<
    HostInfo,
    ParseError,
>)
    ensures
        r is Ok <==> uptime_of(uptime_content@) is Some,
        r is Err ==> is_parse_error(r),
        r matches Ok(h) ==> Some(h.uptime_seconds) == uptime_of(uptime_content@) && h.hostname@
            == match hostname_content {
            Some(c) => trim(c@),
            None => "unknown"@,
        },
{
    let uptime_seconds = parse_uptime(uptime_content)?;
    let hostname = match hostname_content {
        Some(c) => get_hostname(c),
        None => "unknown".to_owned(),
    };
    Ok(HostInfo { hostname, uptime_seconds })
}

/// The host name: the host-name file without surrounding whitespace.
pub fn get_hostname(content: &str) -> (r: String)
    ensures
        r@ == trim(content@),
{
    let cs = chars_of(content);
    let t = trimmed(cs.as_slice());
    string_from_chars(t.as_slice())
}

/// The value of `key` in the memory table, 0 when absent.
pub open spec fn mem_field(m: Map<Seq<char>, u64>, key: Seq<char>) -> u64 {
    if m.contains_key(key) {
        m[key]
    } else {
        0
    }
}

/// Host memory from the memory table: used is total minus available, cached
/// is page cache plus buffers (saturated), swap used is swap total minus swap
/// free; a missing field counts as 0 and differences stop at 0.
pub open spec fn memory_metrics_of(m: Map<Seq<char>, u64>) -> MemoryMetrics {
    let total = mem_field(m, "MemTotal"@);
    let available = mem_field(m, "MemAvailable"@);
    MemoryMetrics {
        used_bytes: sat_sub(total as int, available as int) as u64,
        total_bytes: total,
        available_bytes: available,
        cached_bytes: Some(clamp(mem_field(m, "Cached"@) + mem_field(m, "Buffers"@))),
        swap_used_bytes: Some(
            sat_sub(mem_field(m, "SwapTotal"@) as int, mem_field(m, "SwapFree"@) as int) as u64,
        ),
    }
}

fn field_or_zero(m: &MemInfo, key: &str) -> (r: u64)
    ensures
        r == mem_field(m@, key@),
{
    match m.get(key) {
        Some(v) => v,
        None => 0,
    }
}

/// Host memory from the content of the memory table.
pub fn get_memory_metrics(meminfo_content: &str) -> (r: Result<MemoryMetrics, ParseError>)
    ensures
        r matches Ok(mm) && mm == memory_metrics_of(map_of(meminfo_entries(lines(meminfo_content@)))),
{
    let m = parse_meminfo(meminfo_content)?;
    let total = field_or_zero(&m, "MemTotal");
    let available = field_or_zero(&m, "MemAvailable");
    let cached = field_or_zero(&m, "Cached");
    let buffers = field_or_zero(&m, "Buffers");
    let swap_total = field_or_zero(&m, "SwapTotal");
    let swap_free = field_or_zero(&m, "SwapFree");
    let used = total.saturating_sub(available);
    let swap_used = swap_total.saturating_sub(swap_free);
    Ok(MemoryMetrics::new(used, total, available).with_cache(cached.saturating_add(buffers)).with_swap(
        swap_used,
    ))
}

/// The load averages, in hundredths.
pub fn get_load_average(loadavg_content: &str) -> (r: Result<LoadAverage, ParseError>)
    ensures
        r is Ok <==> loadavg_of(loadavg_content@) is Some,
        r is Err ==> is_parse_error(r),
        r matches Ok(l) ==> loadavg_of(loadavg_content@) == Some((l.one, l.five, l.fifteen)),
{
    let (one, five, fifteen) = parse_loadavg(loadavg_content)?;
    Ok(LoadAverage::new(one, five, fifteen))
}

} // verus!

verus! {

/// Filesystem types that hold no disk: proc, sysfs, tmpfs, devtmpfs, devpts,
/// cgroup, cgroup2, securityfs, debugfs.
pub open spec fn is_virtual_fs(fs: Seq<char>) -> bool {
    fs == "proc"@ || fs == "sysfs"@ || fs == "tmpfs"@ || fs == "devtmpfs"@ || fs == "devpts"@ || fs
        == "cgroup"@ || fs == "cgroup2"@ || fs == "securityfs"@ || fs == "debugfs"@
}

fn same_text(a: &String, b: &str) -> (r: bool)
    ensures
        r == (a@ == b@),
{
    let o = b.to_owned();
    *a == o
}

pub fn is_virtual_filesystem(fs: &String) -> (r: bool)
    ensures
        r == is_virtual_fs(fs@),
{
    same_text(fs, "proc") || same_text(fs, "sysfs") || same_text(fs, "tmpfs") || same_text(
        fs,
        "devtmpfs",
    ) || same_text(fs, "devpts") || same_text(fs, "cgroup") || same_text(fs, "cgroup2")
        || same_text(fs, "securityfs") || same_text(fs, "debugfs")
}

/// The mounts whose filesystem is not virtual, in order.
pub open spec fn real_mounts(ms: Seq<(Seq<char>, Seq<char>, Seq<char>)>) -> Seq<
    (Seq<char>, Seq<char>, Seq<char>),
>
    decreases ms.len(),
{
    if ms.len() == 0 {
        seq![]
    } else if is_virtual_fs(ms.last().2) {
        real_mounts(ms.drop_last())
    } else {
        real_mounts(ms.drop_last()).push(ms.last())
    }
}

/// The mounts that may hold a disk, from the content of the mount table.
pub fn disk_mounts(mounts_content: &str) -> (r: Result<Vec<MountInfo>, ParseError>)
    ensures
        r matches Ok(v) && mount_views(v@) == real_mounts(mounts_of(lines(mounts_content@))),
{
    let all = parse_mounts(mounts_content)?;
    let ghost mv = mount_views(all@);
    let mut kept: Vec<MountInfo> = Vec::new();
    let mut i: usize = 0;
    while i < all.len()
        invariant
            i <= all@.len(),
            mv == mount_views(all@),
            mount_views(kept@) == real_mounts(mv.take(i as int)),
        decreases all@.len() - i,
    {
        assert(mv.take(i + 1).drop_last() =~= mv.take(i as int));
        assert(mv.take(i + 1).last() == all@[i as int]@);
        if !is_virtual_filesystem(&all[i].filesystem) {
            let ghost before = mount_views(kept@);
            let m = MountInfo {
                device: all[i].device.clone(),
                mount_point: all[i].mount_point.clone(),
                filesystem: all[i].filesystem.clone(),
            };
            kept.push(m);
            assert(mount_views(kept@) =~= before.push(all@[i as int]@));
        }
        i += 1;
    }
    assert(mv.take(i as int) =~= mv);
    Ok(kept)
}

/// Block statistics of a mounted filesystem.
#[derive(Debug, Clone, Copy, PartialEq, Eq)]
pub struct FsStats {
    pub blocks: u64,
    pub blocks_available: u64,
    pub blocks_free: u64,
    pub block_size: u64,
}

/// The disk of a mount: sizes are block counts times the block size, used is
/// total minus free (never below 0). `None` where a size does not fit in a `u64`.
pub open spec fn disk_of(m: MountInfo, st: FsStats) -> Option<Disk> {
    let total = st.blocks * st.block_size;
    let available = st.blocks_available * st.block_size;
    let free = st.blocks_free * st.block_size;
    if total <= u64::MAX && available <= u64::MAX && free <= u64::MAX {
        Some(
            Disk {
                device: m.device,
                mount_point: m.mount_point,
                filesystem: m.filesystem,
                total_bytes: total as u64,
                used_bytes: sat_sub(total, free) as u64,
                available_bytes: available as u64,
            },
        )
    } else {
        None
    }
}

pub fn disk_from_stats(m: &MountInfo, st: &FsStats) -> (r: Option<Disk>)
    ensures
        r == disk_of(*m, *st),
{
    let total = st.blocks.checked_mul(st.block_size);
    let available = st.blocks_available.checked_mul(st.block_size);
    let free = st.blocks_free.checked_mul(st.block_size);
    match (total, available, free) {
        (Some(total), Some(available), Some(free)) => Some(
            Disk::new(
                m.device.clone(),
                m.mount_point.clone(),
                m.filesystem.clone(),
                total,
                total.saturating_sub(free),
                available,
            ),
        ),
        _ => None,
    }
}

/// The disks of the mounts whose statistics could be read, in order.
pub open spec fn disks_of(ms: Seq<MountInfo>, sts: Seq<Option<FsStats>>) -> Seq<Disk>
    decreases ms.len(),
{
    if ms.len() == 0 || sts.len() == 0 {
        seq![]
    } else {
        let prev = disks_of(ms.drop_last(), sts.drop_last());
        match sts.last() {
            Some(st) => match disk_of(ms.last(), st) {
                Some(d) => prev.push(d),
                None => prev,
            },
            None => prev,
        }
    }
}

/// Pairs each mount with its statistics; a mount whose statistics could not
/// be read is left out.
pub fn list_disks(mounts: &Vec<MountInfo>, stats: &Vec<Option<FsStats>>) -> (r: Vec<Disk>)
    requires
        mounts@.len() == stats@.len(),
    ensures
        r@ == disks_of(mounts@, stats@),
{
    let mut disks: Vec<Disk> = Vec::new();
    let mut i: usize = 0;
    while i < mounts.len()
        invariant
            i <= mounts@.len() == stats@.len(),
            disks@ == disks_of(mounts@.take(i as int), stats@.take(i as int)),
        decreases mounts@.len() - i,
    {
        assert(mounts@.take(i + 1).drop_last() =~= mounts@.take(i as int));
        assert(stats@.take(i + 1).drop_last() =~= stats@.take(i as int));
        assert(mounts@.take(i + 1).last() == mounts@[i as int]);
        assert(stats@.take(i + 1).last() == stats@[i as int]);
        match &stats[i] {
            Some(st) => match disk_from_stats(&mounts[i], st) {
                Some(d) => disks.push(d),
                None => {},
            },
            None => {},
        }
        i += 1;
    }
    assert(mounts@.take(i as int) =~= mounts@);
    assert(stats@.take(i as int) =~= stats@);
    disks
}

} // verus!

verus! {

/// What was read for one interface directory; `None` for a file that could
/// not be read.
#[derive(Debug, Clone)]
pub struct InterfaceFiles {
    pub name: String,
    pub operstate: Option<String>,
    pub rx_bytes: Option<String>,
    pub tx_bytes: Option<String>,
    pub rx_errors: Option<String>,
    pub tx_errors: Option<String>,
}

/// The link is up when its state file trims to exactly `up`.
pub open spec fn link_up(operstate: Option<String>) -> bool {
    operstate matches Some(s) && trim(s@) == "up"@
}

pub open spec fn counter_text(f: Option<String>) -> Option<nat> {
    match f {
        Some(s) => counter_of(s@),
        None => None,
    }
}

/// The interface of one directory: loopback is left out, and so is an
/// interface whose four counters cannot all be read.
pub open spec fn interface_of(e: InterfaceFiles) -> Option<NetworkInterface> {
    let rx = counter_text(e.rx_bytes);
    let tx = counter_text(e.tx_bytes);
    let rxe = counter_text(e.rx_errors);
    let txe = counter_text(e.tx_errors);
    if e.name@ != "lo"@ && rx is Some && tx is Some && rxe is Some && txe is Some {
        Some(
            NetworkInterface {
                name: e.name,
                is_up: link_up(e.operstate),
                metrics: NetworkMetrics {
                    rx_bytes: rx->0 as u64,
                    tx_bytes: tx->0 as u64,
                    rx_errors: rxe->0 as u64,
                    tx_errors: txe->0 as u64,
                },
            },
        )
    } else {
        None
    }
}

pub open spec fn interfaces_of(es: Seq<InterfaceFiles>) -> Seq<NetworkInterface>
    decreases es.len(),
{
    if es.len() == 0 {
        seq![]
    } else {
        let prev = interfaces_of(es.drop_last());
        match interface_of(es.last()) {
            Some(n) => prev.push(n),
            None => prev,
        }
    }
}

fn is_link_up(operstate: &Option<String>) -> (r: bool)
    ensures
        r == link_up(*operstate),
{
    match operstate {
        Some(s) => {
            let cs = chars_of(s.as_str());
            let t = trimmed(cs.as_slice());
            let ts = string_from_chars(t.as_slice());
            same_text(&ts, "up")
        },
        None => false,
    }
}

fn interface_from_files(e: &InterfaceFiles) -> (r: Option<NetworkInterface>)
    ensures
        r == interface_of(*e),
{
    if same_text(&e.name, "lo") {
        return None;
    }
    match (&e.rx_bytes, &e.tx_bytes, &e.rx_errors, &e.tx_errors) {
        (Some(rx), Some(tx), Some(rxe), Some(txe)) => {
            match parse_net_stats(rx.as_str(), tx.as_str(), rxe.as_str(), txe.as_str()) {
                Ok((rx_bytes, tx_bytes, rx_errors, tx_errors)) => Some(
                    NetworkInterface::new(
                        e.name.clone(),
                        is_link_up(&e.operstate),
                        NetworkMetrics::new(rx_bytes, tx_bytes, rx_errors, tx_errors),
                    ),
                ),
                Err(_) => None,
            }
        },
        _ => None,
    }
}

/// The interfaces of the directories read, loopback and unreadable ones left out.
pub fn list_network_interfaces(entries: &Vec<InterfaceFiles>) -> (r: Vec<NetworkInterface>)
    ensures
        r@ == interfaces_of(entries@),
{
    let mut out: Vec<NetworkInterface> = Vec::new();
    let mut i: usize = 0;
    while i < entries.len()
        invariant
            i <= entries@.len(),
            out@ == interfaces_of(entries@.take(i as int)),
        decreases entries@.len() - i,
    {
        assert(entries@.take(i + 1).drop_last() =~= entries@.take(i as int));
        assert(entries@.take(i + 1).last() == entries@[i as int]);
        match interface_from_files(&entries[i]) {
            Some(n) => out.push(n),
            None => {},
        }
        i += 1;
    }
    assert(entries@.take(i as int) =~= entries@);
    out
}

/// Builds the host and process collectors over one pair of trees.
#[derive(Debug, Clone)]
pub struct ProcfsAdapter {
    config: ProcfsConfig,
}

impl ProcfsAdapter {
    pub closed spec fn config_spec(&self) -> ProcfsConfig {
        self.config
    }

    pub fn new(config: ProcfsConfig) -> (r: ProcfsAdapter)
        ensures
            r.config_spec() == config,
    {
        ProcfsAdapter { config }
    }

    pub fn with_default_paths() -> (r: ProcfsAdapter)
        ensures
            r.config_spec().proc_path@ == "/proc"@,
            r.config_spec().sys_path@ == "/sys"@,
    {
        ProcfsAdapter::new(ProcfsConfig::host())
    }

    pub fn system_source(&self) -> (r: ProcfsSystemSource)
        ensures
            r.last_sample() is None,
            r.config_spec().proc_path == self.config_spec().proc_path,
            r.config_spec().sys_path == self.config_spec().sys_path,
    {
        ProcfsSystemSource::new(
            ProcfsConfig::new(self.config.proc_path.clone(), self.config.sys_path.clone()),
        )
    }
}

} // verus!

verus! {

impl ProcfsAdapter {
    pub fn process_source(&self) -> (r: ProcfsProcessSource)
        ensures
            r.config_spec().proc_path == self.config_spec().proc_path,
            r.config_spec().sys_path == self.config_spec().sys_path,
    {
        ProcfsProcessSource::new(
            ProcfsConfig::new(self.config.proc_path.clone(), self.config.sys_path.clone()),
        )
    }
}

} // verus!
