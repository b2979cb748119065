use nanomon::host::{Disk, Host, HostInfo, NetworkInterface};
use nanomon::metrics::{CpuMetrics, LoadAverage, MemoryMetrics, NetworkMetrics};
use nanomon::parser::{CpuStat, MountInfo, ParseError};
use nanomon::system::{
    calculate_cpu_metrics, disk_from_stats, disk_mounts, get_host_info, get_hostname,
    get_load_average, get_memory_metrics, is_virtual_filesystem, list_disks,
    list_network_interfaces, FsStats, InterfaceFiles, ProcfsAdapter, ProcfsConfig,
    ProcfsSystemSource,
};

fn stat(user: u64, nice: u64, system: u64, idle: u64, iowait: u64, irq: u64, softirq: u64, steal: u64) -> CpuStat {
    CpuStat { user, nice, system, idle, iowait, irq, softirq, steal }
}

#[test]
fn first_cpu_reading_is_zero() {
    let mut src = ProcfsSystemSource::new(ProcfsConfig::host());
    let m = src.get_cpu_metrics("cpu  1000 100 500 10000 200 50 30 0\n").unwrap();
    assert_eq!(m, CpuMetrics { usage_bp: 0, user_bp: 0, system_bp: 0, iowait_bp: Some(0) });
}

#[test]
fn second_cpu_reading_reports_the_interval() {
    let mut src = ProcfsSystemSource::new(ProcfsConfig::host());
    src.get_cpu_metrics("cpu  100 0 100 700 100 0 0 0\n").unwrap();
    let m = src.get_cpu_metrics("cpu  150 10 120 1000 120 0 0 0\n").unwrap();
    // total delta 400: user 60, system 20, iowait 20, busy 80.
    assert_eq!(m.user_bp, 1500);
    assert_eq!(m.system_bp, 500);
    assert_eq!(m.iowait_bp, Some(500));
    assert_eq!(m.usage_bp, 2000);
    assert!(m.usage_bp + m.iowait_bp.unwrap() <= 10000);
}

#[test]
fn cpu_reading_that_fails_keeps_the_sample() {
    let mut src = ProcfsSystemSource::new(ProcfsConfig::host());
    assert!(matches!(src.get_cpu_metrics("garbage"), Err(ParseError::Parse(_))));
    let m = src.get_cpu_metrics("cpu  1 1 1 1 1 1 1 1\n").unwrap();
    assert_eq!(m.usage_bp, 0);
}

#[test]
fn cpu_metrics_without_elapsed_ticks_are_zero() {
    let a = stat(10, 0, 10, 10, 0, 0, 0, 0);
    let m = calculate_cpu_metrics(&a, Some(&a));
    assert_eq!(m, CpuMetrics { usage_bp: 0, user_bp: 0, system_bp: 0, iowait_bp: Some(0) });
    let none = calculate_cpu_metrics(&a, None);
    assert_eq!(none.usage_bp, 0);
    assert_eq!(none.iowait_bp, Some(0));
}

#[test]
fn cpu_metrics_saturate_decreasing_counters() {
    let prev = stat(100, 0, 0, 100, 0, 0, 0, 0);
    let cur = stat(50, 0, 0, 250, 0, 0, 0, 0);
    let m = calculate_cpu_metrics(&cur, Some(&prev));
    // total delta 100; user went down, so its delta is 0.
    assert_eq!(m.user_bp, 0);
    assert_eq!(m.usage_bp, 0);
}

#[test]
fn record_sample_advances_state() {
    let mut src = ProcfsAdapter::with_default_paths().system_source();
    let m0 = src.record_cpu_sample(stat(0, 0, 0, 0, 0, 0, 0, 0));
    assert_eq!(m0.usage_bp, 0);
    let m1 = src.record_cpu_sample(stat(25, 0, 25, 50, 0, 0, 0, 0));
    assert_eq!(m1.usage_bp, 5000);
    assert_eq!(m1.user_bp, 2500);
    let m2 = src.record_cpu_sample(stat(25, 0, 25, 150, 0, 0, 0, 0));
    assert_eq!(m2.usage_bp, 0);
}

#[test]
fn memory_metrics_from_table() {
    let text = "MemTotal: 1000 kB\nMemFree: 100 kB\nMemAvailable: 400 kB\nBuffers: 10 kB\nCached: 20 kB\nSwapTotal: 50 kB\nSwapFree: 20 kB\n";
    let m = get_memory_metrics(text).unwrap();
    assert_eq!(m.total_bytes, 1024000);
    assert_eq!(m.available_bytes, 409600);
    assert_eq!(m.used_bytes, 614400);
    assert_eq!(m.cached_bytes, Some(30720));
    assert_eq!(m.swap_used_bytes, Some(30720));
    assert_eq!(m.usage_bp(), 6000);
}

#[test]
fn memory_metrics_default_missing_fields() {
    let m = get_memory_metrics("").unwrap();
    assert_eq!(m, MemoryMetrics::new(0, 0, 0).with_cache(0).with_swap(0));
    assert_eq!(m.usage_bp(), 0);
}

#[test]
fn load_average_in_hundredths() {
    assert_eq!(get_load_average("0.52 0.78 1.21 2/456 12345\n").unwrap(), LoadAverage::new(52, 78, 121));
    assert!(get_load_average("1 2").is_err());
}

#[test]
fn host_info_from_files() {
    let h = get_host_info("100.9 5\n", Some("  box\n")).unwrap();
    assert_eq!(h.hostname, "box");
    assert_eq!(h.uptime_seconds, 100);
    let u = get_host_info("7", None).unwrap();
    assert_eq!(u.hostname, "unknown");
    assert!(get_host_info("x", None).is_err());
    assert_eq!(get_hostname("name\n"), "name");
}

#[test]
fn disk_usage_is_zero_without_total() {
    let d = Disk::new("d".to_string(), "/".to_string(), "ext4".to_string(), 0, 0, 0);
    assert_eq!(d.usage_bp(), 0);
    let e = Disk::new("d".to_string(), "/".to_string(), "ext4".to_string(), 400, 100, 300);
    assert_eq!(e.usage_bp(), 2500);
}

#[test]
fn disks_skip_virtual_filesystems_and_failed_stats() {
    let text = "/dev/sda1 / ext4 rw 0 0\nproc /proc proc rw 0 0\ntmpfs /run tmpfs rw 0 0\n/dev/sdb1 /data xfs rw 0 0\n";
    let mounts = disk_mounts(text).unwrap();
    assert_eq!(mounts.len(), 2);
    assert_eq!(mounts[1].mount_point, "/data");
    let stats = vec![
        Some(FsStats { blocks: 100, blocks_available: 40, blocks_free: 50, block_size: 4096 }),
        None,
    ];
    let disks = list_disks(&mounts, &stats);
    assert_eq!(disks.len(), 1);
    assert_eq!(disks[0].total_bytes, 409600);
    assert_eq!(disks[0].used_bytes, 204800);
    assert_eq!(disks[0].available_bytes, 163840);
    assert!(is_virtual_filesystem(&"cgroup2".to_string()));
    assert!(!is_virtual_filesystem(&"ext4".to_string()));
}

#[test]
fn disk_with_oversized_counts_is_dropped() {
    let m = MountInfo { device: "d".to_string(), mount_point: "/".to_string(), filesystem: "ext4".to_string() };
    let st = FsStats { blocks: u64::MAX, blocks_available: 1, blocks_free: 1, block_size: 2 };
    assert!(disk_from_stats(&m, &st).is_none());
}

fn files(name: &str, state: Option<&str>, rx: Option<&str>) -> InterfaceFiles {
    InterfaceFiles {
        name: name.to_string(),
        operstate: state.map(|s| s.to_string()),
        rx_bytes: rx.map(|s| s.to_string()),
        tx_bytes: Some("20\n".to_string()),
        rx_errors: Some("1\n".to_string()),
        tx_errors: Some("2\n".to_string()),
    }
}

#[test]
fn interfaces_skip_loopback_and_unreadable() {
    let entries = vec![
        files("lo", Some("unknown\n"), Some("5\n")),
        files("eth0", Some("up\n"), Some("10\n")),
        files("eth1", None, Some("11\n")),
        files("eth2", Some("up\n"), None),
        files("eth3", Some("down\n"), Some("x")),
    ];
    let ifs = list_network_interfaces(&entries);
    assert_eq!(ifs.len(), 2);
    assert_eq!(ifs[0].name, "eth0");
    assert!(ifs[0].is_up);
    assert_eq!(ifs[0].metrics, NetworkMetrics::new(10, 20, 1, 2));
    assert_eq!(ifs[1].name, "eth1");
    assert!(!ifs[1].is_up);
}

#[test]
fn host_totals_and_assembly() {
    let ifs = vec![
        NetworkInterface::new("a".to_string(), true, NetworkMetrics::new(5, 7, 0, 0)),
        NetworkInterface::new("b".to_string(), true, NetworkMetrics::new(u64::MAX, 1, 0, 0)),
    ];
    let info = HostInfo { hostname: "h".to_string(), uptime_seconds: 9 };
    let host = Host::assemble(
        info,
        CpuMetrics::new(1, 2, 3),
        MemoryMetrics::new(1, 2, 1),
        LoadAverage::zero(),
        Vec::new(),
        ifs,
        Vec::new(),
        Vec::new(),
        1234,
    );
    assert_eq!(host.hostname, "h");
    assert_eq!(host.uptime_seconds, 9);
    assert_eq!(host.timestamp, 1234);
    assert_eq!(host.total_network_rx_bytes(), u64::MAX);
    assert_eq!(host.total_network_tx_bytes(), 8);
}

#[test]
fn new_host_is_stamped_now() {
    let h = Host::new("x".to_string());
    assert!(h.timestamp > 1_500_000_000_000);
    assert_eq!(h.uptime_seconds, 0);
}
