use nanomon::parser::{
    parse_cpu_stat, parse_loadavg, parse_meminfo, parse_mounts, parse_net_stats, parse_proc_stat,
    parse_proc_status_uid, parse_uptime, CpuStat, ParseError,
};

#[test]
fn test_parse_uptime() {
    let content = "12345.67 98765.43\n";
    let uptime = parse_uptime(content).unwrap();
    assert_eq!(uptime, 12345);
}

#[test]
fn test_parse_loadavg() {
    let content = "0.52 0.78 1.21 2/456 12345\n";
    let (one, five, fifteen) = parse_loadavg(content).unwrap();
    // Load averages are held in hundredths.
    assert_eq!(one, 52);
    assert_eq!(five, 78);
    assert_eq!(fifteen, 121);
}

#[test]
fn test_parse_cpu_stat() {
    let content = "cpu  1000 100 500 10000 200 50 30 0\n";
    let stat = parse_cpu_stat(content).unwrap();
    assert_eq!(stat.user, 1000);
    assert_eq!(stat.system, 500);
    assert_eq!(stat.idle, 10000);
    assert_eq!(stat.iowait, 200);
}

#[test]
fn uptime_rejects_empty_and_non_numeric() {
    assert!(matches!(parse_uptime(""), Err(ParseError::Parse(_))));
    assert!(matches!(parse_uptime("   \n"), Err(ParseError::Parse(_))));
    assert!(matches!(parse_uptime("abc 1.0"), Err(ParseError::Parse(_))));
    assert_eq!(parse_uptime("42").unwrap(), 42);
    assert_eq!(parse_uptime("  7.99 1").unwrap(), 7);
}

#[test]
fn loadavg_needs_three_numbers() {
    assert!(matches!(parse_loadavg("0.5 0.6"), Err(ParseError::Parse(_))));
    assert!(matches!(parse_loadavg("0.5 x 0.7"), Err(ParseError::Parse(_))));
    assert_eq!(parse_loadavg("3 0.5 12.345").unwrap(), (300, 50, 1234));
}

#[test]
fn cpu_stat_totals() {
    let stat = parse_cpu_stat("cpu  1000 100 500 10000 200 50 30 0\ncpu0 1 2 3 4 5 6 7 8\n").unwrap();
    assert_eq!(stat.nice, 100);
    assert_eq!(stat.irq, 50);
    assert_eq!(stat.softirq, 30);
    assert_eq!(stat.steal, 0);
    assert_eq!(stat.total(), 11880);
    assert_eq!(stat.busy(), 1680);
}

#[test]
fn cpu_stat_rejects_per_core_and_short_lines() {
    assert!(matches!(parse_cpu_stat("cpu0 1 2 3 4 5 6 7 8\n"), Err(ParseError::Parse(_))));
    assert!(matches!(parse_cpu_stat("cpu  1 2 3 4 5 6 7\n"), Err(ParseError::Parse(_))));
    assert!(matches!(parse_cpu_stat("cpu  1 2 3 x 5 6 7 8\n"), Err(ParseError::Parse(_))));
    assert!(matches!(parse_cpu_stat(""), Err(ParseError::Parse(_))));
    let s = CpuStat { user: 1, ..Default::default() };
    assert_eq!(s.total(), 1);
}

#[test]
fn meminfo_converts_kilobytes_to_bytes() {
    let m = parse_meminfo("MemTotal:    1024 kB\n").unwrap();
    assert_eq!(m.get("MemTotal"), Some(1048576));
    assert_eq!(m.get("MemFree"), None);
}

#[test]
fn meminfo_skips_malformed_lines() {
    let text = "MemTotal: 2 kB\nbogus line\nA:B:C\nMemFree: x kB\nHugePages_Total:       0\nMemTotal: 3 kB\n";
    let m = parse_meminfo(text).unwrap();
    assert_eq!(m.get("MemTotal"), Some(3072));
    assert_eq!(m.get("HugePages_Total"), Some(0));
    assert_eq!(m.get("MemFree"), None);
    assert_eq!(m.get("A"), None);
}

#[test]
fn mounts_skip_short_lines() {
    let text = "/dev/sda1 / ext4 rw 0 0\nshort line\nproc /proc proc rw 0 0\n";
    let ms = parse_mounts(text).unwrap();
    assert_eq!(ms.len(), 2);
    assert_eq!(ms[0].device, "/dev/sda1");
    assert_eq!(ms[0].mount_point, "/");
    assert_eq!(ms[0].filesystem, "ext4");
    assert_eq!(ms[1].filesystem, "proc");
}

#[test]
fn net_stats_all_or_nothing() {
    assert_eq!(parse_net_stats("10\n", " 20", "0", "1\n").unwrap(), (10, 20, 0, 1));
    assert!(matches!(parse_net_stats("10", "x", "0", "1"), Err(ParseError::Parse(_))));
}

#[test]
fn proc_stat_uses_last_parenthesis() {
    let text = "12 (my (weird) cmd) S 1 12 12 0 -1 4194560 100 0 0 0 250 150 0 0 20 0 1 0 100 1000000 321 18446744073709551615";
    let (pid, ppid, state, utime, stime, rss) = parse_proc_stat(text).unwrap();
    assert_eq!(pid, 12);
    assert_eq!(ppid, 1);
    assert_eq!(state, 'S');
    assert_eq!(utime, 250);
    assert_eq!(stime, 150);
    assert_eq!(rss, 321);
}

#[test]
fn proc_stat_rejects_short_records() {
    assert!(matches!(parse_proc_stat("12 (cmd) S 1 2 3"), Err(ParseError::Parse(_))));
    assert!(matches!(parse_proc_stat("12 cmd S 1"), Err(ParseError::Parse(_))));
}

#[test]
fn status_uid_found_or_missing() {
    let text = "Name:\tbash\nUmask:\t0022\nUid:\t1000\t1000\t1000\t1000\nGid:\t100\n";
    assert_eq!(parse_proc_status_uid(text).unwrap(), 1000);
    assert!(matches!(parse_proc_status_uid("Name:\tbash\n"), Err(ParseError::MissingField(_))));
    assert!(matches!(parse_proc_status_uid("Uid:\tabc\n"), Err(ParseError::Parse(_))));
}

#[test]
fn cpu_stat_locates_the_aggregate_line() {
    let stat = parse_cpu_stat("cpu0 9 9 9 9 9 9 9 9\ncpu\t1 2 3 4 5 6 7 8 9 10\nintr 5\n").unwrap();
    assert_eq!(stat.user, 1);
    assert_eq!(stat.steal, 8);
    assert!(matches!(parse_cpu_stat("intr 5\ncpu1 1 2 3 4 5 6 7 8\n"), Err(ParseError::Parse(_))));
}
