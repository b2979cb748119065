use nanomon::process::{
    cpu_share, get_container_id_from_cgroup, get_top_by_cpu, get_top_by_memory,
    get_username_from_uid, parse_pid, resolve_user, Process, ProcessFiles, ProcessState,
    ProcfsProcessSource,
};
use nanomon::system::ProcfsConfig;

fn proc_with(pid: u32, cpu_bp: u64, memory_bytes: u64) -> Process {
    Process::new(pid, 1, "root".to_string(), format!("cmd{}", pid), ProcessState::Running)
        .with_metrics(cpu_bp, 0, memory_bytes)
}

#[test]
fn top_by_cpu_returns_highest_first() {
    let ps = vec![proc_with(1, 500, 0), proc_with(2, 9000, 0), proc_with(3, 1200, 0)];
    let top = get_top_by_cpu(ps, 2);
    assert_eq!(top.len(), 2);
    assert_eq!(top[0].cpu_bp, 9000);
    assert_eq!(top[1].cpu_bp, 1200);
    assert_eq!(top[0].pid, 2);
    assert_eq!(top[1].pid, 3);
}

#[test]
fn top_by_cpu_keeps_order_of_ties_and_caps_at_len() {
    let ps = vec![proc_with(1, 100, 0), proc_with(2, 300, 0), proc_with(3, 100, 0), proc_with(4, 300, 0)];
    let top = get_top_by_cpu(ps, 10);
    let pids: Vec<u32> = top.iter().map(|p| p.pid).collect();
    assert_eq!(pids, vec![2, 4, 1, 3]);
    assert!(get_top_by_cpu(Vec::new(), 3).is_empty());
    assert!(get_top_by_cpu(vec![proc_with(1, 1, 0)], 0).is_empty());
}

#[test]
fn top_by_memory_orders_by_bytes() {
    let ps = vec![proc_with(1, 0, 10), proc_with(2, 0, 30), proc_with(3, 0, 20)];
    let top = get_top_by_memory(ps, 2);
    let pids: Vec<u32> = top.iter().map(|p| p.pid).collect();
    assert_eq!(pids, vec![2, 3]);
}

#[test]
fn state_letters() {
    assert_eq!(ProcessState::from_char('R'), ProcessState::Running);
    assert_eq!(ProcessState::from_char('S'), ProcessState::Sleeping);
    assert_eq!(ProcessState::from_char('D'), ProcessState::Waiting);
    assert_eq!(ProcessState::from_char('Z'), ProcessState::Zombie);
    assert_eq!(ProcessState::from_char('T'), ProcessState::Stopped);
    assert_eq!(ProcessState::from_char('t'), ProcessState::TracingStop);
    assert_eq!(ProcessState::from_char('x'), ProcessState::Dead);
    assert_eq!(ProcessState::from_char('?'), ProcessState::Unknown);
}

#[test]
fn cpu_share_over_lifetime() {
    // 1000 ticks = 10 s of CPU over 110 s of uptime: 10 / 100 = 10%.
    assert_eq!(cpu_share(600, 400, 110), 1000);
    assert_eq!(cpu_share(1000, 0, 10), 0);
    assert_eq!(cpu_share(0, 0, 0), 0);
}

#[test]
fn username_lookup_and_fallback() {
    let passwd = "root:x:0:0:root:/root:/bin/bash\nbad line\nalice:x:1000:1000::/home/alice:/bin/sh\n";
    assert_eq!(get_username_from_uid(passwd, 1000), Some("alice".to_string()));
    assert_eq!(get_username_from_uid(passwd, 0), Some("root".to_string()));
    assert_eq!(get_username_from_uid(passwd, 7), None);
    assert_eq!(resolve_user(Some(passwd), 7), "7");
    assert_eq!(resolve_user(None, 1234), "1234");
    assert_eq!(resolve_user(Some(passwd), 1000), "alice");
}

#[test]
fn cgroup_container_detection() {
    let id = get_container_id_from_cgroup("0::/docker/abc123.scope\n").unwrap();
    assert_eq!(id.as_str(), "abc123");
    let id2 = get_container_id_from_cgroup("12:pids:/user.slice\n3:cpu:/docker/def/docker/x\n").unwrap();
    assert_eq!(id2.as_str(), "def");
    assert!(get_container_id_from_cgroup("0::/user.slice/session.scope\n").is_none());
    assert!(get_container_id_from_cgroup("0::/docker/.scope\n").is_none());
    assert!(get_container_id_from_cgroup("").is_none());
}

#[test]
fn pid_directory_names() {
    assert_eq!(parse_pid("123"), Some(123));
    assert_eq!(parse_pid("self"), None);
    assert_eq!(parse_pid("4294967296"), None);
}

fn sample_files() -> ProcessFiles {
    ProcessFiles {
        stat: "42 (worker) R 1 42 42 0 -1 0 0 0 0 0 600 400 0 0 20 0 1 0 5 1000 256 0".to_string(),
        status: "Name:\tworker\nUid:\t1000\t1000\t1000\t1000\n".to_string(),
        cmdline: Some("/usr/bin/worker\0--fast\0".to_string()),
        comm: Some("worker\n".to_string()),
        cgroup: Some("0::/docker/feed.scope\n".to_string()),
    }
}

#[test]
fn read_process_builds_a_record() {
    let src = ProcfsProcessSource::new(ProcfsConfig::host());
    let passwd = "alice:x:1000:1000::/home/alice:/bin/sh\n";
    let p = src
        .read_process(42, &sample_files(), "110.5 1\n", "MemTotal: 4096 kB\n", Some(passwd))
        .unwrap();
    assert_eq!(p.pid, 42);
    assert_eq!(p.ppid, 1);
    assert_eq!(p.user, "alice");
    assert_eq!(p.command, "/usr/bin/worker --fast");
    assert_eq!(p.state, ProcessState::Running);
    assert_eq!(p.cpu_bp, 1000);
    assert_eq!(p.memory_bytes, 256 * 4096);
    assert_eq!(p.memory_bp, 2500);
    assert_eq!(p.container_id.as_ref().map(|c| c.as_str().to_string()), Some("feed".to_string()));
    assert!(p.is_containerized());
}

#[test]
fn read_process_kernel_thread_and_failures() {
    let src = ProcfsProcessSource::new(ProcfsConfig::host());
    let mut f = sample_files();
    f.cmdline = Some(String::new());
    f.cgroup = None;
    let p = src.read_process(42, &f, "110", "", None).unwrap();
    assert_eq!(p.command, "worker");
    assert_eq!(p.user, "1000");
    assert!(p.container_id.is_none());
    f.comm = None;
    let q = src.read_process(42, &f, "110", "", None).unwrap();
    assert_eq!(q.command, "[pid:42]");
    f.status = "Name:\tx\n".to_string();
    assert!(src.read_process(42, &f, "110", "", None).is_err());
    let g = sample_files();
    assert!(src.read_process(42, &g, "oops", "", None).is_err());
}
