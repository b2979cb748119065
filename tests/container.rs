use nanomon::container::{
    attach_stats, calculate_stats, extract_stack_name, get_stacks, map_container_state,
    parse_container_name, BlkioEntry, Container, ContainerId, ContainerListing, ContainerState,
    ContainerStats, Stack, StatsSample,
};
use nanomon::metrics::{CpuMetrics, IoMetrics, MemoryMetrics, NetworkMetrics};

fn container(id: &str, state: ContainerState, stack: Option<&str>) -> Container {
    Container::new(ContainerId::new(id.to_string()), id.to_string(), "img".to_string(), state, 0)
        .with_stack(stack.map(|s| s.to_string()))
}

fn sample() -> StatsSample {
    StatsSample {
        cpu_total_usage: 300,
        precpu_total_usage: 100,
        system_cpu_usage: Some(2000),
        precpu_system_cpu_usage: Some(1000),
        online_cpus: Some(4),
        memory_usage: Some(100),
        memory_limit: None,
        networks: vec![NetworkMetrics::new(1, 2, 3, 4), NetworkMetrics::new(10, 20, 30, 40)],
        blkio: vec![
            BlkioEntry { op: "Read".to_string(), value: 5 },
            BlkioEntry { op: "Write".to_string(), value: 7 },
            BlkioEntry { op: "Sync".to_string(), value: 100 },
            BlkioEntry { op: "Read".to_string(), value: 1 },
        ],
    }
}

#[test]
fn stats_from_sample() {
    let s = calculate_stats(&sample());
    // 4 cores * 200 / 1000 = 80%.
    assert_eq!(s.cpu, CpuMetrics::new(8000, 0, 0));
    assert_eq!(s.memory, MemoryMetrics::new(100, 100, 0));
    assert_eq!(s.network, NetworkMetrics::new(11, 22, 33, 44));
    assert_eq!(s.block_io, IoMetrics::new(6, 7));
}

#[test]
fn stats_cpu_zero_without_progress() {
    let mut s = sample();
    s.cpu_total_usage = 100;
    assert_eq!(calculate_stats(&s).cpu.usage_bp, 0);
    let mut t = sample();
    t.system_cpu_usage = None;
    assert_eq!(calculate_stats(&t).cpu.usage_bp, 0);
    let mut u = sample();
    u.online_cpus = None;
    assert_eq!(calculate_stats(&u).cpu.usage_bp, 2000);
    let mut v = sample();
    v.memory_limit = Some(50);
    assert_eq!(calculate_stats(&v).memory.available_bytes, 0);
}

#[test]
fn container_state_names() {
    assert_eq!(map_container_state(&Some("running".to_string())), ContainerState::Running);
    assert_eq!(map_container_state(&Some("paused".to_string())), ContainerState::Paused);
    assert_eq!(map_container_state(&Some("restarting".to_string())), ContainerState::Restarting);
    assert_eq!(map_container_state(&Some("dead".to_string())), ContainerState::Dead);
    assert_eq!(map_container_state(&Some("created".to_string())), ContainerState::Created);
    assert_eq!(map_container_state(&Some("exited".to_string())), ContainerState::Stopped);
    assert_eq!(map_container_state(&Some("weird".to_string())), ContainerState::Stopped);
    assert_eq!(map_container_state(&None), ContainerState::Stopped);
    assert!(ContainerState::Running.is_running());
    assert!(!ContainerState::Paused.is_running());
}

#[test]
fn container_names_and_stack_labels() {
    assert_eq!(parse_container_name(&Some(vec!["/web".to_string(), "/alias".to_string()])), "web");
    assert_eq!(parse_container_name(&Some(Vec::new())), "unknown");
    assert_eq!(parse_container_name(&None), "unknown");
    let labels = vec![
        ("docker.compose.project".to_string(), "alt".to_string()),
        ("com.docker.compose.project".to_string(), "main".to_string()),
    ];
    assert_eq!(extract_stack_name(&labels), Some("main".to_string()));
    let alt = vec![("docker.compose.project".to_string(), "alt".to_string())];
    assert_eq!(extract_stack_name(&alt), Some("alt".to_string()));
    assert_eq!(extract_stack_name(&Vec::new()), None);
}

#[test]
fn listing_is_normalized() {
    let l = ContainerListing {
        id: Some("abc".to_string()),
        names: Some(vec!["/db".to_string()]),
        image: None,
        state: Some("running".to_string()),
        created: Some(1700000000),
        labels: vec![("com.docker.compose.project".to_string(), "shop".to_string())],
    };
    let c = Container::from_listing(&l);
    assert_eq!(c.id.as_str(), "abc");
    assert_eq!(c.name, "db");
    assert_eq!(c.image, "unknown");
    assert_eq!(c.state, ContainerState::Running);
    assert_eq!(c.created_at, 1700000000);
    assert_eq!(c.stack, Some("shop".to_string()));
    assert_eq!(c.cpu.usage_bp, 0);
}

#[test]
fn failed_stats_keep_container_with_zero_metrics() {
    let cs = vec![
        container("a", ContainerState::Running, None),
        container("b", ContainerState::Running, None),
        container("c", ContainerState::Stopped, None),
    ];
    let good = calculate_stats(&sample());
    let out = attach_stats(cs, vec![Some(good), None, Some(good)]);
    assert_eq!(out.len(), 3);
    assert_eq!(out[0].id.as_str(), "a");
    assert_eq!(out[0].cpu.usage_bp, 8000);
    assert_eq!(out[0].network.rx_bytes, 11);
    assert_eq!(out[1].id.as_str(), "b");
    assert_eq!(out[1].cpu.usage_bp, 0);
    assert_eq!(out[1].memory.used_bytes, 0);
    assert_eq!(out[1].network, NetworkMetrics::zero());
    assert_eq!(out[1].block_io, IoMetrics::zero());
    assert_eq!(out[2].cpu.usage_bp, 0);
}

#[test]
fn stacks_group_by_label() {
    let stats = ContainerStats {
        cpu: CpuMetrics::new(100, 0, 0),
        memory: MemoryMetrics::new(1000, 2000, 1000),
        network: NetworkMetrics::zero(),
        block_io: IoMetrics::zero(),
    };
    let cs = vec![
        container("a", ContainerState::Running, Some("shop")),
        container("b", ContainerState::Stopped, Some("blog")),
        container("c", ContainerState::Running, None),
        container("d", ContainerState::Running, Some("shop")),
    ];
    let cs = attach_stats(cs, vec![Some(stats), Some(stats), Some(stats), Some(stats)]);
    let stacks = get_stacks(&cs);
    assert_eq!(stacks.len(), 2);
    assert_eq!(stacks[0].name, "shop");
    assert_eq!(stacks[0].containers_total, 2);
    assert_eq!(stacks[0].containers_running, 2);
    assert_eq!(stacks[0].cpu_bp, 200);
    assert_eq!(stacks[0].memory_bytes, 2000);
    assert_eq!(stacks[1].name, "blog");
    assert_eq!(stacks[1].containers_total, 1);
    assert_eq!(stacks[1].containers_running, 0);
    assert_eq!(stacks[1].cpu_bp, 0);
    let all = Stack::from_containers("all".to_string(), &cs);
    assert_eq!(all.containers_total, 4);
    assert_eq!(all.containers_running, 3);
    assert_eq!(all.cpu_bp, 300);
}
