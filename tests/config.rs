use nanomon::config::{default_limit, default_sort, Config, ProcessQuery};
use nanomon::container::{Container, ContainerId, ContainerState};
use nanomon::host::Host;
use nanomon::process::{Process, ProcessState};
use nanomon::resource::{MonitoredResource, ResourceType};
use nanomon::system::{ProcfsAdapter, ProcfsConfig};

#[test]
fn config_defaults() {
    let c = Config::from_values(None, None, None, None, None, None, None, None);
    assert_eq!(c.port, 3000);
    assert_eq!(c.poll_interval, 10);
    assert_eq!(c.history_size, 360);
    assert_eq!(c.process_limit, 20);
    assert_eq!(c.docker_socket, "unix:///var/run/docker.sock");
    assert_eq!(c.proc_path, "/proc");
    assert_eq!(c.sys_path, "/sys");
    assert_eq!(c.log_level, "info");
}

#[test]
fn config_values_and_malformed_numbers() {
    let c = Config::from_values(
        Some("8080"),
        Some("x"),
        Some("+12"),
        Some("5"),
        Some("tcp://h:2375"),
        Some("/host/proc"),
        Some("/host/sys"),
        Some("debug"),
    );
    assert_eq!(c.port, 8080);
    assert_eq!(c.poll_interval, 10);
    assert_eq!(c.history_size, 12);
    assert_eq!(c.process_limit, 5);
    assert_eq!(c.proc_path, "/host/proc");
    let big = Config::from_values(Some("70000"), None, None, None, None, None, None, None);
    assert_eq!(big.port, 3000);
}

#[test]
fn process_query_defaults() {
    assert_eq!(default_sort(), "cpu");
    assert_eq!(default_limit(), 20);
    let q = ProcessQuery { sort: "memory".to_string(), limit: 5 };
    assert!(q.by_memory());
    let r = ProcessQuery { sort: default_sort(), limit: default_limit() };
    assert!(!r.by_memory());
}

#[test]
fn procfs_paths() {
    let host = ProcfsConfig::host();
    assert_eq!(host.proc_path, "/proc");
    assert_eq!(host.sys_path, "/sys");
    let custom = ProcfsConfig::new("/p".to_string(), "/s".to_string());
    let adapter = ProcfsAdapter::new(custom);
    assert_eq!(adapter.system_source().config().proc_path, "/p");
    assert_eq!(adapter.process_source().config().sys_path, "/s");
}

#[test]
fn monitored_resources() {
    let h = Host::new("box".to_string());
    assert_eq!(h.resource_type(), ResourceType::Host);
    assert_eq!(h.name(), "box");
    assert!(h.is_healthy());
    let c = Container::new(ContainerId::from("id1".to_string()), "web".to_string(), "img".to_string(), ContainerState::Paused, 0);
    assert_eq!(c.id.as_str(), "id1");
    assert_eq!(c.resource_type(), ResourceType::Container);
    assert_eq!(c.name(), "web");
    assert!(!c.is_healthy());
    assert_eq!(c.memory_bytes(), Some(0));
    let p = Process::new(1, 0, "root".to_string(), "init".to_string(), ProcessState::Zombie)
        .with_metrics(250, 10, 4096);
    assert_eq!(p.resource_type(), ResourceType::Process);
    assert_eq!(p.name(), "init");
    assert_eq!(p.cpu_bp(), Some(250));
    assert_eq!(p.memory_bytes(), Some(4096));
    assert!(!p.is_healthy());
}
