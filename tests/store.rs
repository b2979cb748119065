use nanomon::host::Host;
use nanomon::store::{ArcMemoryStore, MemoryStore, MetricStore};

fn snap(n: i64) -> Host {
    Host::new(format!("h{}", n)).with_timestamp(n)
}

#[test]
fn store_keeps_the_newest_in_order() {
    let mut s = ArcMemoryStore::new(3);
    for n in 1..=5 {
        s.store(snap(n));
    }
    assert_eq!(s.len(), 3);
    let all = s.history_since(5, 100);
    let names: Vec<String> = all.iter().map(|h| h.hostname.clone()).collect();
    assert_eq!(names, vec!["h3", "h4", "h5"]);
    assert_eq!(s.get_latest().unwrap().hostname, "h5");
}

#[test]
fn empty_store() {
    let s = ArcMemoryStore::with_default_size();
    assert!(s.is_empty());
    assert_eq!(s.len(), 0);
    assert!(s.get_latest().is_none());
    assert!(s.get_history(1000).is_empty());
}

#[test]
fn history_window_excludes_older_snapshots() {
    let mut s = ArcMemoryStore::new(10);
    for n in [100, 200, 300, 400] {
        s.store(snap(n));
    }
    let recent = s.history_since(400, 150);
    let stamps: Vec<i64> = recent.iter().map(|h| h.timestamp).collect();
    assert_eq!(stamps, vec![300, 400]);
    assert_eq!(s.history_since(400, 200).len(), 3);
}

#[test]
fn handles_survive_eviction() {
    let mut s = ArcMemoryStore::new(1);
    s.store(snap(1));
    let latest = s.get_latest().unwrap();
    s.store(snap(2));
    assert_eq!(latest.timestamp, 1);
    assert_eq!(s.get_latest().unwrap().timestamp, 2);
    assert_eq!(s.len(), 1);
}

#[test]
fn history_by_current_time() {
    let mut s = ArcMemoryStore::new(4);
    s.store(Host::new("now".to_string()));
    s.store(snap(1));
    let h = s.get_history(60_000);
    assert_eq!(h.len(), 1);
    assert_eq!(h[0].hostname, "now");
}

#[test]
fn reference_store_evicts_oldest() {
    let mut s = MemoryStore::new(2);
    assert!(s.is_empty());
    assert!(s.get_latest().is_none());
    s.store(snap(1));
    s.store(snap(2));
    s.store(Host::new("now".to_string()));
    assert_eq!(s.len(), 2);
    assert_eq!(s.get_latest().unwrap().hostname, "now");
    let recent = s.get_history(60_000);
    assert_eq!(recent.len(), 1);
    assert_eq!(MemoryStore::with_default_size().len(), 0);
}
