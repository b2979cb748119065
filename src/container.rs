//! Containers: identity, lifecycle, resource samples and stack aggregation.
use vstd::prelude::*;

use crate::metrics::{basis_points, clamp, CpuMetrics, IoMetrics, MemoryMetrics, NetworkMetrics};
use crate::parser::copy_range;
use crate::text::{chars_of, string_from_chars};

verus! {

/// Opaque identity of a container.
#[derive(Debug, Clone, PartialEq, Eq, Hash)]
pub struct ContainerId(String);

impl View for ContainerId {
    type V = Seq<char>;

    closed spec fn view(&self) -> Seq<char> {
        self.0@
    }
}

impl ContainerId {
    pub fn new(id: String) -> (r: ContainerId)
        ensures
            r@ == id@,
    {
        ContainerId(id)
    }

    pub fn as_str(&self) -> (r: &str)
        ensures
            r@ == self@,
    {
        self.0.as_str()
    }
}

impl From<String> for ContainerId {
    fn from(id: String) -> (r: ContainerId) {
        ContainerId(id)
    }
}

impl vstd::std_specs::convert::FromSpecImpl<String> for ContainerId {
    open spec fn obeys_from_spec() -> bool {
        true
    }

    closed spec fn from_spec(v: String) -> ContainerId {
        ContainerId(v)
    }
}

} // verus!

verus! {

/// Lifecycle state of a container.
#[derive(Debug, Clone, Copy, PartialEq, Eq)]
pub enum ContainerState {
    Running,
    Stopped,
    Paused,
    Restarting,
    Dead,
    Created,
}

impl ContainerState {
    pub fn is_running(&self) -> (r: bool)
        ensures
            r == (*self == ContainerState::Running),
    {
        match self {
            ContainerState::Running => true,
            _ => false,
        }
    }
}

/// The state that a runtime state name stands for; unknown or absent names
/// count as stopped.
pub open spec fn state_named(s: Option<Seq<char>>) -> ContainerState {
    match s {
        Some(n) => if n == "running"@ {
            ContainerState::Running
        } else if n == "paused"@ {
            ContainerState::Paused
        } else if n == "restarting"@ {
            ContainerState::Restarting
        } else if n == "dead"@ {
            ContainerState::Dead
        } else if n == "created"@ {
            ContainerState::Created
        } else {
            ContainerState::Stopped
        },
        None => ContainerState::Stopped,
    }
}

pub open spec fn opt_view(s: Option<String>) -> Option<Seq<char>> {
    match s {
        Some(v) => Some(v@),
        None => None,
    }
}

fn same_text(a: &String, b: &str) -> (r: bool)
    ensures
        r == (a@ == b@),
{
    let o = b.to_owned();
    *a == o
}

pub fn map_container_state(state: &Option<String>) -> (r: ContainerState)
    ensures
        r == state_named(opt_view(*state)),
{
    match state {
        Some(s) => {
            if same_text(s, "running") {
                ContainerState::Running
            } else if same_text(s, "paused") {
                ContainerState::Paused
            } else if same_text(s, "restarting") {
                ContainerState::Restarting
            } else if same_text(s, "dead") {
                ContainerState::Dead
            } else if same_text(s, "created") {
                ContainerState::Created
            } else {
                ContainerState::Stopped
            }
        },
        None => ContainerState::Stopped,
    }
}

/// `s` without its leading `/` characters.
pub open spec fn strip_slashes(s: Seq<char>) -> Seq<char>
    decreases s.len(),
{
    if s.len() > 0 && s[0] == '/' {
        strip_slashes(s.drop_first())
    } else {
        s
    }
}

/// The display name: the first name without its leading `/`, or `unknown`.
pub open spec fn container_name_of(names: Option<Vec<String>>) -> Seq<char> {
    match names {
        Some(v) => if v@.len() > 0 {
            strip_slashes(v@[0]@)
        } else {
            "unknown"@
        },
        None => "unknown"@,
    }
}

pub fn parse_container_name(names: &Option<Vec<String>>) -> (r: String)
    ensures
        r@ == container_name_of(*names),
{
    match names {
        Some(v) => {
            if v.len() > 0 {
                let cs = chars_of(v[0].as_str());
                let mut a: usize = 0;
                assert(cs@.subrange(0, cs@.len() as int) =~= cs@);
                while a < cs.len() && cs[a] == '/'
                    invariant
                        a <= cs@.len(),
                        strip_slashes(cs@) == strip_slashes(cs@.subrange(a as int, cs@.len() as int)),
                    decreases cs@.len() - a,
                {
                    assert(cs@.subrange(a as int, cs@.len() as int).drop_first() =~= cs@.subrange(
                        a + 1,
                        cs@.len() as int,
                    ));
                    a += 1;
                }
                let rest = copy_range(&cs, a, cs.len());
                string_from_chars(rest.as_slice())
            } else {
                "unknown".to_owned()
            }
        },
        None => "unknown".to_owned(),
    }
}

/// The value of the first label named `key`.
pub open spec fn label_value(labels: Seq<(String, String)>, key: Seq<char>) -> Option<String>
    decreases labels.len(),
{
    if labels.len() == 0 {
        None
    } else if labels[0].0@ == key {
        Some(labels[0].1)
    } else {
        label_value(labels.drop_first(), key)
    }
}

fn find_label(labels: &Vec<(String, String)>, key: &str) -> (r: Option<String>)
    ensures
        r == label_value(labels@, key@),
{
    let mut i: usize = 0;
    assert(labels@.skip(0) =~= labels@);
    while i < labels.len()
        invariant
            i <= labels@.len(),
            label_value(labels@, key@) == label_value(labels@.skip(i as int), key@),
        decreases labels@.len() - i,
    {
        assert(labels@.skip(i as int)[0] == labels@[i as int]);
        assert(labels@.skip(i as int).drop_first() =~= labels@.skip(i + 1));
        if same_text(&labels[i].0, key) {
            return Some(labels[i].1.clone());
        }
        i += 1;
    }
    None
}

/// The stack label: the compose project label, or the alternate key without
/// the `com.` prefix.
pub open spec fn stack_label_of(labels: Seq<(String, String)>) -> Option<String> {
    match label_value(labels, "com.docker.compose.project"@) {
        Some(v) => Some(v),
        None => label_value(labels, "docker.compose.project"@),
    }
}

pub fn extract_stack_name(labels: &Vec<(String, String)>) -> (r: Option<String>)
    ensures
        r == stack_label_of(labels@),
{
    match find_label(labels, "com.docker.compose.project") {
        Some(v) => Some(v),
        None => find_label(labels, "docker.compose.project"),
    }
}

} // verus!

verus! {

/// A container and its resource usage; metrics stay zero unless it runs.
#[derive(Debug, Clone)]
pub struct Container {
    pub id: ContainerId,
    pub name: String,
    pub image: String,
    /// The group the container was deployed with, such as a compose project.
    pub stack: Option<String>,
    pub state: ContainerState,
    /// Creation time, in seconds since the Unix epoch.
    pub created_at: i64,
    pub cpu: CpuMetrics,
    pub memory: MemoryMetrics,
    pub network: NetworkMetrics,
    pub block_io: IoMetrics,
}

pub open spec fn zero_container_cpu() -> CpuMetrics {
    CpuMetrics { usage_bp: 0, user_bp: 0, system_bp: 0, iowait_bp: None }
}

pub open spec fn zero_memory() -> MemoryMetrics {
    MemoryMetrics {
        used_bytes: 0,
        total_bytes: 0,
        available_bytes: 0,
        cached_bytes: None,
        swap_used_bytes: None,
    }
}

pub open spec fn zero_network() -> NetworkMetrics {
    NetworkMetrics { rx_bytes: 0, tx_bytes: 0, rx_errors: 0, tx_errors: 0 }
}

pub open spec fn zero_io() -> IoMetrics {
    IoMetrics { read_bytes: 0, write_bytes: 0 }
}

/// All four metric groups are zero.
pub open spec fn has_zero_metrics(c: Container) -> bool {
    c.cpu == zero_container_cpu() && c.memory == zero_memory() && c.network == zero_network()
        && c.block_io == zero_io()
}

impl Container {
    pub fn new(
        id: ContainerId,
        name: String,
        image: String,
        state: ContainerState,
        created_at: i64,
    ) -> (r: Container)
        ensures
            r.id == id,
            r.name == name,
            r.image == image,
            r.stack is None,
            r.state == state,
            r.created_at == created_at,
            has_zero_metrics(r),
    {
        Container {
            id,
            name,
            image,
            stack: None,
            state,
            created_at,
            cpu: CpuMetrics::new(0, 0, 0),
            memory: MemoryMetrics::new(0, 0, 0),
            network: NetworkMetrics::zero(),
            block_io: IoMetrics::zero(),
        }
    }

    pub fn with_stack(self, stack: Option<String>) -> (r: Container)
        ensures
            r == (Container { stack, ..self }),
    {
        Container { stack, ..self }
    }

    pub fn with_metrics(
        self,
        cpu: CpuMetrics,
        memory: MemoryMetrics,
        network: NetworkMetrics,
        block_io: IoMetrics,
    ) -> (r: Container)
        ensures
            r == (Container { cpu, memory, network, block_io, ..self }),
    {
        Container { cpu, memory, network, block_io, ..self }
    }
}

/// What the runtime's container list says of one container.
#[derive(Debug, Clone)]
pub struct ContainerListing {
    pub id: Option<String>,
    pub names: Option<Vec<String>>,
    pub image: Option<String>,
    pub state: Option<String>,
    pub created: Option<i64>,
    /// The container's labels, each key once.
    pub labels: Vec<(String, String)>,
}

/// The container that a listing entry describes, metrics zero.
pub open spec fn listed_container(l: ContainerListing, c: Container) -> bool {
    &&& c.id@ == match l.id {
        Some(s) => s@,
        None => seq![],
    }
    &&& c.name@ == container_name_of(l.names)
    &&& c.image@ == match l.image {
        Some(s) => s@,
        None => "unknown"@,
    }
    &&& c.state == state_named(opt_view(l.state))
    &&& c.created_at == match l.created {
        Some(t) => t,
        None => 0,
    }
    &&& c.stack == stack_label_of(l.labels@)
    &&& has_zero_metrics(c)
}

impl Container {
    /// Normalizes one entry of the runtime's container list.
    pub fn from_listing(l: &ContainerListing) -> (r: Container)
        ensures
            listed_container(*l, r),
    {
        let id = match &l.id {
            Some(s) => s.clone(),
            None => String::new(),
        };
        let image = match &l.image {
            Some(s) => s.clone(),
            None => "unknown".to_owned(),
        };
        let created = match l.created {
            Some(t) => t,
            None => 0,
        };
        Container::new(
            ContainerId::new(id),
            parse_container_name(&l.names),
            image,
            map_container_state(&l.state),
            created,
        ).with_stack(extract_stack_name(&l.labels))
    }
}

/// The normalized resource usage of one container.
#[derive(Debug, Clone, Copy, PartialEq, Eq)]
pub struct ContainerStats {
    pub cpu: CpuMetrics,
    pub memory: MemoryMetrics,
    pub network: NetworkMetrics,
    pub block_io: IoMetrics,
}

/// Containers keep their order and identity; a running container whose
/// sample arrived takes its metrics, every other keeps zeroed metrics.
pub open spec fn attached(cs: Seq<Container>, stats: Seq<Option<ContainerStats>>, r: Seq<Container>) -> bool {
    &&& r.len() == cs.len()
    &&& forall|i: int|
        0 <= i < cs.len() ==> #[trigger] r[i] == match stats[i] {
            Some(s) => if cs[i].state == ContainerState::Running {
                Container { cpu: s.cpu, memory: s.memory, network: s.network, block_io: s.block_io, ..cs[i] }
            } else {
                cs[i]
            },
            None => cs[i],
        }
}

/// Gives each running container the sample fetched for it. A container whose
/// sample could not be fetched stays in the list with the metrics it had.
pub fn attach_stats(containers: Vec<Container>, stats: Vec<Option<ContainerStats>>) -> (r: Vec<
    Container,
>)
    requires
        containers@.len() == stats@.len(),
    ensures
        attached(containers@, stats@, r@),
{
    let ghost cs = containers@;
    let mut rest = containers;
    let mut out: Vec<Container> = Vec::new();
    let mut i: usize = 0;
    while rest.len() > 0
        invariant
            cs.len() == stats@.len(),
            i + rest@.len() == cs.len(),
            i + rest.len() == stats.len(),
            rest@ == cs.skip(i as int),
            out@.len() == i,
            forall|k: int|
                0 <= k < i ==> #[trigger] out@[k] == match stats@[k] {
                    Some(s) => if cs[k].state == ContainerState::Running {
                        Container { cpu: s.cpu, memory: s.memory, network: s.network, block_io: s.block_io, ..cs[k] }
                    } else {
                        cs[k]
                    },
                    None => cs[k],
                },
        decreases rest@.len(),
    {
        let c = rest.remove(0);
        assert(c == cs[i as int]);
        assert(rest@ =~= cs.skip(i + 1));
        let updated = match &stats[i] {
            Some(s) => {
                if c.state.is_running() {
                    c.with_metrics(s.cpu, s.memory, s.network, s.block_io)
                } else {
                    c
                }
            },
            None => c,
        };
        out.push(updated);
        i += 1;
    }
    out
}

} // verus!

verus! {

/// One block-I/O entry of a sample: the operation and its byte count.
#[derive(Debug, Clone)]
pub struct BlkioEntry {
    pub op: String,
    pub value: u64,
}

/// One resource sample of a container, as the runtime's one-shot mode gives
/// it: the current and the previous CPU counters, memory, and the per-interface
/// and per-device counters.
#[derive(Debug, Clone)]
pub struct StatsSample {
    pub cpu_total_usage: u64,
    pub precpu_total_usage: u64,
    pub system_cpu_usage: Option<u64>,
    pub precpu_system_cpu_usage: Option<u64>,
    pub online_cpus: Option<u64>,
    pub memory_usage: Option<u64>,
    pub memory_limit: Option<u64>,
    pub networks: Vec<NetworkMetrics>,
    pub blkio: Vec<BlkioEntry>,
}

pub open spec fn or_zero(o: Option<u64>) -> u64 {
    match o {
        Some(v) => v,
        None => 0,
    }
}

/// CPU share of the sample: cores times container ticks over system ticks,
/// in basis points; 0 unless both deltas are positive.
pub open spec fn container_cpu_bp(s: StatsSample) -> u64 {
    let cpu_delta = s.cpu_total_usage - s.precpu_total_usage;
    let system_delta = or_zero(s.system_cpu_usage) - or_zero(s.precpu_system_cpu_usage);
    let cpus = match s.online_cpus {
        Some(n) => n,
        None => 1,
    };
    if cpu_delta > 0 && system_delta > 0 {
        clamp(basis_points(cpu_delta * cpus, system_delta))
    } else {
        0
    }
}

pub open spec fn net_sum(v: Seq<NetworkMetrics>, f: spec_fn(NetworkMetrics) -> u64) -> int
    decreases v.len(),
{
    if v.len() == 0 {
        0
    } else {
        net_sum(v.drop_last(), f) + f(v.last())
    }
}

/// Bytes of the entries whose operation is `op`.
pub open spec fn op_sum(v: Seq<BlkioEntry>, op: Seq<char>) -> int
    decreases v.len(),
{
    if v.len() == 0 {
        0
    } else {
        op_sum(v.drop_last(), op) + if v.last().op@ == op {
            v.last().value as int
        } else {
            0
        }
    }
}

/// The normalized usage of a sample. Memory limit defaults to the usage, so
/// available is never negative; counters are summed over interfaces and over
/// `Read` and `Write` entries, saturating at `u64::MAX`.
pub open spec fn stats_of(s: StatsSample) -> ContainerStats {
    let used = or_zero(s.memory_usage);
    let limit = match s.memory_limit {
        Some(l) => l,
        None => used,
    };
    ContainerStats {
        cpu: CpuMetrics { usage_bp: container_cpu_bp(s), user_bp: 0, system_bp: 0, iowait_bp: None },
        memory: MemoryMetrics {
            used_bytes: used,
            total_bytes: limit,
            available_bytes: if limit >= used {
                (limit - used) as u64
            } else {
                0
            },
            cached_bytes: None,
            swap_used_bytes: None,
        },
        network: NetworkMetrics {
            rx_bytes: clamp(net_sum(s.networks@, |m: NetworkMetrics| m.rx_bytes)),
            tx_bytes: clamp(net_sum(s.networks@, |m: NetworkMetrics| m.tx_bytes)),
            rx_errors: clamp(net_sum(s.networks@, |m: NetworkMetrics| m.rx_errors)),
            tx_errors: clamp(net_sum(s.networks@, |m: NetworkMetrics| m.tx_errors)),
        },
        block_io: IoMetrics {
            read_bytes: clamp(op_sum(s.blkio@, "Read"@)),
            write_bytes: clamp(op_sum(s.blkio@, "Write"@)),
        },
    }
}

proof fn lemma_big_ratio(x: int, d: int)
    requires
        x > u128::MAX / 10000,
        0 < d <= u64::MAX,
    ensures
        x * 10000 / d > u64::MAX,
{
    assert(x * 10000 >= u128::MAX - 9999) by (nonlinear_arith)
        requires
            x > u128::MAX / 10000,
    ;
    assert(x * 10000 / d >= (u128::MAX - 9999) / d) by (nonlinear_arith)
        requires
            x * 10000 >= u128::MAX - 9999,
            d > 0,
    ;
    assert((u128::MAX - 9999) / d >= (u128::MAX - 9999) / (u64::MAX as int)) by (nonlinear_arith)
        requires
            0 < d <= u64::MAX,
    ;
    let m = u64::MAX as int;
    let a = u128::MAX - 9999;
    assert(a == m * (m + 1) + (m - 9999));
    assert(a / m == m + 1) by (nonlinear_arith)
        requires
            a == m * (m + 1) + (m - 9999),
            m > 9999,
    ;
}

fn cpu_bp_of(s: &StatsSample) -> (r: u64)
    ensures
        r == container_cpu_bp(*s),
{
    let sys = match s.system_cpu_usage {
        Some(v) => v,
        None => 0,
    };
    let presys = match s.precpu_system_cpu_usage {
        Some(v) => v,
        None => 0,
    };
    let cpus = match s.online_cpus {
        Some(n) => n,
        None => 1,
    };
    if s.cpu_total_usage <= s.precpu_total_usage || sys <= presys {
        return 0;
    }
    let cpu_delta = (s.cpu_total_usage - s.precpu_total_usage) as u128;
    let system_delta = (sys - presys) as u128;
    let c128 = cpus as u128;
    assert(cpu_delta * c128 <= u128::MAX) by (nonlinear_arith)
        requires
            cpu_delta <= u64::MAX,
            c128 <= u64::MAX,
    ;
    let x = cpu_delta * c128;
    if x > u128::MAX / 10000 {
        proof {
            lemma_big_ratio(x as int, system_delta as int);
        }
        return u64::MAX;
    }
    let q = x * 10000 / system_delta;
    if q > u64::MAX as u128 {
        u64::MAX
    } else {
        q as u64
    }
}

} // verus!

verus! {

proof fn lemma_net_sum_nonneg(v: Seq<NetworkMetrics>, f: spec_fn(NetworkMetrics) -> u64)
    ensures
        net_sum(v, f) >= 0,
    decreases v.len(),
{
    if v.len() > 0 {
        lemma_net_sum_nonneg(v.drop_last(), f);
    }
}

proof fn lemma_op_sum_nonneg(v: Seq<BlkioEntry>, op: Seq<char>)
    ensures
        op_sum(v, op) >= 0,
    decreases v.len(),
{
    if v.len() > 0 {
        lemma_op_sum_nonneg(v.drop_last(), op);
    }
}

fn sum_networks(v: &Vec<NetworkMetrics>) -> (r: NetworkMetrics)
    ensures
        r.rx_bytes == clamp(net_sum(v@, |m: NetworkMetrics| m.rx_bytes)),
        r.tx_bytes == clamp(net_sum(v@, |m: NetworkMetrics| m.tx_bytes)),
        r.rx_errors == clamp(net_sum(v@, |m: NetworkMetrics| m.rx_errors)),
        r.tx_errors == clamp(net_sum(v@, |m: NetworkMetrics| m.tx_errors)),
{
    let mut rx: u64 = 0;
    let mut tx: u64 = 0;
    let mut rxe: u64 = 0;
    let mut txe: u64 = 0;
    let mut i: usize = 0;
    while i < v.len()
        invariant
            i <= v@.len(),
            rx == clamp(net_sum(v@.take(i as int), |m: NetworkMetrics| m.rx_bytes)),
            tx == clamp(net_sum(v@.take(i as int), |m: NetworkMetrics| m.tx_bytes)),
            rxe == clamp(net_sum(v@.take(i as int), |m: NetworkMetrics| m.rx_errors)),
            txe == clamp(net_sum(v@.take(i as int), |m: NetworkMetrics| m.tx_errors)),
        decreases v@.len() - i,
    {
        assert(v@.take(i + 1).drop_last() =~= v@.take(i as int));
        assert(v@.take(i + 1).last() == v@[i as int]);
        let ghost t = v@.take(i + 1);
        proof {
            lemma_net_sum_nonneg(v@.take(i as int), |m: NetworkMetrics| m.rx_bytes);
            lemma_net_sum_nonneg(v@.take(i as int), |m: NetworkMetrics| m.tx_bytes);
            lemma_net_sum_nonneg(v@.take(i as int), |m: NetworkMetrics| m.rx_errors);
            lemma_net_sum_nonneg(v@.take(i as int), |m: NetworkMetrics| m.tx_errors);
        }
        assert(net_sum(t, |m: NetworkMetrics| m.rx_bytes) == net_sum(
            v@.take(i as int),
            |m: NetworkMetrics| m.rx_bytes,
        ) + v@[i as int].rx_bytes);
        assert(net_sum(t, |m: NetworkMetrics| m.tx_bytes) == net_sum(
            v@.take(i as int),
            |m: NetworkMetrics| m.tx_bytes,
        ) + v@[i as int].tx_bytes);
        assert(net_sum(t, |m: NetworkMetrics| m.rx_errors) == net_sum(
            v@.take(i as int),
            |m: NetworkMetrics| m.rx_errors,
        ) + v@[i as int].rx_errors);
        assert(net_sum(t, |m: NetworkMetrics| m.tx_errors) == net_sum(
            v@.take(i as int),
            |m: NetworkMetrics| m.tx_errors,
        ) + v@[i as int].tx_errors);
        rx = rx.saturating_add(v[i].rx_bytes);
        tx = tx.saturating_add(v[i].tx_bytes);
        rxe = rxe.saturating_add(v[i].rx_errors);
        txe = txe.saturating_add(v[i].tx_errors);
        i += 1;
    }
    assert(v@.take(i as int) =~= v@);
    NetworkMetrics::new(rx, tx, rxe, txe)
}

fn sum_op(v: &Vec<BlkioEntry>, op: &str) -> (r: u64)
    ensures
        r == clamp(op_sum(v@, op@)),
{
    let mut total: u64 = 0;
    let mut i: usize = 0;
    while i < v.len()
        invariant
            i <= v@.len(),
            total == clamp(op_sum(v@.take(i as int), op@)),
        decreases v@.len() - i,
    {
        assert(v@.take(i + 1).drop_last() =~= v@.take(i as int));
        assert(v@.take(i + 1).last() == v@[i as int]);
        let ghost prev = op_sum(v@.take(i as int), op@);
        proof {
            lemma_op_sum_nonneg(v@.take(i as int), op@);
        }
        if same_text(&v[i].op, op) {
            assert(op_sum(v@.take(i + 1), op@) == prev + v@[i as int].value);
            total = total.saturating_add(v[i].value);
        } else {
            assert(op_sum(v@.take(i + 1), op@) == prev);
        }
        i += 1;
    }
    assert(v@.take(i as int) =~= v@);
    total
}

/// Converts one resource sample into the normalized metric shapes.
pub fn calculate_stats(sample: &StatsSample) -> (r: ContainerStats)
    ensures
        r == stats_of(*sample),
{
    let memory_used = match sample.memory_usage {
        Some(v) => v,
        None => 0,
    };
    let memory_limit = match sample.memory_limit {
        Some(v) => v,
        None => memory_used,
    };
    let memory_available = memory_limit.saturating_sub(memory_used);
    ContainerStats {
        cpu: CpuMetrics::new(cpu_bp_of(sample), 0, 0),
        memory: MemoryMetrics::new(memory_used, memory_limit, memory_available),
        network: sum_networks(&sample.networks),
        block_io: IoMetrics::new(sum_op(&sample.blkio, "Read"), sum_op(&sample.blkio, "Write")),
    }
}

} // verus!

verus! {

/// Containers deployed together, aggregated at query time.
#[derive(Debug, Clone)]
pub struct Stack {
    pub name: String,
    pub containers_total: usize,
    pub containers_running: usize,
    /// Summed CPU share of the members, in basis points.
    pub cpu_bp: u64,
    pub memory_bytes: u64,
}

/// `c` carries the stack label `name`.
pub open spec fn in_stack(c: Container, name: Seq<char>) -> bool {
    c.stack matches Some(s) && s@ == name
}

/// Members of the stack `name` among `cs`; with `name` absent, every container counts.
pub open spec fn counts(c: Container, name: Option<Seq<char>>) -> bool {
    match name {
        Some(n) => in_stack(c, n),
        None => true,
    }
}

pub open spec fn member_count(cs: Seq<Container>, name: Option<Seq<char>>) -> int
    decreases cs.len(),
{
    if cs.len() == 0 {
        0
    } else {
        member_count(cs.drop_last(), name) + if counts(cs.last(), name) {
            1int
        } else {
            0
        }
    }
}

pub open spec fn running_count(cs: Seq<Container>, name: Option<Seq<char>>) -> int
    decreases cs.len(),
{
    if cs.len() == 0 {
        0
    } else {
        running_count(cs.drop_last(), name) + if counts(cs.last(), name) && cs.last().state
            == ContainerState::Running {
            1int
        } else {
            0
        }
    }
}

pub open spec fn cpu_total(cs: Seq<Container>, name: Option<Seq<char>>) -> int
    decreases cs.len(),
{
    if cs.len() == 0 {
        0
    } else {
        cpu_total(cs.drop_last(), name) + if counts(cs.last(), name) {
            cs.last().cpu.usage_bp as int
        } else {
            0
        }
    }
}

pub open spec fn memory_total(cs: Seq<Container>, name: Option<Seq<char>>) -> int
    decreases cs.len(),
{
    if cs.len() == 0 {
        0
    } else {
        memory_total(cs.drop_last(), name) + if counts(cs.last(), name) {
            cs.last().memory.used_bytes as int
        } else {
            0
        }
    }
}

/// `st` aggregates the members of `name` among `cs` (all of `cs` when `name`
/// is absent): their number, how many run, and their summed CPU share and
/// used memory, each sum saturated.
pub open spec fn aggregates(st: Stack, cs: Seq<Container>, name: Option<Seq<char>>) -> bool {
    &&& st.containers_total == member_count(cs, name)
    &&& st.containers_running == running_count(cs, name)
    &&& st.cpu_bp == clamp(cpu_total(cs, name))
    &&& st.memory_bytes == clamp(memory_total(cs, name))
}

proof fn lemma_totals(cs: Seq<Container>, name: Option<Seq<char>>)
    ensures
        0 <= running_count(cs, name) <= member_count(cs, name) <= cs.len(),
        cpu_total(cs, name) >= 0,
        memory_total(cs, name) >= 0,
    decreases cs.len(),
{
    if cs.len() > 0 {
        lemma_totals(cs.drop_last(), name);
    }
}

fn aggregate(name: String, containers: &Vec<Container>, filter: bool) -> (r: Stack)
    ensures
        r.name == name,
        aggregates(r, containers@, if filter { Some(name@) } else { None }),
{
    let ghost key = if filter {
        Some(name@)
    } else {
        None
    };
    let mut total: usize = 0;
    let mut running: usize = 0;
    let mut cpu: u64 = 0;
    let mut memory: u64 = 0;
    let mut i: usize = 0;
    while i < containers.len()
        invariant
            i <= containers@.len(),
            key == (if filter { Some(name@) } else { None }),
            total == member_count(containers@.take(i as int), key),
            running == running_count(containers@.take(i as int), key),
            cpu == clamp(cpu_total(containers@.take(i as int), key)),
            memory == clamp(memory_total(containers@.take(i as int), key)),
        decreases containers@.len() - i,
    {
        let ghost pre = containers@.take(i as int);
        let ghost t = containers@.take(i + 1);
        assert(t.drop_last() =~= pre);
        assert(t.last() == containers@[i as int]);
        proof {
            lemma_totals(pre, key);
        }
        let c = &containers[i];
        let member = if filter {
            match &c.stack {
                Some(s) => *s == name,
                None => false,
            }
        } else {
            true
        };
        assert(member == counts(*c, key));
        if member {
            total += 1;
            if c.state.is_running() {
                running += 1;
            }
            cpu = cpu.saturating_add(c.cpu.usage_bp);
            memory = memory.saturating_add(c.memory.used_bytes);
        }
        i += 1;
    }
    assert(containers@.take(i as int) =~= containers@);
    Stack { name, containers_total: total, containers_running: running, cpu_bp: cpu, memory_bytes: memory }
}

impl Stack {
    /// Aggregates the given containers under the stack name `name`.
    pub fn from_containers(name: String, containers: &Vec<Container>) -> (r: Stack)
        ensures
            r.name == name,
            aggregates(r, containers@, None),
    {
        aggregate(name, containers, false)
    }
}

/// The distinct stack labels of `cs`, in order of first appearance.
pub open spec fn stack_names(cs: Seq<Container>) -> Seq<Seq<char>>
    decreases cs.len(),
{
    if cs.len() == 0 {
        seq![]
    } else {
        let prev = stack_names(cs.drop_last());
        match cs.last().stack {
            Some(s) => if prev.contains(s@) {
                prev
            } else {
                prev.push(s@)
            },
            None => prev,
        }
    }
}

/// Groups the containers by stack label: one aggregate per distinct label, in
/// order of first appearance; unlabelled containers belong to no stack.
pub fn get_stacks(containers: &Vec<Container>) -> (r: Vec<Stack>)
    ensures
        r@.len() == stack_names(containers@).len(),
        forall|k: int|
            0 <= k < r@.len() ==> (#[trigger] r@[k]).name@ == stack_names(containers@)[k]
                && aggregates(r@[k], containers@, Some(stack_names(containers@)[k])),
{
    let mut names: Vec<String> = Vec::new();
    let mut i: usize = 0;
    while i < containers.len()
        invariant
            i <= containers@.len(),
            names@.map_values(|s: String| s@) == stack_names(containers@.take(i as int)),
        decreases containers@.len() - i,
    {
        let ghost pre = containers@.take(i as int);
        assert(containers@.take(i + 1).drop_last() =~= pre);
        assert(containers@.take(i + 1).last() == containers@[i as int]);
        let ghost nv = names@.map_values(|s: String| s@);
        match &containers[i].stack {
            Some(s) => {
                let mut found = false;
                let mut k: usize = 0;
                while k < names.len()
                    invariant
                        k <= names@.len(),
                        nv == names@.map_values(|s: String| s@),
                        found <==> exists|j: int| 0 <= j < k && nv[j] == s@,
                    decreases names@.len() - k,
                {
                    assert(nv[k as int] == names@[k as int]@);
                    if names[k] == *s {
                        found = true;
                    }
                    assert(found <==> exists|j: int| 0 <= j < k + 1 && nv[j] == s@) by {
                        if nv[k as int] == s@ {
                            assert(0 <= k < k + 1 && nv[k as int] == s@);
                        }
                    }
                    k += 1;
                }
                assert(found <==> nv.contains(s@));
                if !found {
                    names.push(s.clone());
                    assert(names@.map_values(|s: String| s@) =~= nv.push(s@));
                }
            },
            None => {},
        }
        i += 1;
    }
    assert(containers@.take(i as int) =~= containers@);
    let ghost sn = stack_names(containers@);
    let mut stacks: Vec<Stack> = Vec::new();
    let mut k: usize = 0;
    while k < names.len()
        invariant
            k <= names@.len(),
            names@.map_values(|s: String| s@) == sn,
            sn == stack_names(containers@),
            stacks@.len() == k,
            forall|j: int|
                0 <= j < k ==> (#[trigger] stacks@[j]).name@ == sn[j] && aggregates(
                    stacks@[j],
                    containers@,
                    Some(sn[j]),
                ),
        decreases names@.len() - k,
    {
        assert(names@[k as int]@ == sn[k as int]);
        let st = aggregate(names[k].clone(), containers, true);
        stacks.push(st);
        k += 1;
    }
    stacks
}

} // verus!
