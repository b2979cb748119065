//! Per-process metrics: parsing a process's records, its CPU and memory
//! share, its owner and container, and the top-N views.
use vstd::prelude::*;

use crate::container::ContainerId;
use crate::metrics::{basis_points, clamp, ratio_bp};
use crate::parser::{
    copy_range, first_uid_line, map_of, meminfo_entries, parse_meminfo, parse_proc_stat,
    parse_proc_status_uid, parse_uptime, proc_stat_of, u32_of, uptime_of, ParseError,
};
use crate::system::ProcfsConfig;
use crate::text::{
    chars_of, decimal_digits, find_char, first_index, lines, parse_uint, push_decimal,
    split_lines, string_from_chars, tokens, trim, trimmed, views,
};

verus! {

/// Lifecycle state of a process.
#[derive(Debug, Clone, Copy, PartialEq, Eq)]
pub enum ProcessState {
    Running,
    Sleeping,
    Waiting,
    Zombie,
    Stopped,
    TracingStop,
    Dead,
    Unknown,
}

pub open spec fn state_of(c: char) -> ProcessState {
    if c == 'R' {
        ProcessState::Running
    } else if c == 'S' {
        ProcessState::Sleeping
    } else if c == 'D' {
        ProcessState::Waiting
    } else if c == 'Z' {
        ProcessState::Zombie
    } else if c == 'T' {
        ProcessState::Stopped
    } else if c == 't' {
        ProcessState::TracingStop
    } else if c == 'X' || c == 'x' {
        ProcessState::Dead
    } else {
        ProcessState::Unknown
    }
}

impl ProcessState {
    /// The state that the kernel's state letter stands for.
    pub fn from_char(c: char) -> (r: ProcessState)
        ensures
            r == state_of(c),
    {
        match c {
            'R' => ProcessState::Running,
            'S' => ProcessState::Sleeping,
            'D' => ProcessState::Waiting,
            'Z' => ProcessState::Zombie,
            'T' => ProcessState::Stopped,
            't' => ProcessState::TracingStop,
            'X' | 'x' => ProcessState::Dead,
            _ => ProcessState::Unknown,
        }
    }
}

/// A process with its metrics; CPU and memory shares are in basis points.
#[derive(Debug, Clone)]
pub struct Process {
    pub pid: u32,
    pub ppid: u32,
    pub user: String,
    pub command: String,
    pub state: ProcessState,
    pub cpu_bp: u64,
    pub memory_bp: u64,
    pub memory_bytes: u64,
    pub container_id: Option<ContainerId>,
}

impl Process {
    pub fn new(pid: u32, ppid: u32, user: String, command: String, state: ProcessState) -> (r:
        Process)
        ensures
            r == (Process {
                pid,
                ppid,
                user,
                command,
                state,
                cpu_bp: 0,
                memory_bp: 0,
                memory_bytes: 0,
                container_id: None,
            }),
    {
        Process {
            pid,
            ppid,
            user,
            command,
            state,
            cpu_bp: 0,
            memory_bp: 0,
            memory_bytes: 0,
            container_id: None,
        }
    }

    pub fn with_metrics(self, cpu_bp: u64, memory_bp: u64, memory_bytes: u64) -> (r: Process)
        ensures
            r == (Process { cpu_bp, memory_bp, memory_bytes, ..self }),
    {
        Process { cpu_bp, memory_bp, memory_bytes, ..self }
    }

    pub fn with_container(self, container_id: Option<ContainerId>) -> (r: Process)
        ensures
            r == (Process { container_id, ..self }),
    {
        Process { container_id, ..self }
    }

    pub fn is_containerized(&self) -> (r: bool)
        ensures
            r == self.container_id is Some,
    {
        self.container_id.is_some()
    }
}

/// Kernel clock ticks per second.
pub const HERTZ: u64 = 100;

/// Bytes per memory page.
pub const PAGE_SIZE: u64 = 4096;

/// The lifetime CPU share of a process: its ticks over the seconds it was
/// not running, in basis points; 0 when those seconds are not positive.
pub open spec fn process_cpu_bp(utime: u64, stime: u64, uptime: u64) -> u64 {
    let ticks = utime + stime;
    let active = uptime - ticks / (HERTZ as int);
    if active > 0 {
        clamp(basis_points(ticks, HERTZ * active))
    } else {
        0
    }
}

pub fn cpu_share(utime: u64, stime: u64, uptime: u64) -> (r: u64)
    ensures
        r == process_cpu_bp(utime, stime, uptime),
{
    let ticks = utime as u128 + stime as u128;
    let secs = ticks / HERTZ as u128;
    if (uptime as u128) <= secs {
        return 0;
    }
    let active = uptime as u128 - secs;
    ratio_bp(ticks, HERTZ as u128 * active)
}

} // verus!

verus! {

/// The name and numeric id of an account line `name:password:uid:...`;
/// `None` for a line with fewer than three fields or a malformed id.
pub open spec fn passwd_entry(l: Seq<char>) -> Option<(Seq<char>, u32)> {
    let colon1 = first_index(l, ':');
    let r1 = l.skip(colon1 + 1);
    let colon2 = first_index(r1, ':');
    let r2 = r1.skip(colon2 + 1);
    let field = r2.take(first_index(r2, ':'));
    if colon1 < l.len() && colon2 < r1.len() && u32_of(field) is Some {
        Some((l.take(colon1), u32_of(field)->0 as u32))
    } else {
        None
    }
}

/// The name on the first account line with id `uid`.
pub open spec fn passwd_name(ls: Seq<Seq<char>>, uid: u32) -> Option<Seq<char>>
    decreases ls.len(),
{
    if ls.len() == 0 {
        None
    } else {
        match passwd_entry(ls[0]) {
            Some(e) => if e.1 == uid {
                Some(e.0)
            } else {
                passwd_name(ls.drop_first(), uid)
            },
            None => passwd_name(ls.drop_first(), uid),
        }
    }
}

fn account_line(l: &Vec<char>) -> (r: Option<(Vec<char>, u32)>)
    ensures
        match passwd_entry(l@) {
            Some(e) => r matches Some(x) && x.0@ == e.0 && x.1 == e.1,
            None => r is None,
        },
{
    let n = l.len();
    assert(l@.subrange(0, n as int) =~= l@);
    let colon1 = find_char(l.as_slice(), 0, ':');
    if colon1 == n {
        return None;
    }
    let colon2 = find_char(l.as_slice(), colon1 + 1, ':');
    assert(l@.subrange(colon1 + 1, n as int) =~= l@.skip(colon1 + 1));
    if colon2 == n {
        return None;
    }
    let colon3 = find_char(l.as_slice(), colon2 + 1, ':');
    let ghost r1 = l@.skip(colon1 + 1);
    assert(l@.subrange(colon2 + 1, n as int) =~= r1.skip(colon2 - colon1));
    let field = copy_range(l, colon2 + 1, colon3);
    assert(field@ =~= r1.skip(colon2 - colon1).take(colon3 - colon2 - 1));
    match parse_uint(field.as_slice(), u32::MAX as u64) {
        Some(uid) => {
            let name = copy_range(l, 0, colon1);
            assert(name@ =~= l@.take(colon1 as int));
            Some((name, uid as u32))
        },
        None => None,
    }
}

/// Looks `uid` up in the account database.
pub fn get_username_from_uid(passwd: &str, uid: u32) -> (r: Option<String>)
    ensures
        match passwd_name(lines(passwd@), uid) {
            Some(name) => r matches Some(s) && s@ == name,
            None => r is None,
        },
{
    let cs = chars_of(passwd);
    let ls = split_lines(cs.as_slice());
    let ghost lv = lines(passwd@);
    let mut i: usize = 0;
    assert(lv.skip(0) =~= lv);
    while i < ls.len()
        invariant
            i <= ls@.len(),
            views(ls@) == lv,
            lv == lines(passwd@),
            passwd_name(lv, uid) == passwd_name(lv.skip(i as int), uid),
        decreases ls@.len() - i,
    {
        assert(lv.skip(i as int)[0] == lv[i as int]);
        assert(lv.skip(i as int).drop_first() =~= lv.skip(i + 1));
        assert(ls@[i as int]@ == lv[i as int]);
        match account_line(&ls[i]) {
            Some((name, line_uid)) => {
                if line_uid == uid {
                    return Some(string_from_chars(name.as_slice()));
                }
            },
            None => {},
        }
        i += 1;
    }
    None
}

/// The owner to report: the account name, or the id in decimal when the
/// account database has no such id or could not be read.
pub open spec fn owner_name(passwd: Option<Seq<char>>, uid: u32) -> Seq<char> {
    match passwd {
        Some(p) => match passwd_name(lines(p), uid) {
            Some(name) => name,
            None => decimal_digits(uid as nat),
        },
        None => decimal_digits(uid as nat),
    }
}

pub fn resolve_user(passwd: Option<&str>, uid: u32) -> (r: String)
    ensures
        r@ == owner_name(
            match passwd {
                Some(p) => Some(p@),
                None => None,
            },
            uid,
        ),
{
    let found = match passwd {
        Some(p) => get_username_from_uid(p, uid),
        None => None,
    };
    match found {
        Some(name) => name,
        None => {
            let mut digits: Vec<char> = Vec::new();
            push_decimal(uid, &mut digits);
            assert(digits@ =~= decimal_digits(uid as nat));
            string_from_chars(digits.as_slice())
        },
    }
}

} // verus!

verus! {

pub open spec fn runtime_marker() -> Seq<char> {
    seq!['/', 'd', 'o', 'c', 'k', 'e', 'r', '/']
}

/// `pat` occurs in `s` at `i`.
pub open spec fn occurs_at(s: Seq<char>, i: int, pat: Seq<char>) -> bool {
    0 <= i && i + pat.len() <= s.len() && s.subrange(i, i + pat.len()) == pat
}

/// The first occurrence of `pat` in `s` at or after `i`, or `s.len()`.
pub open spec fn occurrence_from(s: Seq<char>, pat: Seq<char>, i: int) -> int
    decreases s.len() + 1 - i,
{
    if i < 0 || i + pat.len() > s.len() {
        s.len() as int
    } else if occurs_at(s, i, pat) {
        i
    } else {
        occurrence_from(s, pat, i + 1)
    }
}

pub proof fn lemma_occurrence(s: Seq<char>, pat: Seq<char>, i: int)
    ensures
        occurrence_from(s, pat, i) <= s.len(),
        occurrence_from(s, pat, i) < s.len() ==> occurs_at(s, occurrence_from(s, pat, i), pat),
    decreases s.len() + 1 - i,
{
    if !(i < 0 || i + pat.len() > s.len()) && !occurs_at(s, i, pat) {
        lemma_occurrence(s, pat, i + 1);
    }
}

/// `s` with every trailing `.scope` removed.
pub open spec fn strip_scope(s: Seq<char>) -> Seq<char>
    decreases s.len(),
{
    if s.len() >= 6 && s.skip(s.len() - 6) == seq!['.', 's', 'c', 'o', 'p', 'e'] {
        strip_scope(s.take(s.len() - 6))
    } else {
        s
    }
}

/// The container id on a control-group line: the text between the first
/// runtime marker and the next one (or the end), without a `.scope` suffix.
pub open spec fn line_container_id(l: Seq<char>) -> Option<Seq<char>> {
    let m = runtime_marker();
    let p = occurrence_from(l, m, 0);
    let after = l.skip(p + m.len());
    let id = strip_scope(after.take(occurrence_from(after, m, 0)));
    if p < l.len() && id.len() > 0 {
        Some(id)
    } else {
        None
    }
}

/// The container id of the first control-group line that names one.
pub open spec fn cgroup_container_id(ls: Seq<Seq<char>>) -> Option<Seq<char>>
    decreases ls.len(),
{
    if ls.len() == 0 {
        None
    } else {
        match line_container_id(ls[0]) {
            Some(id) => Some(id),
            None => cgroup_container_id(ls.drop_first()),
        }
    }
}

fn matches_at(s: &Vec<char>, i: usize, pat: &[char]) -> (r: bool)
    ensures
        r == occurs_at(s@, i as int, pat@),
{
    if i > s.len() || s.len() - i < pat.len() {
        return false;
    }
    let mut k: usize = 0;
    while k < pat.len()
        invariant
            k <= pat@.len(),
            i <= s.len(),
            i + pat.len() <= s.len(),
            s@.subrange(i as int, i + k) == pat@.take(k as int),
        decreases pat@.len() - k,
    {
        if s[i + k] != pat[k] {
            assert(s@.subrange(i as int, i + pat@.len())[k as int] != pat@[k as int]);
            return false;
        }
        assert(s@.subrange(i as int, i + k + 1) =~= s@.subrange(i as int, i + k).push(s@[i + k]));
        assert(pat@.take(k + 1) =~= pat@.take(k as int).push(pat@[k as int]));
        k += 1;
    }
    assert(pat@.take(k as int) =~= pat@);
    true
}

fn find_pattern(s: &Vec<char>, pat: &[char]) -> (r: usize)
    requires
        pat@.len() > 0,
    ensures
        r == occurrence_from(s@, pat@, 0),
{
    let mut i: usize = 0;
    while i < s.len()
        invariant
            i <= s@.len(),
            occurrence_from(s@, pat@, 0) == occurrence_from(s@, pat@, i as int),
        decreases s@.len() - i,
    {
        if s.len() - i < pat.len() {
            return s.len();
        }
        if matches_at(s, i, pat) {
            return i;
        }
        i += 1;
    }
    s.len()
}

fn strip_scope_end(s: &Vec<char>) -> (r: usize)
    ensures
        r <= s@.len(),
        s@.take(r as int) == strip_scope(s@),
{
    let suffix = ['.', 's', 'c', 'o', 'p', 'e'];
    assert(suffix@ == seq!['.', 's', 'c', 'o', 'p', 'e']);
    let mut n: usize = s.len();
    assert(s@.take(n as int) =~= s@);
    while n >= 6 && matches_at(s, n - 6, &suffix)
        invariant
            n <= s@.len(),
            suffix@ == seq!['.', 's', 'c', 'o', 'p', 'e'],
            strip_scope(s@) == strip_scope(s@.take(n as int)),
        decreases n,
    {
        let ghost t = s@.take(n as int);
        assert(t.skip(t.len() - 6) =~= s@.subrange(n - 6, n as int));
        assert(t.take(t.len() - 6) =~= s@.take(n - 6));
        n -= 6;
    }
    let ghost t = s@.take(n as int);
    assert(n >= 6 ==> t.skip(t.len() - 6) =~= s@.subrange(n - 6, n as int));
    n
}

fn line_id(l: &Vec<char>) -> (r: Option<Vec<char>>)
    ensures
        match line_container_id(l@) {
            Some(id) => r matches Some(v) && v@ == id,
            None => r is None,
        },
{
    let marker = ['/', 'd', 'o', 'c', 'k', 'e', 'r', '/'];
    assert(marker@ == runtime_marker());
    let p = find_pattern(l, &marker);
    if p >= l.len() {
        return None;
    }
    proof {
        lemma_occurrence(l@, marker@, 0);
    }
    let after = copy_range(l, p + 8, l.len());
    assert(after@ =~= l@.skip(p + 8));
    let q = find_pattern(&after, &marker);
    proof {
        lemma_occurrence(after@, marker@, 0);
    }
    let seg = copy_range(&after, 0, q);
    assert(seg@ =~= after@.take(q as int));
    let n = strip_scope_end(&seg);
    if n == 0 {
        return None;
    }
    let id = copy_range(&seg, 0, n);
    assert(id@ =~= seg@.take(n as int));
    Some(id)
}

/// The container a process belongs to, from its control-group membership.
pub fn get_container_id_from_cgroup(content: &str) -> (r: Option<ContainerId>)
    ensures
        match cgroup_container_id(lines(content@)) {
            Some(id) => r matches Some(c) && c@ == id,
            None => r is None,
        },
{
    let cs = chars_of(content);
    let ls = split_lines(cs.as_slice());
    let ghost lv = lines(content@);
    let mut i: usize = 0;
    assert(lv.skip(0) =~= lv);
    while i < ls.len()
        invariant
            i <= ls@.len(),
            views(ls@) == lv,
            lv == lines(content@),
            cgroup_container_id(lv) == cgroup_container_id(lv.skip(i as int)),
        decreases ls@.len() - i,
    {
        assert(lv.skip(i as int)[0] == lv[i as int]);
        assert(lv.skip(i as int).drop_first() =~= lv.skip(i + 1));
        assert(ls@[i as int]@ == lv[i as int]);
        match line_id(&ls[i]) {
            Some(id) => {
                return Some(ContainerId::new(string_from_chars(id.as_slice())));
            },
            None => {},
        }
        i += 1;
    }
    None
}

} // verus!

verus! {

/// The records read for one process; `None` for a file that could not be read.
#[derive(Debug, Clone)]
pub struct ProcessFiles {
    pub stat: String,
    pub status: String,
    pub cmdline: Option<String>,
    pub comm: Option<String>,
    pub cgroup: Option<String>,
}

/// The owner id that a status record gives.
pub open spec fn status_uid_of(s: Seq<char>) -> Option<u32> {
    let ls = lines(s);
    let k = first_uid_line(ls);
    if k < ls.len() && u32_of(tokens(ls[k])[1]) is Some {
        Some(u32_of(tokens(ls[k])[1])->0 as u32)
    } else {
        None
    }
}

pub open spec fn pid_label(pid: u32) -> Seq<char> {
    seq!['[', 'p', 'i', 'd', ':'] + decimal_digits(pid as nat) + seq![']']
}

pub open spec fn nul_to_space(s: Seq<char>) -> Seq<char> {
    s.map_values(|c: char| if c == '\0' { ' ' } else { c })
}

/// The command line with its separators turned into spaces; for a kernel
/// thread, whose command line is empty, its short name, or a label with its
/// pid where even that cannot be read.
pub open spec fn command_of(pid: u32, cmdline: Option<String>, comm: Option<String>) -> Seq<
    char,
> {
    let c = match cmdline {
        Some(s) => s@,
        None => seq![],
    };
    if c.len() == 0 {
        match comm {
            Some(s) => trim(s@),
            None => pid_label(pid),
        }
    } else {
        trim(nul_to_space(c))
    }
}

/// Host memory total for the memory share: `MemTotal`, or 1 where it is absent.
pub open spec fn mem_total_of(m: Map<Seq<char>, u64>) -> u64 {
    if m.contains_key("MemTotal"@) {
        m["MemTotal"@]
    } else {
        1
    }
}

/// `p` is the process that these records describe.
pub open spec fn describes(
    p: Process,
    pid: u32,
    files: ProcessFiles,
    uptime: Seq<char>,
    meminfo: Seq<char>,
    passwd: Option<Seq<char>>,
) -> bool {
    let st = proc_stat_of(files.stat@)->0;
    let uid = status_uid_of(files.status@)->0;
    let bytes = st.5 * PAGE_SIZE;
    let cg = match files.cgroup {
        Some(s) => s@,
        None => seq![],
    };
    &&& p.pid == pid
    &&& p.ppid == st.1
    &&& p.user@ == owner_name(passwd, uid)
    &&& p.command@ == command_of(pid, files.cmdline, files.comm)
    &&& p.state == state_of(st.2)
    &&& p.cpu_bp == process_cpu_bp(st.3, st.4, uptime_of(uptime)->0)
    &&& p.memory_bytes == bytes
    &&& p.memory_bp == clamp(
        basis_points(bytes, mem_total_of(map_of(meminfo_entries(lines(meminfo)))) as int),
    )
    &&& match cgroup_container_id(lines(cg)) {
        Some(id) => p.container_id matches Some(c) && c@ == id,
        None => p.container_id is None,
    }
}

/// The records can be read: the stat record and the owner id parse, the
/// uptime counter parses and the resident size in bytes fits in a `u64`.
pub open spec fn readable(files: ProcessFiles, uptime: Seq<char>) -> bool {
    let st = proc_stat_of(files.stat@)->0;
    &&& proc_stat_of(files.stat@) is Some
    &&& status_uid_of(files.status@) is Some
    &&& uptime_of(uptime) is Some
    &&& st.5 * PAGE_SIZE <= u64::MAX
}

fn replace_nul(s: &Vec<char>) -> (r: Vec<char>)
    ensures
        r@ == nul_to_space(s@),
{
    let mut r: Vec<char> = Vec::new();
    let mut i: usize = 0;
    while i < s.len()
        invariant
            i <= s@.len(),
            r@ == nul_to_space(s@.take(i as int)),
        decreases s@.len() - i,
    {
        let c = s[i];
        r.push(if c == '\0' { ' ' } else { c });
        assert(r@ =~= nul_to_space(s@.take(i + 1)));
        i += 1;
    }
    assert(s@.take(i as int) =~= s@);
    r
}

fn command_line(pid: u32, cmdline: &Option<String>, comm: &Option<String>) -> (r: String)
    ensures
        r@ == command_of(pid, *cmdline, *comm),
{
    let c = match cmdline {
        Some(s) => chars_of(s.as_str()),
        None => Vec::new(),
    };
    if c.len() == 0 {
        match comm {
            Some(s) => {
                let cs = chars_of(s.as_str());
                let t = trimmed(cs.as_slice());
                string_from_chars(t.as_slice())
            },
            None => {
                let mut label: Vec<char> = vec!['[', 'p', 'i', 'd', ':'];
                push_decimal(pid, &mut label);
                label.push(']');
                assert(label@ =~= pid_label(pid));
                string_from_chars(label.as_slice())
            },
        }
    } else {
        let spaced = replace_nul(&c);
        let t = trimmed(spaced.as_slice());
        string_from_chars(t.as_slice())
    }
}

impl ProcfsProcessSource {
    /// Builds the process that the records of `pid` describe; fails where
    /// they cannot be read, and such a process is left out of a listing.
    pub fn read_process(
        &self,
        pid: u32,
        files: &ProcessFiles,
        uptime_content: &str,
        meminfo_content: &str,
        passwd: Option<&str>,
    ) -> (r: Result<Process, ParseError>)
        ensures
            r is Ok <==> readable(*files, uptime_content@),
            r matches Ok(p) ==> describes(
                p,
                pid,
                *files,
                uptime_content@,
                meminfo_content@,
                match passwd {
                    Some(s) => Some(s@),
                    None => None,
                },
            ),
    {
        let (_stat_pid, ppid, state_char, utime, stime, rss) = parse_proc_stat(
            files.stat.as_str(),
        )?;
        let uid = match parse_proc_status_uid(files.status.as_str()) {
            Ok(u) => u,
            Err(e) => {
                return Err(e);
            },
        };
        let user = resolve_user(passwd, uid);
        let command = command_line(pid, &files.cmdline, &files.comm);
        let uptime = parse_uptime(uptime_content)?;
        let cpu_bp = cpu_share(utime, stime, uptime);
        let memory_bytes = match rss.checked_mul(PAGE_SIZE) {
            Some(b) => b,
            None => {
                return Err(ParseError::Parse("rss out of range".to_owned()));
            },
        };
        let meminfo = parse_meminfo(meminfo_content)?;
        let total_memory = match meminfo.get("MemTotal") {
            Some(t) => t,
            None => 1,
        };
        let memory_bp = ratio_bp(memory_bytes as u128, total_memory as u128);
        let container_id = match &files.cgroup {
            Some(c) => get_container_id_from_cgroup(c.as_str()),
            None => get_container_id_from_cgroup(""),
        };
        proof {
            reveal_strlit("");
        }
        Ok(
            Process::new(pid, ppid, user, command, ProcessState::from_char(state_char)).with_metrics(
                cpu_bp,
                memory_bp,
                memory_bytes,
            ).with_container(container_id),
        )
    }
}

/// The process collector over one counter tree.
#[derive(Debug, Clone)]
pub struct ProcfsProcessSource {
    config: ProcfsConfig,
}

impl ProcfsProcessSource {
    pub closed spec fn config_spec(&self) -> ProcfsConfig {
        self.config
    }

    pub fn new(config: ProcfsConfig) -> (r: ProcfsProcessSource)
        ensures
            r.config_spec() == config,
    {
        ProcfsProcessSource { config }
    }

    pub fn config(&self) -> (r: &ProcfsConfig)
        ensures
            *r == self.config_spec(),
    {
        &self.config
    }
}

/// A directory entry names a process when it reads as an unsigned 32-bit number.
pub fn parse_pid(name: &str) -> (r: Option<u32>)
    ensures
        match u32_of(name@) {
            Some(v) => r == Some(v as u32),
            None => r is None,
        },
{
    let cs = chars_of(name);
    match parse_uint(cs.as_slice(), u32::MAX as u64) {
        Some(v) => Some(v as u32),
        None => None,
    }
}

} // verus!

verus! {

/// Item `i` ranks before item `j`: a larger key, or an equal key and an
/// earlier position.
pub open spec fn ranks_before(keys: Seq<u64>, i: int, j: int) -> bool {
    keys[i] > keys[j] || (keys[i] == keys[j] && i < j)
}

/// `p` lists, best first, the positions of the `n` best-ranked items (all of
/// them where there are fewer): what a stable sort by descending key followed
/// by truncation to `n` keeps.
pub open spec fn is_top_selection(keys: Seq<u64>, n: nat, p: Seq<int>) -> bool {
    &&& p.len() == if n < keys.len() {
        n
    } else {
        keys.len()
    }
    &&& forall|k: int| 0 <= k < p.len() ==> 0 <= #[trigger] p[k] < keys.len()
    &&& forall|a: int, b: int| 0 <= a < b < p.len() ==> ranks_before(keys, p[a], p[b])
    &&& forall|j: int, k: int|
        0 <= j < keys.len() && !p.contains(j) && 0 <= k < p.len() ==> #[trigger] ranks_before(
            keys,
            p[k],
            j,
        )
}

/// The `n` items with the largest keys, largest first; equal keys keep their
/// order.
pub fn select_top<T>(items: Vec<T>, keys: Vec<u64>, n: usize) -> (r: Vec<T>)
    requires
        items@.len() == keys@.len(),
    ensures
        exists|p: Seq<int>|
            is_top_selection(keys@, n as nat, p) && r@ == p.map_values(|i: int| items@[i]),
{
    let ghost orig = items@;
    let ghost ks = keys@;
    let mut rest = items;
    let mut rest_keys = keys;
    let ghost mut idx: Seq<int> = Seq::new(orig.len(), |i: int| i);
    let ghost mut p: Seq<int> = seq![];
    let mut out: Vec<T> = Vec::new();
    assert forall|j: int| 0 <= j < ks.len() implies #[trigger] p.contains(j) || idx.contains(j) by {
        assert(idx[j] == j);
    }
    while out.len() < n && rest.len() > 0
        invariant
            ks.len() == orig.len(),
            rest@.len() == idx.len(),
            rest_keys@.len() == idx.len(),
            out@.len() == p.len(),
            p.len() + idx.len() == ks.len(),
            p.len() <= n,
            forall|m: int| 0 <= m < idx.len() ==> 0 <= #[trigger] idx[m] < ks.len(),
            forall|a: int, b: int| 0 <= a < b < idx.len() ==> idx[a] < idx[b],
            forall|m: int| 0 <= m < idx.len() ==> rest@[m] == orig[#[trigger] idx[m]],
            forall|m: int| 0 <= m < idx.len() ==> rest_keys@[m] == ks[#[trigger] idx[m]],
            forall|k: int| 0 <= k < p.len() ==> 0 <= #[trigger] p[k] < ks.len(),
            forall|k: int| 0 <= k < p.len() ==> out@[k] == orig[#[trigger] p[k]],
            forall|a: int, b: int| 0 <= a < b < p.len() ==> ranks_before(ks, p[a], p[b]),
            forall|k: int, m: int|
                0 <= k < p.len() && 0 <= m < idx.len() ==> ranks_before(
                    ks,
                    #[trigger] p[k],
                    #[trigger] idx[m],
                ),
            forall|j: int| 0 <= j < ks.len() ==> #[trigger] p.contains(j) || idx.contains(j),
        decreases rest@.len(),
    {
        let mut best: usize = 0;
        let mut j: usize = 1;
        while j < rest_keys.len()
            invariant
                rest_keys@.len() == idx.len(),
                0 <= best < j <= idx.len(),
                forall|m: int| 0 <= m < idx.len() ==> 0 <= #[trigger] idx[m] < ks.len(),
                forall|a: int, b: int| 0 <= a < b < idx.len() ==> idx[a] < idx[b],
                forall|m: int| 0 <= m < idx.len() ==> rest_keys@[m] == ks[#[trigger] idx[m]],
                forall|m: int|
                    0 <= m < j && m != best ==> ranks_before(ks, idx[best as int], #[trigger] idx[m]),
            decreases idx.len() - j,
        {
            if rest_keys[j] > rest_keys[best] {
                best = j;
            }
            j += 1;
        }
        let ghost chosen = idx[best as int];
        let item = rest.remove(best);
        let _k = rest_keys.remove(best);
        out.push(item);
        proof {
            let old_idx = idx;
            let old_p = p;
            idx = idx.remove(best as int);
            p = p.push(chosen);
            assert forall|j: int| 0 <= j < ks.len() implies #[trigger] p.contains(j) || idx.contains(
                j,
            ) by {
                if old_p.contains(j) {
                    let w = choose|w: int| 0 <= w < old_p.len() && old_p[w] == j;
                    assert(p[w] == j);
                } else {
                    let w = choose|w: int| 0 <= w < old_idx.len() && old_idx[w] == j;
                    if w == best {
                        assert(p[p.len() - 1] == j);
                    } else if w < best {
                        assert(idx[w] == j);
                    } else {
                        assert(idx[w - 1] == j);
                    }
                }
            }
            assert forall|k: int, m: int|
                0 <= k < p.len() && 0 <= m < idx.len() implies ranks_before(
                ks,
                #[trigger] p[k],
                #[trigger] idx[m],
            ) by {
                let om = if m < best {
                    m
                } else {
                    m + 1
                };
                assert(idx[m] == old_idx[om]);
                if k < old_p.len() {
                    assert(p[k] == old_p[k]);
                } else {
                    assert(om != best);
                }
            }
        }
        assert forall|k: int| 0 <= k < p.len() implies out@[k] == orig[#[trigger] p[k]] by {}
    }
    proof {
        assert forall|j: int, k: int|
            0 <= j < ks.len() && !p.contains(j) && 0 <= k < p.len() implies #[trigger] ranks_before(
            ks,
            p[k],
            j,
        ) by {
            assert(idx.contains(j));
            let w = choose|w: int| 0 <= w < idx.len() && idx[w] == j;
            assert(ranks_before(ks, p[k], idx[w]));
        }
        assert(out@ =~= p.map_values(|i: int| orig[i]));
        assert(p.len() == if n < ks.len() {
            n as int
        } else {
            ks.len() as int
        });
        assert(is_top_selection(ks, n as nat, p));
    }
    out
}

} // verus!

verus! {

pub open spec fn cpu_keys(ps: Seq<Process>) -> Seq<u64> {
    ps.map_values(|p: Process| p.cpu_bp)
}

pub open spec fn memory_keys(ps: Seq<Process>) -> Seq<u64> {
    ps.map_values(|p: Process| p.memory_bytes)
}

/// The `n` processes with the highest CPU share, highest first; ties keep
/// their listing order.
pub fn get_top_by_cpu(processes: Vec<Process>, n: usize) -> (r: Vec<Process>)
    ensures
        exists|p: Seq<int>|
            is_top_selection(cpu_keys(processes@), n as nat, p) && r@ == p.map_values(
                |i: int| processes@[i],
            ),
{
    let mut keys: Vec<u64> = Vec::new();
    let mut i: usize = 0;
    while i < processes.len()
        invariant
            i <= processes@.len(),
            keys@ == cpu_keys(processes@.take(i as int)),
        decreases processes@.len() - i,
    {
        keys.push(processes[i].cpu_bp);
        assert(keys@ =~= cpu_keys(processes@.take(i + 1)));
        i += 1;
    }
    assert(processes@.take(i as int) =~= processes@);
    select_top(processes, keys, n)
}

/// The `n` processes with the most resident memory, most first; ties keep
/// their listing order.
pub fn get_top_by_memory(processes: Vec<Process>, n: usize) -> (r: Vec<Process>)
    ensures
        exists|p: Seq<int>|
            is_top_selection(memory_keys(processes@), n as nat, p) && r@ == p.map_values(
                |i: int| processes@[i],
            ),
{
    let mut keys: Vec<u64> = Vec::new();
    let mut i: usize = 0;
    while i < processes.len()
        invariant
            i <= processes@.len(),
            keys@ == memory_keys(processes@.take(i as int)),
        decreases processes@.len() - i,
    {
        keys.push(processes[i].memory_bytes);
        assert(keys@ =~= memory_keys(processes@.take(i + 1)));
        i += 1;
    }
    assert(processes@.take(i as int) =~= processes@);
    select_top(processes, keys, n)
}

} // verus!
