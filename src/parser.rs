//! Parsers for the text that the kernel exposes under its counter tree.
use vstd::prelude::*;

use crate::text::{
    chars_of, decimal_frac_digits, find_char, first_index, string_from_chars, trim, trimmed, views, decimal_int_digits, digits_value, hundredths_of, is_decimal,
    lift, lines, parse_decimal, parse_uint, parse_unsigned, sat, split_lines, split_tokens, tokens,
};

verus! {

broadcast use vstd::string::group_string_axioms;

/// Why a counter could not be read.
#[derive(Debug, PartialEq, Eq)]
pub enum ParseError {
    /// The file or socket could not be read.
    Io(String),
    /// The content is there but malformed or short.
    Parse(String),
    /// An expected field is absent.
    MissingField(String),
}

pub open spec fn is_parse_error<T>(r: Result<T, ParseError>) -> bool {
    r matches Err(ParseError::Parse(_))
}

fn parse_error<T>(msg: &str) -> (r: Result<T, ParseError>)
    ensures
        is_parse_error(r),
{
    Err(ParseError::Parse(msg.to_owned()))
}

/// The value of a decimal token with its fraction dropped, saturated at `u64::MAX`.
pub open spec fn whole_of(t: Seq<char>) -> u64 {
    sat(digits_value(decimal_int_digits(t)) as int) as u64
}

/// The value of a decimal token in hundredths, the rest of the fraction dropped,
/// saturated at `u64::MAX`.
pub open spec fn centi_of(t: Seq<char>) -> u64 {
    sat((digits_value(decimal_int_digits(t)) * 100 + hundredths_of(decimal_frac_digits(t))) as int) as u64
}

/// The uptime counter: its first token, a decimal number of seconds, truncated.
pub open spec fn uptime_of(s: Seq<char>) -> Option<u64> {
    let t = tokens(s);
    if t.len() > 0 && is_decimal(t[0]) {
        Some(whole_of(t[0]))
    } else {
        None
    }
}

/// Parses the uptime counter into whole seconds.
pub fn parse_uptime(content: &str) -> (r: Result<u64, ParseError>)
    ensures
        r is Ok <==> uptime_of(content@) is Some,
        r matches Ok(v) ==> uptime_of(content@) == Some(v),
        r is Err ==> is_parse_error(r),
{
    let cs = chars_of(content);
    let parts = split_tokens(cs.as_slice());
    if parts.len() == 0 {
        return parse_error("Empty uptime file");
    }
    assert(parts@[0]@ == tokens(content@)[0]);
    match parse_decimal(parts[0].as_slice()) {
        Some((whole, _)) => Ok(whole),
        None => parse_error("Invalid uptime value"),
    }
}

/// The load-average triple, each in hundredths.
pub open spec fn loadavg_of(s: Seq<char>) -> Option<(u64, u64, u64)> {
    let t = tokens(s);
    if t.len() >= 3 && is_decimal(t[0]) && is_decimal(t[1]) && is_decimal(t[2]) {
        Some((centi_of(t[0]), centi_of(t[1]), centi_of(t[2])))
    } else {
        None
    }
}

fn centi_value(t: &Vec<char>) -> (r: Option<u64>)
    ensures
        r is Some <==> is_decimal(t@),
        r matches Some(v) ==> v == centi_of(t@),
{
    match parse_decimal(t.as_slice()) {
        Some((whole, hundredths)) => {
            if whole > (u64::MAX - hundredths) / 100 {
                Some(u64::MAX)
            } else {
                Some(whole * 100 + hundredths)
            }
        },
        None => None,
    }
}

/// Parses the load-average counter: the first three tokens, in hundredths.
pub fn parse_loadavg(content: &str) -> (r: Result<(u64, u64, u64), ParseError>)
    ensures
        r is Ok <==> loadavg_of(content@) is Some,
        r matches Ok(v) ==> loadavg_of(content@) == Some(v),
        r is Err ==> is_parse_error(r),
{
    let cs = chars_of(content);
    let parts = split_tokens(cs.as_slice());
    if parts.len() < 3 {
        return parse_error("Invalid loadavg format");
    }
    assert(parts@[0]@ == tokens(content@)[0]);
    assert(parts@[1]@ == tokens(content@)[1]);
    assert(parts@[2]@ == tokens(content@)[2]);
    let one = match centi_value(&parts[0]) {
        Some(v) => v,
        None => return parse_error("Invalid load 1min"),
    };
    let five = match centi_value(&parts[1]) {
        Some(v) => v,
        None => return parse_error("Invalid load 5min"),
    };
    let fifteen = match centi_value(&parts[2]) {
        Some(v) => v,
        None => return parse_error("Invalid load 15min"),
    };
    Ok((one, five, fifteen))
}

} // verus!

verus! {

/// Aggregate CPU tick counters since boot.
#[derive(Debug, Clone, Copy, PartialEq, Eq, Default)]
pub struct CpuStat {
    pub user: u64,
    pub nice: u64,
    pub system: u64,
    pub idle: u64,
    pub iowait: u64,
    pub irq: u64,
    pub softirq: u64,
    pub steal: u64,
}

impl CpuStat {
    pub open spec fn total_spec(&self) -> int {
        self.user + self.nice + self.system + self.idle + self.iowait + self.irq + self.softirq
            + self.steal
    }

    pub open spec fn busy_spec(&self) -> int {
        self.total_spec() - self.idle - self.iowait
    }

    /// The sum of all counters.
    pub fn total(&self) -> (r: u64)
        requires
            self.total_spec() <= u64::MAX,
        ensures
            r == self.total_spec(),
    {
        self.user + self.nice + self.system + self.idle + self.iowait + self.irq + self.softirq
            + self.steal
    }

    /// The ticks spent neither idle nor waiting for I/O.
    pub fn busy(&self) -> (r: u64)
        requires
            self.total_spec() <= u64::MAX,
        ensures
            r == self.busy_spec(),
    {
        self.total() - self.idle - self.iowait
    }
}

pub open spec fn starts_with(s: Seq<char>, p: Seq<char>) -> bool {
    s.len() >= p.len() && s.take(p.len() as int) == p
}

pub open spec fn u64_of(t: Seq<char>) -> Option<nat> {
    parse_unsigned(t, u64::MAX as nat)
}

/// A line whose first token is exactly `cpu`: the aggregate line, not a
/// per-core `cpu0`, `cpu1`, ...
pub open spec fn is_cpu_line(l: Seq<char>) -> bool {
    tokens(l).len() > 0 && tokens(l)[0] == seq!['c', 'p', 'u']
}

/// Index of the first aggregate line, or `ls.len()` where there is none.
pub open spec fn first_cpu_line(ls: Seq<Seq<char>>) -> int
    decreases ls.len(),
{
    if ls.len() == 0 {
        0
    } else {
        let f = first_cpu_line(ls.drop_last());
        if f < ls.len() - 1 {
            f
        } else if is_cpu_line(ls.last()) {
            ls.len() - 1
        } else {
            ls.len() as int
        }
    }
}

pub proof fn lemma_first_cpu_line_extends(ls: Seq<Seq<char>>, k: int)
    requires
        0 <= k <= ls.len(),
        first_cpu_line(ls.take(k)) < k,
    ensures
        first_cpu_line(ls) == first_cpu_line(ls.take(k)),
    decreases ls.len() - k,
{
    if k < ls.len() {
        assert(ls.take(k + 1).drop_last() =~= ls.take(k));
        lemma_first_cpu_line_extends(ls, k + 1);
    } else {
        assert(ls.take(k) =~= ls);
    }
}

/// The tokens of the aggregate line, label included.
pub open spec fn cpu_fields(s: Seq<char>) -> Option<Seq<Seq<char>>> {
    let ls = lines(s);
    let k = first_cpu_line(ls);
    if k < ls.len() {
        Some(tokens(ls[k]))
    } else {
        None
    }
}

pub open spec fn cpu_stat_of(s: Seq<char>) -> Option<CpuStat> {
    match cpu_fields(s) {
        Some(f) => if f.len() >= 9 && (forall|i: int| 1 <= i < 9 ==> u64_of(#[trigger] f[i]) is Some) {
            Some(
                CpuStat {
                    user: u64_of(f[1])->0 as u64,
                    nice: u64_of(f[2])->0 as u64,
                    system: u64_of(f[3])->0 as u64,
                    idle: u64_of(f[4])->0 as u64,
                    iowait: u64_of(f[5])->0 as u64,
                    irq: u64_of(f[6])->0 as u64,
                    softirq: u64_of(f[7])->0 as u64,
                    steal: u64_of(f[8])->0 as u64,
                },
            )
        } else {
            None
        },
        None => None,
    }
}

fn has_prefix(s: &Vec<char>, p: &[char]) -> (r: bool)
    ensures
        r == starts_with(s@, p@),
{
    if s.len() < p.len() {
        return false;
    }
    let mut i: usize = 0;
    while i < p.len()
        invariant
            i <= p@.len() <= s@.len(),
            s@.take(i as int) == p@.take(i as int),
        decreases p@.len() - i,
    {
        if s[i] != p[i] {
            assert(s@.take(p@.len() as int)[i as int] != p@[i as int]);
            return false;
        }
        assert(s@.take(i + 1) =~= s@.take(i as int).push(s@[i as int]));
        assert(p@.take(i + 1) =~= p@.take(i as int).push(p@[i as int]));
        i += 1;
    }
    assert(p@.take(i as int) =~= p@);
    true
}

fn field_u64(t: &Vec<char>) -> (r: Option<u64>)
    ensures
        lift(r) == u64_of(t@),
{
    parse_uint(t.as_slice(), u64::MAX)
}

/// Parses the aggregate CPU line, which must be the first line of the content.
pub fn parse_cpu_stat(content: &str) -> (r: Result<CpuStat, ParseError>)
    ensures
        r is Ok <==> cpu_stat_of(content@) is Some,
        r matches Ok(v) ==> cpu_stat_of(content@) == Some(v),
        r is Err ==> is_parse_error(r),
{
    let cs = chars_of(content);
    let ls = split_lines(cs.as_slice());
    let ghost lv = lines(content@);
    let label = ['c', 'p', 'u'];
    assert(label@ == seq!['c', 'p', 'u']);
    let mut k: usize = 0;
    let mut found: Option<Vec<Vec<char>>> = None;
    while k < ls.len()
        invariant_except_break
            found is None,
        invariant
            k <= ls@.len(),
            views(ls@) == lv,
            lv == lines(content@),
            label@ == seq!['c', 'p', 'u'],
            first_cpu_line(lv.take(k as int)) == k,
        ensures
            found is None ==> k == ls@.len(),
            found matches Some(p) ==> k < ls@.len() && views(p@) == tokens(lv[k as int])
                && first_cpu_line(lv) == k,
        decreases ls@.len() - k,
    {
        assert(lv.take(k + 1).drop_last() =~= lv.take(k as int));
        assert(lv.take(k + 1).last() == lv[k as int]);
        assert(ls@[k as int]@ == lv[k as int]);
        let toks = split_tokens(ls[k].as_slice());
        if toks.len() > 0 && toks[0].len() == 3 && has_prefix(&toks[0], &label) {
            assert(toks@[0]@ =~= seq!['c', 'p', 'u']);
            assert(is_cpu_line(lv[k as int]));
            proof {
                lemma_first_cpu_line_extends(lv, k + 1);
            }
            found = Some(toks);
            break;
        }
        proof {
            if toks@.len() > 0 && toks@[0]@ == seq!['c', 'p', 'u'] {
                assert(toks@[0]@.take(3) =~= toks@[0]@);
            }
        }
        k += 1;
    }
    let parts = match found {
        Some(p) => p,
        None => {
            assert(lv.take(k as int) =~= lv);
            return parse_error("Missing cpu line");
        },
    };
    let ghost line = lv[k as int];
    assert(cpu_fields(content@) == Some(tokens(line)));
    if parts.len() < 9 {
        return parse_error("Incomplete cpu stat");
    }
    let ghost f = tokens(line);
    assert(forall|i: int| 0 <= i < 9 ==> parts@[i]@ == f[i]);
    let mut vals: Vec<u64> = Vec::new();
    let mut i: usize = 0;
    while i < 8
        invariant
            i <= 8,
            parts@.len() >= 9,
            f.len() >= 9,
            cpu_fields(content@) == Some(f),
            forall|j: int| 0 <= j < 9 ==> parts@[j]@ == f[j],
            vals@.len() == i,
            forall|j: int| 1 <= j <= i ==> u64_of(#[trigger] f[j]) == Some(vals@[j - 1] as nat),
        decreases 8 - i,
    {
        match field_u64(&parts[i + 1]) {
            Some(v) => vals.push(v),
            None => {
                assert(u64_of(f[i + 1]) is None);
                return parse_error("Invalid cpu field");
            },
        }
        i += 1;
    }
    let stat = CpuStat {
        user: vals[0],
        nice: vals[1],
        system: vals[2],
        idle: vals[3],
        iowait: vals[4],
        irq: vals[5],
        softirq: vals[6],
        steal: vals[7],
    };
    assert(forall|j: int| 1 <= j < 9 ==> u64_of(#[trigger] f[j]) is Some);
    assert(u64_of(f[1]) == Some(vals@[0] as nat));
    assert(u64_of(f[2]) == Some(vals@[1] as nat));
    assert(u64_of(f[3]) == Some(vals@[2] as nat));
    assert(u64_of(f[4]) == Some(vals@[3] as nat));
    assert(u64_of(f[5]) == Some(vals@[4] as nat));
    assert(u64_of(f[6]) == Some(vals@[5] as nat));
    assert(u64_of(f[7]) == Some(vals@[6] as nat));
    assert(u64_of(f[8]) == Some(vals@[7] as nat));
    Ok(stat)
}

} // verus!

verus! {

/// `s` with every trailing ` kB` removed.
pub open spec fn strip_kb(s: Seq<char>) -> Seq<char>
    decreases s.len(),
{
    if s.len() >= 3 && s.skip(s.len() - 3) == seq![' ', 'k', 'B'] {
        strip_kb(s.take(s.len() - 3))
    } else {
        s
    }
}

/// One `Key: value kB` line, the value converted to bytes; `None` for a
/// malformed line.
pub open spec fn meminfo_entry(l: Seq<char>) -> Option<(Seq<char>, u64)> {
    let p = first_index(l, ':');
    let rest = l.skip(p + 1);
    if p < l.len() && first_index(rest, ':') == rest.len() {
        match u64_of(strip_kb(trim(rest))) {
            Some(n) => if n * 1024 <= u64::MAX {
                Some((trim(l.take(p)), (n * 1024) as u64))
            } else {
                None
            },
            None => None,
        }
    } else {
        None
    }
}

/// The entries of the well-formed lines, in order.
pub open spec fn meminfo_entries(ls: Seq<Seq<char>>) -> Seq<(Seq<char>, u64)>
    decreases ls.len(),
{
    if ls.len() == 0 {
        seq![]
    } else {
        let prev = meminfo_entries(ls.drop_last());
        match meminfo_entry(ls.last()) {
            Some(e) => prev.push(e),
            None => prev,
        }
    }
}

/// The map that inserting the entries in order builds: a later key wins.
pub open spec fn map_of(es: Seq<(Seq<char>, u64)>) -> Map<Seq<char>, u64>
    decreases es.len(),
{
    if es.len() == 0 {
        Map::empty()
    } else {
        map_of(es.drop_last()).insert(es.last().0, es.last().1)
    }
}

/// The memory table, keyed by field name, values in bytes.
pub struct MemInfo {
    entries: Vec<(String, u64)>,
}

impl MemInfo {
    pub closed spec fn entries_view(&self) -> Seq<(Seq<char>, u64)> {
        self.entries@.map_values(|e: (String, u64)| (e.0@, e.1))
    }

    /// The value recorded for `key`.
    pub fn get(&self, key: &str) -> (r: Option<u64>)
        ensures
            r == (if self@.contains_key(key@) {
                Some(self@[key@])
            } else {
                None
            }),
    {
        let k = key.to_owned();
        let ghost es = self.entries_view();
        let mut i: usize = self.entries.len();
        assert(es.take(i as int) =~= es);
        while i > 0
            invariant
                i <= es.len(),
                es == self.entries_view(),
                es.len() == self.entries@.len(),
                k@ == key@,
                map_of(es).contains_key(key@) == map_of(es.take(i as int)).contains_key(key@),
                map_of(es).contains_key(key@) ==> map_of(es)[key@] == map_of(
                    es.take(i as int),
                )[key@],
            decreases i,
        {
            assert(es.take(i as int).drop_last() =~= es.take(i - 1));
            assert(es[i - 1] == (self.entries@[i - 1].0@, self.entries@[i - 1].1));
            if self.entries[i - 1].0 == k {
                return Some(self.entries[i - 1].1);
            }
            i -= 1;
        }
        None
    }
}

impl View for MemInfo {
    type V = Map<Seq<char>, u64>;

    open spec fn view(&self) -> Map<Seq<char>, u64> {
        map_of(self.entries_view())
    }
}

fn strip_kb_end(s: &Vec<char>) -> (r: usize)
    ensures
        r <= s@.len(),
        s@.take(r as int) == strip_kb(s@),
{
    let mut n: usize = s.len();
    assert(s@.take(n as int) =~= s@);
    while n >= 3 && s[n - 3] == ' ' && s[n - 2] == 'k' && s[n - 1] == 'B'
        invariant
            n <= s@.len(),
            strip_kb(s@) == strip_kb(s@.take(n as int)),
        decreases n,
    {
        let ghost t = s@.take(n as int);
        assert(t.skip(t.len() - 3) =~= seq![' ', 'k', 'B']);
        assert(t.take(t.len() - 3) =~= s@.take(n - 3));
        n -= 3;
    }
    let ghost t = s@.take(n as int);
    assert(t.len() >= 3 ==> t.skip(t.len() - 3)[0] == s@[n - 3]);
    assert(t.len() >= 3 ==> t.skip(t.len() - 3)[1] == s@[n - 2]);
    assert(t.len() >= 3 ==> t.skip(t.len() - 3)[2] == s@[n - 1]);
    n
}

pub fn copy_range(s: &Vec<char>, a: usize, b: usize) -> (r: Vec<char>)
    requires
        a <= b <= s@.len(),
    ensures
        r@ == s@.subrange(a as int, b as int),
{
    let mut r: Vec<char> = Vec::new();
    let mut k: usize = a;
    while k < b
        invariant
            a <= k <= b <= s@.len(),
            r@ == s@.subrange(a as int, k as int),
        decreases b - k,
    {
        r.push(s[k]);
        assert(r@ =~= s@.subrange(a as int, k + 1));
        k += 1;
    }
    r
}

fn meminfo_line(l: &Vec<char>) -> (r: Option<(Vec<char>, u64)>)
    ensures
        match meminfo_entry(l@) {
            Some(e) => r matches Some(x) && x.0@ == e.0 && x.1 == e.1,
            None => r is None,
        },
{
    let p = find_char(l.as_slice(), 0, ':');
    assert(l@.subrange(0, l@.len() as int) =~= l@);
    if p == l.len() {
        return None;
    }
    let q = find_char(l.as_slice(), p + 1, ':');
    assert(l@.subrange(p + 1, l@.len() as int) =~= l@.skip(p + 1));
    if q != l.len() {
        return None;
    }
    let rest = copy_range(l, p + 1, l.len());
    assert(rest@ =~= l@.skip(p + 1));
    let value = trimmed(rest.as_slice());
    let n = strip_kb_end(&value);
    let digits = copy_range(&value, 0, n);
    assert(digits@ =~= value@.take(n as int));
    match parse_uint(digits.as_slice(), u64::MAX) {
        Some(v) => {
            if v > u64::MAX / 1024 {
                None
            } else {
                let head = copy_range(l, 0, p);
                assert(head@ =~= l@.take(p as int));
                let key = trimmed(head.as_slice());
                Some((key, v * 1024))
            }
        },
        None => None,
    }
}

/// Parses the memory table; malformed lines are skipped.
pub fn parse_meminfo(content: &str) -> (r: Result<MemInfo, ParseError>)
    ensures
        r matches Ok(m) && m.entries_view() == meminfo_entries(lines(content@)),
{
    let cs = chars_of(content);
    let ls = split_lines(cs.as_slice());
    let ghost lv = lines(content@);
    let mut entries: Vec<(String, u64)> = Vec::new();
    let mut i: usize = 0;
    while i < ls.len()
        invariant
            i <= ls@.len(),
            views(ls@) == lv,
            entries@.map_values(|e: (String, u64)| (e.0@, e.1)) == meminfo_entries(
                lv.take(i as int),
            ),
        decreases ls@.len() - i,
    {
        assert(lv.take(i + 1).drop_last() =~= lv.take(i as int));
        assert(ls@[i as int]@ == lv[i as int]);
        match meminfo_line(&ls[i]) {
            Some((key, v)) => {
                let ghost before = entries@.map_values(|e: (String, u64)| (e.0@, e.1));
                entries.push((string_from_chars(key.as_slice()), v));
                assert(entries@.map_values(|e: (String, u64)| (e.0@, e.1)) =~= before.push(
                    (key@, v),
                ));
            },
            None => {},
        }
        i += 1;
    }
    assert(lv.take(i as int) =~= lv);
    Ok(MemInfo { entries })
}

} // verus!

verus! {

/// One line of the mount table.
#[derive(Debug, Clone)]
pub struct MountInfo {
    pub device: String,
    pub mount_point: String,
    pub filesystem: String,
}

impl View for MountInfo {
    type V = (Seq<char>, Seq<char>, Seq<char>);

    open spec fn view(&self) -> (Seq<char>, Seq<char>, Seq<char>) {
        (self.device@, self.mount_point@, self.filesystem@)
    }
}

pub open spec fn mount_views(v: Seq<MountInfo>) -> Seq<(Seq<char>, Seq<char>, Seq<char>)> {
    v.map_values(|m: MountInfo| m@)
}

/// The mounts of the lines with at least three fields, in order.
pub open spec fn mounts_of(ls: Seq<Seq<char>>) -> Seq<(Seq<char>, Seq<char>, Seq<char>)>
    decreases ls.len(),
{
    if ls.len() == 0 {
        seq![]
    } else {
        let prev = mounts_of(ls.drop_last());
        let t = tokens(ls.last());
        if t.len() >= 3 {
            prev.push((t[0], t[1], t[2]))
        } else {
            prev
        }
    }
}

/// Parses the mount table; lines with fewer than three fields are skipped.
pub fn parse_mounts(content: &str) -> (r: Result<Vec<MountInfo>, ParseError>)
    ensures
        r matches Ok(v) && mount_views(v@) == mounts_of(lines(content@)),
{
    let cs = chars_of(content);
    let ls = split_lines(cs.as_slice());
    let ghost lv = lines(content@);
    let mut mounts: Vec<MountInfo> = Vec::new();
    let mut i: usize = 0;
    while i < ls.len()
        invariant
            i <= ls@.len(),
            views(ls@) == lv,
            mount_views(mounts@) == mounts_of(lv.take(i as int)),
        decreases ls@.len() - i,
    {
        assert(lv.take(i + 1).drop_last() =~= lv.take(i as int));
        assert(ls@[i as int]@ == lv[i as int]);
        let parts = split_tokens(ls[i].as_slice());
        if parts.len() >= 3 {
            let m = MountInfo {
                device: string_from_chars(parts[0].as_slice()),
                mount_point: string_from_chars(parts[1].as_slice()),
                filesystem: string_from_chars(parts[2].as_slice()),
            };
            let ghost before = mount_views(mounts@);
            mounts.push(m);
            assert(mount_views(mounts@) =~= before.push(m@));
        }
        i += 1;
    }
    assert(lv.take(i as int) =~= lv);
    Ok(mounts)
}

/// A single counter file: one unsigned number, surrounding whitespace allowed.
pub open spec fn counter_of(s: Seq<char>) -> Option<nat> {
    u64_of(trim(s))
}

fn parse_counter(content: &str) -> (r: Result<u64, ParseError>)
    ensures
        r is Ok <==> counter_of(content@) is Some,
        r matches Ok(v) ==> counter_of(content@) == Some(v as nat),
        r is Err ==> is_parse_error(r),
{
    let cs = chars_of(content);
    let t = trimmed(cs.as_slice());
    match parse_uint(t.as_slice(), u64::MAX) {
        Some(v) => Ok(v),
        None => parse_error("Invalid counter"),
    }
}

/// Parses the four statistics counters of a network interface; all of them
/// must be well formed.
pub fn parse_net_stats(rx_bytes: &str, tx_bytes: &str, rx_errors: &str, tx_errors: &str) -> (r:
    Result<(u64, u64, u64, u64), ParseError>)
    ensures
        r is Ok <==> (counter_of(rx_bytes@) is Some && counter_of(tx_bytes@) is Some && counter_of(
            rx_errors@,
        ) is Some && counter_of(tx_errors@) is Some),
        r matches Ok(v) ==> Some(v.0 as nat) == counter_of(rx_bytes@) && Some(v.1 as nat)
            == counter_of(tx_bytes@) && Some(v.2 as nat) == counter_of(rx_errors@) && Some(
            v.3 as nat,
        ) == counter_of(tx_errors@),
        r is Err ==> is_parse_error(r),
{
    let rx = parse_counter(rx_bytes)?;
    let tx = parse_counter(tx_bytes)?;
    let rxe = parse_counter(rx_errors)?;
    let txe = parse_counter(tx_errors)?;
    Ok((rx, tx, rxe, txe))
}

} // verus!

verus! {

/// Index of the last `c` in `s`, or -1 where there is none.
pub open spec fn last_index(s: Seq<char>, c: char) -> int
    decreases s.len(),
{
    if s.len() == 0 {
        -1
    } else if s.last() == c {
        s.len() - 1
    } else {
        last_index(s.drop_last(), c)
    }
}

fn find_last(s: &Vec<char>, c: char) -> (r: Option<usize>)
    ensures
        match r {
            Some(k) => k == last_index(s@, c) && k < s@.len(),
            None => last_index(s@, c) == -1,
        },
{
    let mut n: usize = s.len();
    assert(s@.take(n as int) =~= s@);
    while n > 0
        invariant
            n <= s@.len(),
            last_index(s@, c) == last_index(s@.take(n as int), c),
        decreases n,
    {
        assert(s@.take(n as int).drop_last() =~= s@.take(n - 1));
        if s[n - 1] == c {
            return Some(n - 1);
        }
        n -= 1;
    }
    None
}

pub open spec fn u32_of(t: Seq<char>) -> Option<nat> {
    parse_unsigned(t, u32::MAX as nat)
}

/// The fields of a per-process stat record: pid, ppid, state character,
/// user ticks, system ticks and resident pages. The command name runs from
/// the first `(` to the last `)`; the fields after it are taken by position.
pub open spec fn proc_stat_of(s: Seq<char>) -> Option<(u32, u32, char, u64, u64, u64)> {
    let a = first_index(s, '(');
    let b = last_index(s, ')');
    let f = tokens(s.skip(b + 1));
    let pid = u32_of(trim(s.take(a)));
    if a < s.len() && b >= 0 && f.len() >= 22 && pid is Some && u32_of(f[1]) is Some && u64_of(
        f[11],
    ) is Some && u64_of(f[12]) is Some && u64_of(f[21]) is Some {
        Some(
            (
                pid->0 as u32,
                u32_of(f[1])->0 as u32,
                if f[0].len() > 0 {
                    f[0][0]
                } else {
                    '?'
                },
                u64_of(f[11])->0 as u64,
                u64_of(f[12])->0 as u64,
                u64_of(f[21])->0 as u64,
            ),
        )
    } else {
        None
    }
}

/// Parses a per-process stat record.
pub fn parse_proc_stat(content: &str) -> (r: Result<(u32, u32, char, u64, u64, u64), ParseError>)
    ensures
        r is Ok <==> proc_stat_of(content@) is Some,
        r matches Ok(v) ==> proc_stat_of(content@) == Some(v),
        r is Err ==> is_parse_error(r),
{
    let cs = chars_of(content);
    let a = find_char(cs.as_slice(), 0, '(');
    assert(cs@.subrange(0, cs@.len() as int) =~= cs@);
    if a == cs.len() {
        return parse_error("No ( found");
    }
    let b = match find_last(&cs, ')') {
        Some(b) => b,
        None => return parse_error("No ) found"),
    };
    let head = copy_range(&cs, 0, a);
    assert(head@ =~= content@.take(a as int));
    let pid_str = trimmed(head.as_slice());
    let after = copy_range(&cs, b + 1, cs.len());
    assert(after@ =~= content@.skip(b + 1));
    let parts = split_tokens(after.as_slice());
    if parts.len() < 22 {
        return parse_error("Incomplete proc stat");
    }
    let ghost f = tokens(content@.skip(b + 1));
    assert(parts@[0]@ == f[0]);
    assert(parts@[1]@ == f[1]);
    assert(parts@[11]@ == f[11]);
    assert(parts@[12]@ == f[12]);
    assert(parts@[21]@ == f[21]);
    let pid = match parse_uint(pid_str.as_slice(), u32::MAX as u64) {
        Some(v) => v as u32,
        None => return parse_error("Invalid pid"),
    };
    let state = if parts[0].len() > 0 {
        parts[0][0]
    } else {
        '?'
    };
    let ppid = match parse_uint(parts[1].as_slice(), u32::MAX as u64) {
        Some(v) => v as u32,
        None => return parse_error("Invalid ppid"),
    };
    let utime = match parse_uint(parts[11].as_slice(), u64::MAX) {
        Some(v) => v,
        None => return parse_error("Invalid utime"),
    };
    let stime = match parse_uint(parts[12].as_slice(), u64::MAX) {
        Some(v) => v,
        None => return parse_error("Invalid stime"),
    };
    let rss = match parse_uint(parts[21].as_slice(), u64::MAX) {
        Some(v) => v,
        None => return parse_error("Invalid rss"),
    };
    Ok((pid, ppid, state, utime, stime, rss))
}

/// A line that carries the owner id: it starts with `Uid:` and has a second field.
pub open spec fn is_uid_line(l: Seq<char>) -> bool {
    starts_with(l, seq!['U', 'i', 'd', ':']) && tokens(l).len() >= 2
}

/// Index of the first owner-id line, or `ls.len()` where there is none.
pub open spec fn first_uid_line(ls: Seq<Seq<char>>) -> int
    decreases ls.len(),
{
    if ls.len() == 0 {
        0
    } else {
        let f = first_uid_line(ls.drop_last());
        if f < ls.len() - 1 {
            f
        } else if is_uid_line(ls.last()) {
            ls.len() - 1
        } else {
            ls.len() as int
        }
    }
}

pub proof fn lemma_first_uid_line_extends(ls: Seq<Seq<char>>, k: int)
    requires
        0 <= k <= ls.len(),
        first_uid_line(ls.take(k)) < k,
    ensures
        first_uid_line(ls) == first_uid_line(ls.take(k)),
    decreases ls.len() - k,
{
    if k < ls.len() {
        assert(ls.take(k + 1).drop_last() =~= ls.take(k));
        lemma_first_uid_line_extends(ls, k + 1);
    } else {
        assert(ls.take(k) =~= ls);
    }
}

/// What the owner-id line `l` gives.
pub open spec fn uid_result(l: Seq<char>, r: Result<u32, ParseError>) -> bool {
    match u32_of(tokens(l)[1]) {
        Some(v) => r == Ok::<u32, ParseError>(v as u32),
        None => is_parse_error(r),
    }
}

/// Parses the owner id out of a per-process status record.
pub fn parse_proc_status_uid(content: &str) -> (r: Result<u32, ParseError>)
    ensures
        first_uid_line(lines(content@)) == lines(content@).len() <==> r matches Err(
            ParseError::MissingField(_),
        ),
        first_uid_line(lines(content@)) < lines(content@).len() ==> uid_result(
            lines(content@)[first_uid_line(lines(content@))],
            r,
        ),
{
    let cs = chars_of(content);
    let ls = split_lines(cs.as_slice());
    let ghost lv = lines(content@);
    let label = ['U', 'i', 'd', ':'];
    assert(label@ == seq!['U', 'i', 'd', ':']);
    let mut i: usize = 0;
    while i < ls.len()
        invariant
            i <= ls@.len(),
            views(ls@) == lv,
            lv == lines(content@),
            label@ == seq!['U', 'i', 'd', ':'],
            first_uid_line(lv.take(i as int)) == i,
        decreases ls@.len() - i,
    {
        assert(lv.take(i + 1).drop_last() =~= lv.take(i as int));
        assert(ls@[i as int]@ == lv[i as int]);
        if has_prefix(&ls[i], &label) {
            let parts = split_tokens(ls[i].as_slice());
            if parts.len() >= 2 {
                assert(is_uid_line(lv[i as int]));
                assert(lv.take(i + 1).last() == lv[i as int]);
                assert(first_uid_line(lv.take(i + 1)) == i);
                proof {
                    lemma_first_uid_line_extends(lv, i + 1);
                }
                assert(parts@[1]@ == tokens(lv[i as int])[1]);
                assert(first_uid_line(lv) == i);
                assert(i < lv.len());
                let res = parse_uint(parts[1].as_slice(), u32::MAX as u64);
                assert(lift(res) == u32_of(tokens(lv[i as int])[1]));
                return match res {
                    Some(v) => {
                        assert(u32_of(tokens(lv[i as int])[1]) == Some(v as nat));
                        Ok(v as u32)
                    },
                    None => parse_error("Invalid uid"),
                };
            }
        }
        i += 1;
    }
    assert(lv.take(i as int) =~= lv);
    Err(ParseError::MissingField("Uid".to_owned()))
}

} // verus!
