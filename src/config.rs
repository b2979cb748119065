//! Settings of the monitor and of its query endpoints.
use vstd::prelude::*;

use crate::text::{chars_of, parse_uint, parse_unsigned};

verus! {

/// Settings of the monitor.
#[derive(Debug, Clone)]
pub struct Config {
    pub port: u16,
    /// Seconds between two snapshots.
    pub poll_interval: u64,
    pub history_size: usize,
    pub process_limit: usize,
    pub docker_socket: String,
    pub proc_path: String,
    pub sys_path: String,
    pub log_level: String,
}

/// A setting read as an unsigned number no larger than `max`, or `default`
/// where it is absent or malformed.
pub open spec fn number_setting(s: Option<Seq<char>>, max: nat, default: nat) -> nat {
    match s {
        Some(t) => match parse_unsigned(t, max) {
            Some(v) => v,
            None => default,
        },
        None => default,
    }
}

pub open spec fn text_view(s: Option<&str>) -> Option<Seq<char>> {
    match s {
        Some(t) => Some(t@),
        None => None,
    }
}

fn number_or(s: Option<&str>, max: u64, default: u64) -> (r: u64)
    requires
        default <= max,
    ensures
        r == number_setting(text_view(s), max as nat, default as nat),
        r <= max,
{
    match s {
        Some(t) => {
            let cs = chars_of(t);
            match parse_uint(cs.as_slice(), max) {
                Some(v) => v,
                None => default,
            }
        },
        None => default,
    }
}

fn text_or(s: Option<&str>, default: &str) -> (r: String)
    ensures
        r@ == match s {
            Some(t) => t@,
            None => default@,
        },
{
    match s {
        Some(t) => t.to_owned(),
        None => default.to_owned(),
    }
}

impl Config {
    /// Builds the settings from the values found for each one, with the
    /// defaults: port 3000, a snapshot every 10 s, 360 snapshots kept, 20
    /// processes listed, the local runtime socket, `/proc` and `/sys`, level `info`.
    pub fn from_values(
        port: Option<&str>,
        poll_interval: Option<&str>,
        history_size: Option<&str>,
        process_limit: Option<&str>,
        docker_socket: Option<&str>,
        proc_path: Option<&str>,
        sys_path: Option<&str>,
        log_level: Option<&str>,
    ) -> (r: Config)
        ensures
            r.port == number_setting(text_view(port), u16::MAX as nat, 3000),
            r.poll_interval == number_setting(text_view(poll_interval), u64::MAX as nat, 10),
            r.history_size == number_setting(text_view(history_size), usize::MAX as nat, 360),
            r.process_limit == number_setting(text_view(process_limit), usize::MAX as nat, 20),
            r.docker_socket@ == match docker_socket {
                Some(t) => t@,
                None => "unix:///var/run/docker.sock"@,
            },
            r.proc_path@ == match proc_path {
                Some(t) => t@,
                None => "/proc"@,
            },
            r.sys_path@ == match sys_path {
                Some(t) => t@,
                None => "/sys"@,
            },
            r.log_level@ == match log_level {
                Some(t) => t@,
                None => "info"@,
            },
    {
        Config {
            port: number_or(port, u16::MAX as u64, 3000) as u16,
            poll_interval: number_or(poll_interval, u64::MAX, 10),
            history_size: number_or(history_size, usize::MAX as u64, 360) as usize,
            process_limit: number_or(process_limit, usize::MAX as u64, 20) as usize,
            docker_socket: text_or(docker_socket, "unix:///var/run/docker.sock"),
            proc_path: text_or(proc_path, "/proc"),
            sys_path: text_or(sys_path, "/sys"),
            log_level: text_or(log_level, "info"),
        }
    }
}

/// Parameters of a process listing query.
#[derive(Debug, Clone)]
pub struct ProcessQuery {
    /// `memory` sorts by resident memory; anything else sorts by CPU share.
    pub sort: String,
    pub limit: usize,
}

pub fn default_sort() -> (r: String)
    ensures
        r@ == "cpu"@,
{
    "cpu".to_owned()
}

pub fn default_limit() -> (r: usize)
    ensures
        r == 20,
{
    20
}

impl ProcessQuery {
    /// The query sorts by memory rather than by CPU share.
    pub fn by_memory(&self) -> (r: bool)
        ensures
            r == (self.sort@ == "memory"@),
    {
        let m = "memory".to_owned();
        self.sort == m
    }
}

} // verus!
