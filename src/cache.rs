//! A per-process memo of command lines with a time to live.

use std::collections::HashMap;
use vstd::prelude::*;

verus! {

broadcast use vstd::std_specs::hash::group_hash_axioms;

pub struct ProcessCacheEntry {
    pub command: String,
    pub last_seen_ms: i64,
    pub last_proc_jiffies: u64,
}

pub struct ProcessCache {
    ttl_ms: i64,
    map: HashMap<i32, ProcessCacheEntry>,
}

impl ProcessCache {
    pub closed spec fn ttl(&self) -> i64 {
        self.ttl_ms
    }

    /// The entries held, by pid.
    pub closed spec fn entries(&self) -> Map<i32, ProcessCacheEntry> {
        self.map@
    }

    pub fn new(ttl_ms: i64) -> (r: Self)
        ensures
            r.ttl() == ttl_ms,
            r.entries() == Map::<i32, ProcessCacheEntry>::empty(),
    {
        ProcessCache { ttl_ms, map: HashMap::new() }
    }

    /// Records `command` for `pid` as seen at `now_ms`, with no jiffies known.
    pub fn upsert(&mut self, pid: i32, command: String, now_ms: i64)
        ensures
            final(self).ttl() == old(self).ttl(),
            final(self).entries() == old(self).entries().insert(
                pid,
                ProcessCacheEntry { command, last_seen_ms: now_ms, last_proc_jiffies: 0 },
            ),
    {
        self.map.insert(pid, ProcessCacheEntry { command, last_seen_ms: now_ms, last_proc_jiffies: 0 });
    }

    /// The command recorded for `pid`, unless it was seen more than the time
    /// to live before `now_ms`.
    pub fn get_command(&self, pid: i32, now_ms: i64) -> (r: Option<&str>)
        ensures
            match r {
                None => !self.entries().contains_key(pid) || now_ms - self.entries()[pid].last_seen_ms
                    > self.ttl(),
                Some(c) => self.entries().contains_key(pid) && now_ms
                    - self.entries()[pid].last_seen_ms <= self.ttl() && c@ == self.entries()[pid].command@,
            },
    {
        let entry = match self.map.get(&pid) {
            Some(e) => e,
            None => return None,
        };
        let age: i128 = now_ms as i128 - entry.last_seen_ms as i128;
        if age > self.ttl_ms as i128 {
            return None;
        }
        Some(entry.command.as_str())
    }

    /// Records `command` for `pid` as seen at `now_ms`, with its cumulative jiffies.
    pub fn upsert_with_jiffies(&mut self, pid: i32, command: String, now_ms: i64, jiffies: u64)
        ensures
            final(self).ttl() == old(self).ttl(),
            final(self).entries() == old(self).entries().insert(
                pid,
                ProcessCacheEntry { command, last_seen_ms: now_ms, last_proc_jiffies: jiffies },
            ),
    {
        self.map.insert(
            pid,
            ProcessCacheEntry { command, last_seen_ms: now_ms, last_proc_jiffies: jiffies },
        );
    }
}

} // verus!
