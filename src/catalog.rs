//! Builds the rows of the process table from each process's counter and
//! status text and the system-wide totals.

use vstd::prelude::*;
use vstd::string::StringSliceAdditionalSpecFns;
use crate::delta::Ratio;
use crate::models::ProcessRow;
use crate::procfs::{clamp_u64, parse_proc_stat_values, parse_uid, proc_stat_values_of, uid_of};

verus! {

/// What the table needs of one process.
#[derive(Debug, Clone, Copy, PartialEq, Eq, Structural)]
pub struct ProcessSample {
    pub utime: u64,
    pub stime: u64,
    pub rss_pages: u64,
    pub uid: u32,
}

/// System-wide values that every row is computed against.
#[derive(Debug, Clone, Copy, PartialEq, Eq, Structural)]
pub struct SystemFacts {
    pub clock_ticks: u64,
    pub page_size: u64,
    pub uptime_ms: u64,
    pub total_mem_bytes: u64,
}

/// The sample of a process, from its stat and status text: absent where either
/// text is empty or the counters cannot be read; the owner is root where the
/// status text does not name one.
pub open spec fn sample_of(stat: Seq<u8>, status: Seq<u8>) -> Option<ProcessSample> {
    if stat.len() == 0 || status.len() == 0 {
        None
    } else {
        match proc_stat_values_of(stat) {
            None => None,
            Some(v) => Some(
                ProcessSample {
                    utime: v.0,
                    stime: v.1,
                    rss_pages: v.2,
                    uid: match uid_of(status) {
                        Some(u) => u,
                        None => 0,
                    },
                },
            ),
        }
    }
}

pub fn sample_process(stat: &str, status: &str) -> (r: Option<ProcessSample>)
    ensures
        r == sample_of(stat.spec_bytes(), status.spec_bytes()),
{
    if stat.as_bytes().len() == 0 || status.as_bytes().len() == 0 {
        return None;
    }
    let (utime, stime, rss_pages) = match parse_proc_stat_values(stat) {
        Some(v) => v,
        None => return None,
    };
    let uid = match parse_uid(status) {
        Some(u) => u,
        None => 0,
    };
    Some(ProcessSample { utime, stime, rss_pages, uid })
}

/// CPU time over uptime, as a share of one CPU: `(utime + stime)` ticks at
/// `clock_ticks` a second (at least one) over an uptime of at least a second;
/// each product held at `u64::MAX`.
pub open spec fn process_cpu_share(s: ProcessSample, f: SystemFacts) -> Ratio {
    let hz: nat = if f.clock_ticks == 0 {
        1
    } else {
        f.clock_ticks as nat
    };
    let up: nat = if f.uptime_ms < 1000 {
        1000
    } else {
        f.uptime_ms as nat
    };
    Ratio { num: clamp_u64(((s.utime + s.stime) * 1000) as nat), den: clamp_u64(hz * up) }
}

/// Resident bytes over all memory (at least one byte), as a share of one; a
/// page is at least one byte, and the product is held at `u64::MAX`.
pub open spec fn process_mem_share(s: ProcessSample, f: SystemFacts) -> Ratio {
    let page: nat = if f.page_size == 0 {
        1
    } else {
        f.page_size as nat
    };
    Ratio {
        num: clamp_u64((s.rss_pages * page) as nat),
        den: if f.total_mem_bytes == 0 {
            1
        } else {
            f.total_mem_bytes
        },
    }
}

fn saturating_product(a: u64, b: u64) -> (r: u64)
    ensures
        r == clamp_u64((a * b) as nat),
{
    match a.checked_mul(b) {
        Some(v) => v,
        None => u64::MAX,
    }
}

/// The row of process `pid`, owned by `user` and running `command`.
pub fn make_row(pid: i32, user: String, command: String, s: ProcessSample, f: SystemFacts) -> (r:
    ProcessRow)
    ensures
        r == (ProcessRow {
            pid,
            user,
            command,
            cpu_share: process_cpu_share(s, f),
            mem_share: process_mem_share(s, f),
        }),
        r.cpu_share.wf(),
        r.mem_share.wf(),
{
    let hz = if f.clock_ticks == 0 {
        1
    } else {
        f.clock_ticks
    };
    let up = if f.uptime_ms < 1000 {
        1000
    } else {
        f.uptime_ms
    };
    let ticks = s.utime.saturating_add(s.stime);
    let num = saturating_product(ticks, 1000);
    proof {
        if s.utime + s.stime > u64::MAX {
            assert((s.utime + s.stime) * 1000 > u64::MAX) by (nonlinear_arith)
                requires
                    s.utime + s.stime > u64::MAX,
            ;
        }
        assert(hz * up >= 1) by (nonlinear_arith)
            requires
                hz >= 1,
                up >= 1,
        ;
    }
    let den = saturating_product(hz, up);
    let page = if f.page_size == 0 {
        1
    } else {
        f.page_size
    };
    let mem_den = if f.total_mem_bytes == 0 {
        1
    } else {
        f.total_mem_bytes
    };
    ProcessRow {
        pid,
        user,
        command,
        cpu_share: Ratio { num, den },
        mem_share: Ratio { num: saturating_product(s.rss_pages, page), den: mem_den },
    }
}

/// The arguments of a NUL-separated argument vector: its non-empty pieces
/// between NUL bytes, in order.
pub open spec fn nul_words(s: Seq<u8>) -> Seq<Seq<u8>>
    decreases s.len(),
{
    if s.len() == 0 {
        Seq::empty()
    } else {
        let init = nul_words(s.drop_last());
        if s.last() == 0 {
            init
        } else if s.len() >= 2 && s[s.len() - 2] != 0 {
            init.drop_last().push(init.last().push(s.last()))
        } else {
            init.push(seq![s.last()])
        }
    }
}

/// `ws` joined with single spaces.
pub open spec fn join_words(ws: Seq<Seq<u8>>) -> Seq<u8>
    decreases ws.len(),
{
    if ws.len() == 0 {
        Seq::empty()
    } else if ws.len() == 1 {
        ws[0]
    } else {
        join_words(ws.drop_last()) + seq![32u8] + ws.last()
    }
}

proof fn lemma_join_extend_last(ws: Seq<Seq<u8>>, b: u8)
    requires
        ws.len() > 0,
    ensures
        join_words(ws.drop_last().push(ws.last().push(b))) == join_words(ws).push(b),
{
    let v = ws.drop_last().push(ws.last().push(b));
    assert(v.drop_last() =~= ws.drop_last());
    if ws.len() > 1 {
        assert(join_words(v) =~= join_words(ws).push(b));
    }
}

/// The command line of a process as it is shown: the arguments of its
/// NUL-separated argument vector, joined with single spaces.
pub fn join_cmdline(raw: &[u8]) -> (r: Vec<u8>)
    ensures
        r@ == join_words(nul_words(raw@)),
{
    let mut r: Vec<u8> = Vec::new();
    let mut pending = false;
    let mut i: usize = 0;
    assert(raw@.subrange(0, 0) =~= Seq::<u8>::empty());
    while i < raw.len()
        invariant
            i <= raw@.len(),
            r@ == join_words(nul_words(raw@.subrange(0, i as int))),
            r@.len() > 0 <==> nul_words(raw@.subrange(0, i as int)).len() > 0,
            pending == (i > 0 && raw@[i - 1] == 0 && r@.len() > 0),
            i > 0 && raw@[i - 1] != 0 ==> nul_words(raw@.subrange(0, i as int)).len() > 0,
        decreases raw@.len() - i,
    {
        let ghost prev = raw@.subrange(0, i as int);
        let ghost next = raw@.subrange(0, i + 1);
        assert(next.drop_last() =~= prev);
        let b = raw[i];
        if b == 0 {
            if r.len() > 0 {
                pending = true;
            }
        } else if i > 0 && raw[i - 1] != 0 {
            assert(next[next.len() - 2] == raw@[i - 1]);
            proof {
                lemma_join_extend_last(nul_words(prev), b);
            }
            r.push(b);
        } else {
            assert(i > 0 ==> next[next.len() - 2] == raw@[i - 1]);
            if pending {
                r.push(32);
                pending = false;
            }
            r.push(b);
            let ghost ws = nul_words(prev);
            let ghost v = ws.push(seq![b]);
            assert(v.drop_last() =~= ws);
            assert(r@ =~= join_words(v));
        }
        i = i + 1;
    }
    assert(raw@.subrange(0, i as int) =~= raw@);
    r
}

/// The character of a decimal digit.
pub open spec fn digit_char(d: nat) -> char {
    seq!['0', '1', '2', '3', '4', '5', '6', '7', '8', '9'][d as int]
}

/// `n` in decimal, without sign or leading zeros.
pub open spec fn decimal_chars(n: nat) -> Seq<char>
    decreases n,
{
    if n < 10 {
        seq![digit_char(n)]
    } else {
        decimal_chars(n / 10).push(digit_char(n % 10))
    }
}

/// Relies on `ToString` for `u32`, through its `Display`: the number in
/// decimal, without sign or leading zeros.
#[verifier::external_body]
fn decimal_text(n: u32) -> (r: String)
    ensures
        r@ == decimal_chars(n as nat),
{
    n.to_string()
}

/// The user shown for a process owned by `uid`: the name that the account
/// database gives, or else the id in decimal.
pub fn user_label(uid: u32, name: Option<String>) -> (r: String)
    ensures
        match name {
            Some(n) => r == n,
            None => r@ == decimal_chars(uid as nat),
        },
{
    match name {
        Some(n) => n,
        None => decimal_text(uid),
    }
}

/// A text that is there and not empty.
pub open spec fn non_empty(t: Option<String>) -> bool {
    match t {
        Some(s) => s@.len() > 0,
        None => false,
    }
}

/// The command shown for a process: its joined argument vector where that is
/// not empty, else its short name where that is not empty, else `unknown`.
pub fn display_command(args: Option<String>, short_name: Option<String>) -> (r: String)
    ensures
        non_empty(args) ==> r == args.unwrap(),
        !non_empty(args) && non_empty(short_name) ==> r == short_name.unwrap(),
        !non_empty(args) && !non_empty(short_name) ==> r@ == "unknown"@,
{
    if let Some(a) = args {
        if !a.as_str().is_empty() {
            return a;
        }
    }
    if let Some(n) = short_name {
        if !n.as_str().is_empty() {
            return n;
        }
    }
    "unknown".to_owned()
}

} // verus!
