//! Parsers for the kernel's aggregate CPU, memory, network and disk counters
//! and for per-process counter and status text.

use vstd::prelude::*;
use vstd::string::StringSliceAdditionalSpecFns;
use vstd::utf8::is_char_boundary;
use crate::text::{
    find_byte, find_last_byte, first_index, last_index, has_prefix, line_spans, parse_u64, span_equals, lines, parse_u64_at, pieces, span_has_prefix, spans_within, token_spans,
    tokens, u64_or_zero,
};

verus! {

/// Cumulative jiffies since boot: those spent idle, and all of them.
#[derive(Debug, Clone, Copy, PartialEq, Eq, Structural)]
pub struct CpuTotals {
    pub idle: u64,
    pub total: u64,
}

/// Memory and swap sizes, in kilobytes.
#[derive(Debug, Clone, Copy, PartialEq, Eq, Structural)]
pub struct MemInfo {
    pub mem_total_kb: u64,
    pub mem_available_kb: u64,
    pub swap_total_kb: u64,
    pub swap_free_kb: u64,
}

/// `cpu ` followed by a space: the aggregate line, as opposed to `cpu0`, `cpu1`...
pub open spec fn cpu_key() -> Seq<u8> {
    seq![99u8, 112u8, 117u8, 32u8]
}

/// The first of `ls` that starts with `p`.
pub open spec fn first_with_prefix(ls: Seq<Seq<u8>>, p: Seq<u8>) -> Option<Seq<u8>>
    decreases ls.len(),
{
    if ls.len() == 0 {
        None
    } else {
        match first_with_prefix(ls.drop_last(), p) {
            Some(l) => Some(l),
            None => if has_prefix(ls.last(), p) {
                Some(ls.last())
            } else {
                None
            },
        }
    }
}

pub open spec fn seq_sum(v: Seq<u64>) -> nat
    decreases v.len(),
{
    if v.len() == 0 {
        0
    } else {
        (seq_sum(v.drop_last()) + v.last()) as nat
    }
}

pub open spec fn clamp_u64(x: nat) -> u64 {
    if x > u64::MAX {
        u64::MAX
    } else {
        x as u64
    }
}

/// The numeric fields of the aggregate CPU line: every word after the label,
/// a word that is no number counting as zero.
pub open spec fn cpu_fields(line: Seq<u8>) -> Seq<u64> {
    let ts = tokens(line);
    ts.subrange(1, ts.len() as int).map_values(|t: Seq<u8>| u64_or_zero(t))
}

/// How many of `ws` read as numbers.
pub open spec fn numeric_count(ws: Seq<Seq<u8>>) -> nat
    decreases ws.len(),
{
    if ws.len() == 0 {
        0
    } else {
        numeric_count(ws.drop_last()) + if parse_u64(ws.last()) is Some {
            1nat
        } else {
            0nat
        }
    }
}

/// CPU totals of `/proc/stat` text: `idle` is the fourth field, `total` the sum
/// of all fields (held at `u64::MAX`); absent without the aggregate line or
/// where fewer than four of the words after its label are numbers.
pub open spec fn cpu_totals_of(text: Seq<u8>) -> Option<CpuTotals> {
    match first_with_prefix(lines(text), cpu_key()) {
        None => None,
        Some(line) => {
            let f = cpu_fields(line);
            let ts = tokens(line);
            if ts.len() < 5 || numeric_count(ts.subrange(1, ts.len() as int)) < 4 {
                None
            } else {
                Some(CpuTotals { idle: f[3], total: clamp_u64(seq_sum(f)) })
            }
        },
    }
}

/// Finds the first line of `s` that starts with `key`.
pub fn find_line_with_prefix(s: &[u8], ls: &Vec<(usize, usize)>, key: &[u8]) -> (r: Option<
    (usize, usize),
>)
    requires
        spans_within(ls@, 0, s@.len() as int),
    ensures
        match r {
            None => first_with_prefix(pieces(s@, ls@), key@) == None::<Seq<u8>>,
            Some(sp) => first_with_prefix(pieces(s@, ls@), key@) == Some(
                s@.subrange(sp.0 as int, sp.1 as int),
            ) && sp.0 <= sp.1 <= s@.len(),
        },
{
    let mut i: usize = 0;
    while i < ls.len()
        invariant
            i <= ls@.len(),
            spans_within(ls@, 0, s@.len() as int),
            first_with_prefix(pieces(s@, ls@).subrange(0, i as int), key@) == None::<Seq<u8>>,
        decreases ls@.len() - i,
    {
        let (lo, hi) = ls[i];
        assert(pieces(s@, ls@).subrange(0, i + 1).drop_last() =~= pieces(s@, ls@).subrange(
            0,
            i as int,
        ));
        if span_has_prefix(s, lo, hi, key) {
            proof {
                lemma_first_with_prefix_extends(pieces(s@, ls@), key@, i as int, ls@.len() as int);
                assert(pieces(s@, ls@).subrange(0, ls@.len() as int) =~= pieces(s@, ls@));
            }
            return Some((lo, hi));
        }
        i = i + 1;
    }
    assert(pieces(s@, ls@).subrange(0, i as int) =~= pieces(s@, ls@));
    None
}

proof fn lemma_first_with_prefix_extends(ls: Seq<Seq<u8>>, p: Seq<u8>, i: int, j: int)
    requires
        0 <= i < j <= ls.len(),
        first_with_prefix(ls.subrange(0, i + 1), p) is Some,
    ensures
        first_with_prefix(ls.subrange(0, j), p) == first_with_prefix(ls.subrange(0, i + 1), p),
    decreases j - i,
{
    if j > i + 1 {
        lemma_first_with_prefix_extends(ls, p, i, j - 1);
        assert(ls.subrange(0, j).drop_last() =~= ls.subrange(0, j - 1));
    }
}

/// Reads the aggregate CPU line of `/proc/stat` text.
pub fn parse_cpu_totals(input: &str) -> (r: Option<CpuTotals>)
    ensures
        r == cpu_totals_of(input.spec_bytes()),
{
    let s = input.as_bytes();
    let ls = line_spans(s);
    let key: [u8; 4] = [99, 112, 117, 32];
    assert(key@ == cpu_key());
    let found = find_line_with_prefix(s, &ls, key.as_slice());
    assert(pieces(s@, ls@) == lines(s@));
    let (lo, hi) = match found {
        None => return None,
        Some(sp) => sp,
    };
    let ghost line = s@.subrange(lo as int, hi as int);
    let ts = token_spans(s, lo, hi);
    let ghost f = cpu_fields(line);
    assert(tokens(line).len() == ts@.len());
    if ts.len() < 5 {
        return None;
    }
    let ghost words = tokens(line).subrange(1, ts@.len() as int);
    let mut idle: u64 = 0;
    let mut total: u64 = 0;
    let mut numbers: u64 = 0;
    let mut k: usize = 1;
    while k < ts.len()
        invariant
            1 <= k <= ts@.len(),
            words == tokens(line).subrange(1, ts@.len() as int),
            numbers == numeric_count(words.subrange(0, k - 1)),
            numbers < k,
            ts@.len() >= 5,
            spans_within(ts@, lo as int, hi as int),
            hi <= s@.len(),
            pieces(s@, ts@) == tokens(line),
            f == cpu_fields(line),
            f.len() == ts@.len() - 1,
            total == clamp_u64(seq_sum(f.subrange(0, k - 1))),
            k > 4 ==> idle == f[3],
        decreases ts@.len() - k,
    {
        let (a, b) = ts[k];
        let v = match parse_u64_at(s, a, b) {
            Some(v) => v,
            None => 0,
        };
        assert(v == f[k - 1]);
        assert(f.subrange(0, k as int).drop_last() =~= f.subrange(0, k - 1));
        assert(words.subrange(0, k as int).drop_last() =~= words.subrange(0, k - 1));
        assert(words[k - 1] == s@.subrange(a as int, b as int));
        if parse_u64_at(s, a, b).is_some() {
            numbers = numbers + 1;
        }
        if k == 4 {
            idle = v;
        }
        total = total.saturating_add(v);
        k = k + 1;
    }
    assert(f.subrange(0, f.len() as int) =~= f);
    assert(words.subrange(0, words.len() as int) =~= words);
    if numbers < 4 {
        return None;
    }
    Some(CpuTotals { idle, total })
}

/// What a line says of `key` when its first word is `key`: the number in its
/// second word, or `None` where that word is missing or no number.
pub open spec fn label_value(line: Seq<u8>, key: Seq<u8>) -> Option<Option<u64>> {
    let ts = tokens(line);
    if ts.len() > 0 && ts[0] == key {
        Some(
            if ts.len() > 1 {
                parse_u64(ts[1])
            } else {
                None
            },
        )
    } else {
        None
    }
}

/// What the last line labelled `key` says of it; absent where no line is.
pub open spec fn labelled_value(ls: Seq<Seq<u8>>, key: Seq<u8>) -> Option<Option<u64>>
    decreases ls.len(),
{
    if ls.len() == 0 {
        None
    } else {
        match label_value(ls.last(), key) {
            Some(v) => Some(v),
            None => labelled_value(ls.drop_last(), key),
        }
    }
}

pub open spec fn mem_total_key() -> Seq<u8> {
    seq![77u8, 101u8, 109u8, 84u8, 111u8, 116u8, 97u8, 108u8, 58u8]
}

pub open spec fn mem_available_key() -> Seq<u8> {
    seq![77u8, 101u8, 109u8, 65u8, 118u8, 97u8, 105u8, 108u8, 97u8, 98u8, 108u8, 101u8, 58u8]
}

pub open spec fn swap_total_key() -> Seq<u8> {
    seq![83u8, 119u8, 97u8, 112u8, 84u8, 111u8, 116u8, 97u8, 108u8, 58u8]
}

pub open spec fn swap_free_key() -> Seq<u8> {
    seq![83u8, 119u8, 97u8, 112u8, 70u8, 114u8, 101u8, 101u8, 58u8]
}

/// Memory sizes of `/proc/meminfo` text: each of `MemTotal:`, `MemAvailable:`,
/// `SwapTotal:` and `SwapFree:` as its last line gives it; absent where one of
/// them is missing or its number is malformed.
pub open spec fn meminfo_of(text: Seq<u8>) -> Option<MemInfo> {
    let ls = lines(text);
    match (
        labelled_value(ls, mem_total_key()),
        labelled_value(ls, mem_available_key()),
        labelled_value(ls, swap_total_key()),
        labelled_value(ls, swap_free_key()),
    ) {
        (Some(Some(a)), Some(Some(b)), Some(Some(c)), Some(Some(d))) => Some(
            MemInfo { mem_total_kb: a, mem_available_kb: b, swap_total_kb: c, swap_free_kb: d },
        ),
        _ => None,
    }
}

proof fn lemma_labelled_step(ls: Seq<Seq<u8>>, i: int, key: Seq<u8>)
    requires
        0 <= i < ls.len(),
    ensures
        labelled_value(ls.subrange(0, i + 1), key) == match label_value(ls[i], key) {
            Some(v) => Some(v),
            None => labelled_value(ls.subrange(0, i), key),
        },
{
    assert(ls.subrange(0, i + 1).drop_last() =~= ls.subrange(0, i));
    assert(ls.subrange(0, i + 1).last() == ls[i]);
}

/// Memory info is absent where any one of its four labels is missing.
pub proof fn lemma_meminfo_needs_every_label(text: Seq<u8>)
    requires
        labelled_value(lines(text), mem_total_key()) is None || labelled_value(
            lines(text),
            mem_available_key(),
        ) is None || labelled_value(lines(text), swap_total_key()) is None || labelled_value(
            lines(text),
            swap_free_key(),
        ) is None,
    ensures
        meminfo_of(text) is None,
{
}

/// What the line whose word spans are `ts` says of `key`.
fn label_value_of(s: &[u8], lo: usize, hi: usize, ts: &Vec<(usize, usize)>, key: &[u8]) -> (r:
    Option<Option<u64>>)
    requires
        lo <= hi <= s@.len(),
        spans_within(ts@, lo as int, hi as int),
        pieces(s@, ts@) == tokens(s@.subrange(lo as int, hi as int)),
    ensures
        r == label_value(s@.subrange(lo as int, hi as int), key@),
{
    let ghost line = s@.subrange(lo as int, hi as int);
    assert(tokens(line).len() == ts@.len());
    if ts.len() == 0 {
        return None;
    }
    let (a, b) = ts[0];
    if !span_equals(s, a, b, key) {
        return None;
    }
    if ts.len() == 1 {
        return Some(None);
    }
    let (c, d) = ts[1];
    Some(parse_u64_at(s, c, d))
}

/// Reads the memory and swap sizes of `/proc/meminfo` text.
pub fn parse_meminfo(input: &str) -> (r: Option<MemInfo>)
    ensures
        r == meminfo_of(input.spec_bytes()),
{
    let s = input.as_bytes();
    let ls = line_spans(s);
    let k_total: [u8; 9] = [77, 101, 109, 84, 111, 116, 97, 108, 58];
    let k_avail: [u8; 13] = [77, 101, 109, 65, 118, 97, 105, 108, 97, 98, 108, 101, 58];
    let k_swap_total: [u8; 10] = [83, 119, 97, 112, 84, 111, 116, 97, 108, 58];
    let k_swap_free: [u8; 9] = [83, 119, 97, 112, 70, 114, 101, 101, 58];
    assert(k_total@ == mem_total_key());
    assert(k_avail@ == mem_available_key());
    assert(k_swap_total@ == swap_total_key());
    assert(k_swap_free@ == swap_free_key());
    let ghost all = pieces(s@, ls@);
    let mut mem_total: Option<Option<u64>> = None;
    let mut mem_available: Option<Option<u64>> = None;
    let mut swap_total: Option<Option<u64>> = None;
    let mut swap_free: Option<Option<u64>> = None;
    let mut i: usize = 0;
    while i < ls.len()
        invariant
            i <= ls@.len(),
            all == pieces(s@, ls@),
            spans_within(ls@, 0, s@.len() as int),
            k_total@ == mem_total_key(),
            k_avail@ == mem_available_key(),
            k_swap_total@ == swap_total_key(),
            k_swap_free@ == swap_free_key(),
            mem_total == labelled_value(all.subrange(0, i as int), mem_total_key()),
            mem_available == labelled_value(all.subrange(0, i as int), mem_available_key()),
            swap_total == labelled_value(all.subrange(0, i as int), swap_total_key()),
            swap_free == labelled_value(all.subrange(0, i as int), swap_free_key()),
        decreases ls@.len() - i,
    {
        let (lo, hi) = ls[i];
        let ts = token_spans(s, lo, hi);
        proof {
            lemma_labelled_step(all, i as int, mem_total_key());
            lemma_labelled_step(all, i as int, mem_available_key());
            lemma_labelled_step(all, i as int, swap_total_key());
            lemma_labelled_step(all, i as int, swap_free_key());
        }
        assert(all[i as int] == s@.subrange(lo as int, hi as int));
        let v = label_value_of(s, lo, hi, &ts, k_total.as_slice());
        if v.is_some() {
            mem_total = v;
        }
        let v = label_value_of(s, lo, hi, &ts, k_avail.as_slice());
        if v.is_some() {
            mem_available = v;
        }
        let v = label_value_of(s, lo, hi, &ts, k_swap_total.as_slice());
        if v.is_some() {
            swap_total = v;
        }
        let v = label_value_of(s, lo, hi, &ts, k_swap_free.as_slice());
        if v.is_some() {
            swap_free = v;
        }
        i = i + 1;
    }
    assert(all.subrange(0, i as int) =~= all);
    match (mem_total, mem_available, swap_total, swap_free) {
        (Some(Some(a)), Some(Some(b)), Some(Some(c)), Some(Some(d))) => Some(
            MemInfo { mem_total_kb: a, mem_available_kb: b, swap_total_kb: c, swap_free_kb: d },
        ),
        _ => None,
    }
}

/// What a line of `/proc/net/dev` adds to the received and sent byte totals:
/// nothing for a line without a colon, with no interface name before it, of
/// the loopback interface, or with fewer than nine columns after the colon;
/// else its first and ninth columns (zero where either is no number).
pub open spec fn net_line_bytes(line: Seq<u8>) -> Option<(u64, u64)> {
    match first_index(line, 58) {
        None => None,
        Some(c) => {
            let iface = tokens(line.subrange(0, c));
            let rest = line.subrange(c + 1, line.len() as int);
            let data = match first_index(rest, 58) {
                Some(d) => rest.subrange(0, d),
                None => rest,
            };
            let cols = tokens(data);
            if iface.len() == 0 || iface == seq![seq![108u8, 111u8]] || cols.len() < 9 {
                None
            } else {
                Some((u64_or_zero(cols[0]), u64_or_zero(cols[8])))
            }
        },
    }
}

/// Received and sent bytes summed over the lines `ls`.
pub open spec fn net_sums(ls: Seq<Seq<u8>>) -> (nat, nat)
    decreases ls.len(),
{
    if ls.len() == 0 {
        (0, 0)
    } else {
        let p = net_sums(ls.drop_last());
        match net_line_bytes(ls.last()) {
            Some(c) => ((p.0 + c.0) as nat, (p.1 + c.1) as nat),
            None => p,
        }
    }
}

/// Received and sent byte totals of `/proc/net/dev` text, held at `u64::MAX`.
pub open spec fn network_totals_of(text: Seq<u8>) -> (u64, u64) {
    let t = net_sums(lines(text));
    (clamp_u64(t.0), clamp_u64(t.1))
}

fn net_line_counts(s: &[u8], lo: usize, hi: usize) -> (r: Option<(u64, u64)>)
    requires
        lo <= hi <= s@.len(),
    ensures
        r == net_line_bytes(s@.subrange(lo as int, hi as int)),
{
    let ghost line = s@.subrange(lo as int, hi as int);
    let c = match find_byte(s, lo, hi, 58) {
        None => return None,
        Some(c) => c,
    };
    assert(line.subrange(0, c - lo) =~= s@.subrange(lo as int, c as int));
    let ghost rest = line.subrange(c - lo + 1, line.len() as int);
    assert(rest =~= s@.subrange(c + 1, hi as int));
    let end = match find_byte(s, c + 1, hi, 58) {
        Some(d) => {
            assert(rest.subrange(0, d - (c + 1)) =~= s@.subrange(c + 1, d as int));
            d
        },
        None => hi,
    };
    let iface = token_spans(s, lo, c);
    let cols = token_spans(s, c + 1, end);
    assert(tokens(s@.subrange(lo as int, c as int)).len() == iface@.len());
    assert(tokens(s@.subrange(c + 1, end as int)).len() == cols@.len());
    if iface.len() == 0 || cols.len() < 9 {
        return None;
    }
    if iface.len() == 1 {
        let lo_name: [u8; 2] = [108, 111];
        let (a, b) = iface[0];
        if span_equals(s, a, b, lo_name.as_slice()) {
            assert(tokens(s@.subrange(lo as int, c as int)) =~= seq![seq![108u8, 111u8]]);
            return None;
        }
        assert(tokens(s@.subrange(lo as int, c as int)) != seq![seq![108u8, 111u8]]) by {
            assert(tokens(s@.subrange(lo as int, c as int))[0] != seq![108u8, 111u8]);
        }
    }
    let (a0, b0) = cols[0];
    let (a8, b8) = cols[8];
    let rx = match parse_u64_at(s, a0, b0) {
        Some(v) => v,
        None => 0,
    };
    let tx = match parse_u64_at(s, a8, b8) {
        Some(v) => v,
        None => 0,
    };
    Some((rx, tx))
}

/// Sums the received and sent bytes of every interface but loopback in
/// `/proc/net/dev` text; lines that do not fit are passed over.
pub fn parse_network_totals(input: &str) -> (r: (u64, u64))
    ensures
        r == network_totals_of(input.spec_bytes()),
{
    let s = input.as_bytes();
    let ls = line_spans(s);
    let ghost all = pieces(s@, ls@);
    let mut rx: u64 = 0;
    let mut tx: u64 = 0;
    let mut i: usize = 0;
    while i < ls.len()
        invariant
            i <= ls@.len(),
            all == pieces(s@, ls@),
            spans_within(ls@, 0, s@.len() as int),
            rx == clamp_u64(net_sums(all.subrange(0, i as int)).0),
            tx == clamp_u64(net_sums(all.subrange(0, i as int)).1),
        decreases ls@.len() - i,
    {
        let (lo, hi) = ls[i];
        assert(all.subrange(0, i + 1).drop_last() =~= all.subrange(0, i as int));
        assert(all.subrange(0, i + 1).last() == s@.subrange(lo as int, hi as int));
        match net_line_counts(s, lo, hi) {
            Some((a, b)) => {
                rx = rx.saturating_add(a);
                tx = tx.saturating_add(b);
            },
            None => {},
        }
        i = i + 1;
    }
    assert(all.subrange(0, i as int) =~= all);
    (rx, tx)
}

/// Whether a block device is left out of the disk totals: loop, ram,
/// device-mapper and optical devices.
pub open spec fn virtual_device(name: Seq<u8>) -> bool {
    has_prefix(name, seq![108u8, 111u8, 111u8, 112u8]) || has_prefix(name, seq![114u8, 97u8, 109u8])
        || has_prefix(name, seq![100u8, 109u8, 45u8]) || has_prefix(name, seq![115u8, 114u8])
}

/// What a line of `/proc/diskstats` adds to the sectors read and written:
/// nothing for a line of fewer than fourteen columns or of a virtual device;
/// else its sixth and tenth columns (zero where either is no number).
pub open spec fn disk_line_sectors(line: Seq<u8>) -> Option<(u64, u64)> {
    let cols = tokens(line);
    if cols.len() < 14 || virtual_device(cols[2]) {
        None
    } else {
        Some((u64_or_zero(cols[5]), u64_or_zero(cols[9])))
    }
}

/// Sectors read and written, summed over the lines `ls`.
pub open spec fn disk_sums(ls: Seq<Seq<u8>>) -> (nat, nat)
    decreases ls.len(),
{
    if ls.len() == 0 {
        (0, 0)
    } else {
        let p = disk_sums(ls.drop_last());
        match disk_line_sectors(ls.last()) {
            Some(c) => ((p.0 + c.0) as nat, (p.1 + c.1) as nat),
            None => p,
        }
    }
}

/// Bytes read and written of `/proc/diskstats` text, at 512 bytes a sector,
/// held at `u64::MAX`.
pub open spec fn disk_totals_of(text: Seq<u8>) -> (u64, u64) {
    let t = disk_sums(lines(text));
    (clamp_u64(512 * t.0), clamp_u64(512 * t.1))
}

fn disk_line_counts(s: &[u8], lo: usize, hi: usize) -> (r: Option<(u64, u64)>)
    requires
        lo <= hi <= s@.len(),
    ensures
        r == disk_line_sectors(s@.subrange(lo as int, hi as int)),
{
    let cols = token_spans(s, lo, hi);
    assert(tokens(s@.subrange(lo as int, hi as int)).len() == cols@.len());
    if cols.len() < 14 {
        return None;
    }
    let (a, b) = cols[2];
    let k_loop: [u8; 4] = [108, 111, 111, 112];
    let k_ram: [u8; 3] = [114, 97, 109];
    let k_dm: [u8; 3] = [100, 109, 45];
    let k_sr: [u8; 2] = [115, 114];
    assert(k_loop@ == seq![108u8, 111u8, 111u8, 112u8]);
    assert(k_ram@ == seq![114u8, 97u8, 109u8]);
    assert(k_dm@ == seq![100u8, 109u8, 45u8]);
    assert(k_sr@ == seq![115u8, 114u8]);
    if span_has_prefix(s, a, b, k_loop.as_slice()) || span_has_prefix(s, a, b, k_ram.as_slice())
        || span_has_prefix(s, a, b, k_dm.as_slice()) || span_has_prefix(s, a, b, k_sr.as_slice()) {
        return None;
    }
    let (a5, b5) = cols[5];
    let (a9, b9) = cols[9];
    let read = match parse_u64_at(s, a5, b5) {
        Some(v) => v,
        None => 0,
    };
    let write = match parse_u64_at(s, a9, b9) {
        Some(v) => v,
        None => 0,
    };
    Some((read, write))
}

/// `x` sectors in bytes, held at `u64::MAX`.
fn sector_bytes(x: u64) -> (r: u64)
    ensures
        r == clamp_u64((512 * x) as nat),
{
    match x.checked_mul(512) {
        Some(v) => v,
        None => u64::MAX,
    }
}

/// Sums the bytes read and written by every physical block device in
/// `/proc/diskstats` text; lines that do not fit are passed over.
pub fn parse_disk_totals(input: &str) -> (r: (u64, u64))
    ensures
        r == disk_totals_of(input.spec_bytes()),
{
    let s = input.as_bytes();
    let ls = line_spans(s);
    let ghost all = pieces(s@, ls@);
    let mut read: u64 = 0;
    let mut write: u64 = 0;
    let mut i: usize = 0;
    while i < ls.len()
        invariant
            i <= ls@.len(),
            all == pieces(s@, ls@),
            spans_within(ls@, 0, s@.len() as int),
            read == clamp_u64(512 * disk_sums(all.subrange(0, i as int)).0),
            write == clamp_u64(512 * disk_sums(all.subrange(0, i as int)).1),
        decreases ls@.len() - i,
    {
        let (lo, hi) = ls[i];
        assert(all.subrange(0, i + 1).drop_last() =~= all.subrange(0, i as int));
        assert(all.subrange(0, i + 1).last() == s@.subrange(lo as int, hi as int));
        match disk_line_counts(s, lo, hi) {
            Some((a, b)) => {
                read = read.saturating_add(sector_bytes(a));
                write = write.saturating_add(sector_bytes(b));
            },
            None => {},
        }
        i = i + 1;
    }
    assert(all.subrange(0, i as int) =~= all);
    (read, write)
}

/// User time, system time and resident pages of `/proc/<pid>/stat` text.
/// The command field may hold any byte, so the fields are read from two bytes
/// after its last `)`: there must be at least twenty-two words, and the
/// twelfth, thirteenth and twenty-second must be numbers.
pub open spec fn proc_stat_values_of(text: Seq<u8>) -> Option<(u64, u64, u64)> {
    match last_index(text, 41) {
        None => None,
        Some(p) => if p + 2 > text.len() || !is_char_boundary(text, p + 2) {
            None
        } else {
            let cols = tokens(text.subrange(p + 2, text.len() as int));
            if cols.len() < 22 {
                None
            } else {
                match (parse_u64(cols[11]), parse_u64(cols[12]), parse_u64(cols[21])) {
                    (Some(u), Some(k), Some(r)) => Some((u, k, r)),
                    _ => None,
                }
            }
        },
    }
}

/// Reads user time, system time and resident pages of a process.
pub fn parse_proc_stat_values(stat_raw: &str) -> (r: Option<(u64, u64, u64)>)
    ensures
        r == proc_stat_values_of(stat_raw.spec_bytes()),
{
    let s = stat_raw.as_bytes();
    let p = match find_last_byte(s, 41) {
        None => return None,
        Some(p) => p,
    };
    if s.len() - p < 2 || !stat_raw.is_char_boundary(p + 2) {
        return None;
    }
    let cols = token_spans(s, p + 2, s.len());
    assert(tokens(s@.subrange(p + 2, s@.len() as int)).len() == cols@.len());
    if cols.len() < 22 {
        return None;
    }
    let (a, b) = cols[11];
    let utime = match parse_u64_at(s, a, b) {
        Some(v) => v,
        None => return None,
    };
    let (a, b) = cols[12];
    let stime = match parse_u64_at(s, a, b) {
        Some(v) => v,
        None => return None,
    };
    let (a, b) = cols[21];
    let rss = match parse_u64_at(s, a, b) {
        Some(v) => v,
        None => return None,
    };
    Some((utime, stime, rss))
}

pub open spec fn uid_key() -> Seq<u8> {
    seq![85u8, 105u8, 100u8, 58u8]
}

/// The real user id of `/proc/<pid>/status` text: the second word of the
/// first line that starts with `Uid:`, where it is a number that fits `u32`.
pub open spec fn uid_of(text: Seq<u8>) -> Option<u32> {
    match first_with_prefix(lines(text), uid_key()) {
        None => None,
        Some(line) => {
            let ts = tokens(line);
            if ts.len() < 2 {
                None
            } else {
                match parse_u64(ts[1]) {
                    Some(v) => if v <= u32::MAX {
                        Some(v as u32)
                    } else {
                        None
                    },
                    None => None,
                }
            }
        },
    }
}

/// Reads the real user id of a process from its status text.
pub fn parse_uid(status: &str) -> (r: Option<u32>)
    ensures
        r == uid_of(status.spec_bytes()),
{
    let s = status.as_bytes();
    let ls = line_spans(s);
    let key: [u8; 4] = [85, 105, 100, 58];
    assert(key@ == uid_key());
    let found = find_line_with_prefix(s, &ls, key.as_slice());
    let (lo, hi) = match found {
        None => return None,
        Some(sp) => sp,
    };
    let ts = token_spans(s, lo, hi);
    assert(tokens(s@.subrange(lo as int, hi as int)).len() == ts@.len());
    if ts.len() < 2 {
        return None;
    }
    let (a, b) = ts[1];
    match parse_u64_at(s, a, b) {
        Some(v) => if v <= 0xffff_ffff {
            Some(v as u32)
        } else {
            None
        },
        None => None,
    }
}

/// The value of the first `MemTotal:` line of `ls` whose second word is a number.
pub open spec fn first_mem_total(ls: Seq<Seq<u8>>) -> Option<u64>
    decreases ls.len(),
{
    if ls.len() == 0 {
        None
    } else {
        match first_mem_total(ls.drop_last()) {
            Some(v) => Some(v),
            None => {
                let ts = tokens(ls.last());
                if has_prefix(ls.last(), mem_total_key()) && ts.len() >= 2 {
                    parse_u64(ts[1])
                } else {
                    None
                }
            },
        }
    }
}

/// Total memory in bytes from `/proc/meminfo` text (held at `u64::MAX`), or
/// one byte where no `MemTotal:` line gives it.
pub open spec fn total_mem_bytes_of(text: Seq<u8>) -> u64 {
    match first_mem_total(lines(text)) {
        Some(kb) => clamp_u64((kb * 1024) as nat),
        None => 1,
    }
}

/// Reads the total memory size in bytes, for per-process memory shares.
pub fn total_mem_bytes(meminfo: &str) -> (r: u64)
    ensures
        r == total_mem_bytes_of(meminfo.spec_bytes()),
{
    let s = meminfo.as_bytes();
    let ls = line_spans(s);
    let key: [u8; 9] = [77, 101, 109, 84, 111, 116, 97, 108, 58];
    let ghost all = pieces(s@, ls@);
    let mut i: usize = 0;
    while i < ls.len()
        invariant
            i <= ls@.len(),
            all == pieces(s@, ls@),
            spans_within(ls@, 0, s@.len() as int),
            key@ == mem_total_key(),
            all == lines(meminfo.spec_bytes()),
            first_mem_total(all.subrange(0, i as int)) == None::<u64>,
        decreases ls@.len() - i,
    {
        let (lo, hi) = ls[i];
        assert(all.subrange(0, i + 1).drop_last() =~= all.subrange(0, i as int));
        assert(all.subrange(0, i + 1).last() == s@.subrange(lo as int, hi as int));
        if span_has_prefix(s, lo, hi, key.as_slice()) {
            let ts = token_spans(s, lo, hi);
            assert(tokens(s@.subrange(lo as int, hi as int)).len() == ts@.len());
            if ts.len() >= 2 {
                let (a, b) = ts[1];
                if let Some(kb) = parse_u64_at(s, a, b) {
                    assert(tokens(s@.subrange(lo as int, hi as int))[1] == s@.subrange(a as int, b as int));
                    assert(first_mem_total(all.subrange(0, i + 1)) == Some(kb));
                    proof {
                        lemma_first_mem_total_extends(all, i as int, all.len() as int);
                        assert(all.subrange(0, all.len() as int) =~= all);
                    }
                    return match kb.checked_mul(1024) {
                        Some(v) => v,
                        None => u64::MAX,
                    };
                }
            }
        }
        i = i + 1;
    }
    assert(all.subrange(0, i as int) =~= all);
    1
}

proof fn lemma_first_mem_total_extends(ls: Seq<Seq<u8>>, i: int, j: int)
    requires
        0 <= i < j <= ls.len(),
        first_mem_total(ls.subrange(0, i + 1)) is Some,
    ensures
        first_mem_total(ls.subrange(0, j)) == first_mem_total(ls.subrange(0, i + 1)),
    decreases j - i,
{
    if j > i + 1 {
        lemma_first_mem_total_extends(ls, i, j - 1);
        assert(ls.subrange(0, j).drop_last() =~= ls.subrange(0, j - 1));
    }
}

} // verus!
