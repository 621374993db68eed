//! The sampler: turns one reading of the kernel's counters per tick into
//! rates, shares and six rolling histories.

use vstd::prelude::*;
use vstd::string::StringSliceAdditionalSpecFns;
use crate::delta::{byte_rate, byte_rate_of, cpu_percent, cpu_share, sat_sub, Ratio};
use crate::models::{MetricPoint, MetricsSnapshot};
use crate::procfs::{
    clamp_u64, cpu_totals_of, disk_totals_of, meminfo_of, network_totals_of, parse_cpu_totals,
    parse_disk_totals, parse_meminfo, parse_network_totals, CpuTotals, MemInfo,
};
use crate::ring_buffer::{after_push, RingBuffer};

verus! {

/// The cumulative counters of the last successful tick, and its time.
#[derive(Debug, Clone, Copy)]
pub struct Baseline {
    pub ts_ms: u64,
    pub cpu: (u64, u64),
    pub net: (u64, u64),
    pub disk: (u64, u64),
}

/// The instantaneous values of one tick.
#[derive(Debug, Clone, Copy, PartialEq, Eq, Structural)]
pub struct Readings {
    pub cpu_busy: Ratio,
    pub ram_share: Ratio,
    pub ram_used_bytes: u64,
    pub ram_total_bytes: u64,
    pub swap_used_bytes: u64,
    pub swap_total_bytes: u64,
    pub disk_read_rate: Ratio,
    pub disk_write_rate: Ratio,
    pub net_rx_rate: Ratio,
    pub net_tx_rate: Ratio,
}

/// History length for a sampling interval: a minute of points at an interval
/// of at least half a second, and no fewer than thirty.
pub open spec fn history_capacity(interval_ms: u64) -> nat {
    let step: int = if interval_ms < 500 {
        500
    } else {
        interval_ms as int
    };
    let n: int = 60_000int / step;
    if n < 30 {
        30
    } else {
        n as nat
    }
}

/// Kilobytes in bytes, held at `u64::MAX`.
pub open spec fn kb_bytes(kb: u64) -> u64 {
    clamp_u64((kb * 1024) as nat)
}

/// The rate of a counter that read `prev` at the baseline (if any) and `next`
/// now; zero without a baseline.
pub open spec fn rate_since(base: Option<Baseline>, prev: u64, next: u64, now_ms: u64) -> Ratio {
    match base {
        None => Ratio { num: 0, den: 1 },
        Some(b) => byte_rate_of(prev, next, sat_sub(now_ms, b.ts_ms)),
    }
}

/// The values of a tick at `now_ms` with these counters, against `base`.
pub open spec fn readings_of(
    base: Option<Baseline>,
    cpu: CpuTotals,
    mem: MemInfo,
    net: (u64, u64),
    disk: (u64, u64),
    now_ms: u64,
) -> Readings {
    let ram_used = kb_bytes(sat_sub(mem.mem_total_kb, mem.mem_available_kb));
    let ram_total = kb_bytes(mem.mem_total_kb);
    Readings {
        cpu_busy: match base {
            None => Ratio { num: 0, den: 1 },
            Some(b) => cpu_share(b.cpu, (cpu.idle, cpu.total)),
        },
        ram_share: if ram_total > 0 {
            Ratio { num: ram_used, den: ram_total }
        } else {
            Ratio { num: 0, den: 1 }
        },
        ram_used_bytes: ram_used,
        ram_total_bytes: ram_total,
        swap_used_bytes: kb_bytes(sat_sub(mem.swap_total_kb, mem.swap_free_kb)),
        swap_total_bytes: kb_bytes(mem.swap_total_kb),
        disk_read_rate: rate_since(
            base,
            match base {
                Some(b) => b.disk.0,
                None => 0,
            },
            disk.0,
            now_ms,
        ),
        disk_write_rate: rate_since(
            base,
            match base {
                Some(b) => b.disk.1,
                None => 0,
            },
            disk.1,
            now_ms,
        ),
        net_rx_rate: rate_since(
            base,
            match base {
                Some(b) => b.net.0,
                None => 0,
            },
            net.0,
            now_ms,
        ),
        net_tx_rate: rate_since(
            base,
            match base {
                Some(b) => b.net.1,
                None => 0,
            },
            net.1,
            now_ms,
        ),
    }
}

fn kilobytes_to_bytes(kb: u64) -> (r: u64)
    ensures
        r == kb_bytes(kb),
{
    match kb.checked_mul(1024) {
        Some(v) => v,
        None => u64::MAX,
    }
}

fn counter_rate(base: Option<Baseline>, prev: u64, next: u64, now_ms: u64) -> (r: Ratio)
    ensures
        r == rate_since(base, prev, next, now_ms),
{
    match base {
        None => Ratio::zero(),
        Some(b) => byte_rate(prev, next, now_ms.saturating_sub(b.ts_ms)),
    }
}

/// Computes the values of a tick from its counters and the baseline.
pub fn compute_readings(
    base: Option<Baseline>,
    cpu: CpuTotals,
    mem: MemInfo,
    net: (u64, u64),
    disk: (u64, u64),
    now_ms: u64,
) -> (r: Readings)
    ensures
        r == readings_of(base, cpu, mem, net, disk, now_ms),
{
    let cpu_busy = match base {
        None => Ratio::zero(),
        Some(b) => cpu_percent(b.cpu, (cpu.idle, cpu.total)),
    };
    let ram_used = kilobytes_to_bytes(mem.mem_total_kb.saturating_sub(mem.mem_available_kb));
    let ram_total = kilobytes_to_bytes(mem.mem_total_kb);
    let ram_share = if ram_total > 0 {
        Ratio { num: ram_used, den: ram_total }
    } else {
        Ratio::zero()
    };
    let (disk_prev, net_prev) = match base {
        Some(b) => (b.disk, b.net),
        None => ((0, 0), (0, 0)),
    };
    Readings {
        cpu_busy,
        ram_share,
        ram_used_bytes: ram_used,
        ram_total_bytes: ram_total,
        swap_used_bytes: kilobytes_to_bytes(mem.swap_total_kb.saturating_sub(mem.swap_free_kb)),
        swap_total_bytes: kilobytes_to_bytes(mem.swap_total_kb),
        disk_read_rate: counter_rate(base, disk_prev.0, disk.0, now_ms),
        disk_write_rate: counter_rate(base, disk_prev.1, disk.1, now_ms),
        net_rx_rate: counter_rate(base, net_prev.0, net.0, now_ms),
        net_tx_rate: counter_rate(base, net_prev.1, net.1, now_ms),
    }
}

/// The point that each series receives from a tick, in the order of
/// `SystemCollector::histories`.
pub open spec fn tick_points(v: Readings, now_ms: u64) -> Seq<MetricPoint> {
    let ts = now_ms as i64;
    seq![
        MetricPoint { ts_ms: ts, value: v.cpu_busy },
        MetricPoint { ts_ms: ts, value: v.ram_share },
        MetricPoint { ts_ms: ts, value: v.disk_read_rate },
        MetricPoint { ts_ms: ts, value: v.disk_write_rate },
        MetricPoint { ts_ms: ts, value: v.net_rx_rate },
        MetricPoint { ts_ms: ts, value: v.net_tx_rate },
    ]
}

pub struct SystemCollector {
    last: Option<Baseline>,
    cpu_history: RingBuffer<MetricPoint>,
    ram_history: RingBuffer<MetricPoint>,
    disk_read_history: RingBuffer<MetricPoint>,
    disk_write_history: RingBuffer<MetricPoint>,
    net_rx_history: RingBuffer<MetricPoint>,
    net_tx_history: RingBuffer<MetricPoint>,
}

impl SystemCollector {
    pub closed spec fn baseline(&self) -> Option<Baseline> {
        self.last
    }

    pub closed spec fn capacity(&self) -> nat {
        self.cpu_history.capacity()
    }

    /// The six series: CPU, RAM, disk read, disk write, received and sent bytes.
    pub closed spec fn histories(&self) -> Seq<Seq<MetricPoint>> {
        seq![
            self.cpu_history@,
            self.ram_history@,
            self.disk_read_history@,
            self.disk_write_history@,
            self.net_rx_history@,
            self.net_tx_history@,
        ]
    }

    pub closed spec fn wf(&self) -> bool {
        &&& self.cpu_history.wf()
        &&& self.ram_history.wf()
        &&& self.disk_read_history.wf()
        &&& self.disk_write_history.wf()
        &&& self.net_rx_history.wf()
        &&& self.net_tx_history.wf()
        &&& self.ram_history.capacity() == self.cpu_history.capacity()
        &&& self.disk_read_history.capacity() == self.cpu_history.capacity()
        &&& self.disk_write_history.capacity() == self.cpu_history.capacity()
        &&& self.net_rx_history.capacity() == self.cpu_history.capacity()
        &&& self.net_tx_history.capacity() == self.cpu_history.capacity()
    }

    /// A sampler without a baseline, with histories sized for `interval_ms`.
    pub fn new(interval_ms: u64) -> (r: Self)
        ensures
            r.wf(),
            r.baseline() == None::<Baseline>,
            r.capacity() == history_capacity(interval_ms),
            r.histories() == Seq::new(6, |i: int| Seq::<MetricPoint>::empty()),
    {
        let step: u64 = if interval_ms < 500 {
            500
        } else {
            interval_ms
        };
        let n: u64 = 60_000 / step;
        let cap: usize = if n < 30 {
            30
        } else {
            n as usize
        };
        let r = SystemCollector {
            last: None,
            cpu_history: RingBuffer::new(cap),
            ram_history: RingBuffer::new(cap),
            disk_read_history: RingBuffer::new(cap),
            disk_write_history: RingBuffer::new(cap),
            net_rx_history: RingBuffer::new(cap),
            net_tx_history: RingBuffer::new(cap),
        };
        assert(r.histories() =~= Seq::new(6, |i: int| Seq::<MetricPoint>::empty()));
        r
    }

    pub fn new_for_tests(interval_ms: u64) -> (r: Self)
        ensures
            r.wf(),
            r.baseline() == None::<Baseline>,
            r.capacity() == history_capacity(interval_ms),
            r.histories() == Seq::new(6, |i: int| Seq::<MetricPoint>::empty()),
    {
        Self::new(interval_ms)
    }

    /// How many points the CPU series holds.
    pub fn snapshot_len(&self) -> (r: usize)
        ensures
            r == self.histories()[0].len(),
    {
        self.cpu_history.len()
    }

    /// One tick at `now_ms` from the text of `/proc/stat`, `/proc/meminfo`,
    /// `/proc/net/dev` and `/proc/diskstats`. Without the aggregate CPU line
    /// or the memory sizes the tick fails and nothing changes; unreadable
    /// network or disk text counts as zero bytes.
    pub fn ingest_for_tests(
        &mut self,
        cpu_raw: &str,
        mem_raw: &str,
        net_raw: &str,
        disk_raw: &str,
        now_ms: u64,
    ) -> (r: Option<MetricsSnapshot>)
        requires
            old(self).wf(),
        ensures
            final(self).wf(),
            final(self).capacity() == old(self).capacity(),
            r is None <==> cpu_totals_of(cpu_raw.spec_bytes()) is None || meminfo_of(
                mem_raw.spec_bytes(),
            ) is None,
            r is None ==> final(self).baseline() == old(self).baseline() && final(self).histories()
                == old(self).histories(),
            r matches Some(snap) ==> {
                let cpu = cpu_totals_of(cpu_raw.spec_bytes()).unwrap();
                let mem = meminfo_of(mem_raw.spec_bytes()).unwrap();
                let net = network_totals_of(net_raw.spec_bytes());
                let disk = disk_totals_of(disk_raw.spec_bytes());
                let v = readings_of(old(self).baseline(), cpu, mem, net, disk, now_ms);
                &&& final(self).baseline() == Some(
                    Baseline { ts_ms: now_ms, cpu: (cpu.idle, cpu.total), net, disk },
                )
                &&& final(self).histories() == Seq::new(
                    6,
                    |i: int|
                        after_push(
                            old(self).histories()[i],
                            old(self).capacity(),
                            tick_points(v, now_ms)[i],
                        ),
                )
                &&& snap.cpu_busy == v.cpu_busy
                &&& snap.ram_used_bytes == v.ram_used_bytes
                &&& snap.ram_total_bytes == v.ram_total_bytes
                &&& snap.swap_used_bytes == v.swap_used_bytes
                &&& snap.swap_total_bytes == v.swap_total_bytes
                &&& snap.disk_read_rate == v.disk_read_rate
                &&& snap.disk_write_rate == v.disk_write_rate
                &&& snap.net_rx_rate == v.net_rx_rate
                &&& snap.net_tx_rate == v.net_tx_rate
                &&& snap.cpu_history@ == final(self).histories()[0]
                &&& snap.ram_history@ == final(self).histories()[1]
                &&& snap.disk_read_history@ == final(self).histories()[2]
                &&& snap.disk_write_history@ == final(self).histories()[3]
                &&& snap.net_rx_history@ == final(self).histories()[4]
                &&& snap.net_tx_history@ == final(self).histories()[5]
            },
    {
        let cpu = match parse_cpu_totals(cpu_raw) {
            Some(c) => c,
            None => return None,
        };
        let mem = match parse_meminfo(mem_raw) {
            Some(m) => m,
            None => return None,
        };
        let net = parse_network_totals(net_raw);
        let disk = parse_disk_totals(disk_raw);
        let v = compute_readings(self.last, cpu, mem, net, disk, now_ms);
        let ts = now_ms as i64;
        let ghost old_h = self.histories();
        let ghost cap = self.capacity();
        let ghost pts = tick_points(v, now_ms);
        self.cpu_history.push(MetricPoint { ts_ms: ts, value: v.cpu_busy });
        self.ram_history.push(MetricPoint { ts_ms: ts, value: v.ram_share });
        self.disk_read_history.push(MetricPoint { ts_ms: ts, value: v.disk_read_rate });
        self.disk_write_history.push(MetricPoint { ts_ms: ts, value: v.disk_write_rate });
        self.net_rx_history.push(MetricPoint { ts_ms: ts, value: v.net_rx_rate });
        self.net_tx_history.push(MetricPoint { ts_ms: ts, value: v.net_tx_rate });
        self.last = Some(Baseline { ts_ms: now_ms, cpu: (cpu.idle, cpu.total), net, disk });
        assert(self.histories() =~= Seq::new(6, |i: int| after_push(old_h[i], cap, pts[i])));
        Some(
            MetricsSnapshot {
                cpu_busy: v.cpu_busy,
                ram_used_bytes: v.ram_used_bytes,
                ram_total_bytes: v.ram_total_bytes,
                swap_used_bytes: v.swap_used_bytes,
                swap_total_bytes: v.swap_total_bytes,
                disk_read_rate: v.disk_read_rate,
                disk_write_rate: v.disk_write_rate,
                net_rx_rate: v.net_rx_rate,
                net_tx_rate: v.net_tx_rate,
                cpu_history: self.cpu_history.snapshot(),
                ram_history: self.ram_history.snapshot(),
                disk_read_history: self.disk_read_history.snapshot(),
                disk_write_history: self.disk_write_history.snapshot(),
                net_rx_history: self.net_rx_history.snapshot(),
                net_tx_history: self.net_tx_history.snapshot(),
            },
        )
    }
}

} // verus!
