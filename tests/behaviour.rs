use sysmon::app_state::AppState;
use sysmon::cache::ProcessCache;
use sysmon::catalog::{display_command, join_cmdline, make_row, user_label, sample_process, ProcessSample, SystemFacts};
use sysmon::users::parse_passwd;
use sysmon::collector::SystemCollector;
use sysmon::delta::{byte_rate, cpu_percent, Ratio};
use sysmon::errors::{map_api_error, ApiError};
use sysmon::models::ProcessRow;
use sysmon::procfs::{
    parse_cpu_totals, parse_disk_totals, parse_meminfo, parse_network_totals,
    parse_proc_stat_values, parse_uid, total_mem_bytes,
};
use sysmon::processes::{
    apply_query, default_query, matches_folded, ProcessQuery, SortDir, SortKey,
};
use sysmon::ring_buffer::RingBuffer;
use sysmon::signal::{validate_permission, SignalError};

fn row(pid: i32, user: &str, command: &str, cpu: u64, mem: u64) -> ProcessRow {
    ProcessRow {
        pid,
        user: user.to_string(),
        command: command.to_string(),
        cpu_share: Ratio { num: cpu, den: 100 },
        mem_share: Ratio { num: mem, den: 100 },
    }
}

fn query(search: Option<&str>, key: Option<SortKey>, dir: Option<SortDir>) -> ProcessQuery {
    ProcessQuery {
        search: search.map(|s| s.to_string()),
        sort_by: key,
        sort_dir: dir,
        limit: None,
        offset: None,
    }
}

fn pids(rows: &[ProcessRow]) -> Vec<i32> {
    rows.iter().map(|r| r.pid).collect()
}

#[test]
fn regressed_byte_counter_gives_zero_rate() {
    let r = byte_rate(5000, 1000, 500);
    assert_eq!(r.num, 0);
    assert_eq!(byte_rate(1000, 2000, 500), Ratio { num: 1000, den: 500 });
    assert_eq!(byte_rate(1000, 2000, 0), Ratio { num: 1000, den: 1 });
}

#[test]
fn regressed_total_jiffies_give_zero_cpu() {
    assert_eq!(cpu_percent((100, 300), (130, 260)).num, 0);
    assert_eq!(cpu_percent((100, 200), (100, 200)), Ratio { num: 0, den: 1 });
    assert_eq!(cpu_percent((100, 200), (130, 260)), Ratio { num: 30, den: 60 });
}

#[test]
fn history_holds_last_capacity_values() {
    let mut rb = RingBuffer::new(3);
    for v in 1..=10 {
        rb.push(v);
    }
    assert_eq!(rb.snapshot(), vec![8, 9, 10]);
    assert_eq!(rb.len(), 3);
    let mut empty = RingBuffer::new(0);
    empty.push(1);
    assert!(empty.snapshot().is_empty());
    let mut short = RingBuffer::new(5);
    short.push(7);
    short.push(8);
    assert_eq!(short.snapshot(), vec![7, 8]);
}

#[test]
fn meminfo_missing_key_is_absent() {
    let text = "MemTotal: 16384256 kB\nMemAvailable: 10240000 kB\nSwapTotal: 2097148 kB\n";
    assert!(parse_meminfo(text).is_none());
    let bad = "MemTotal: x kB\nMemAvailable: 1 kB\nSwapTotal: 2 kB\nSwapFree: 3 kB\n";
    assert!(parse_meminfo(bad).is_none());
    let blank = "MemTotal: 4 kB\n\nMemAvailable: 1 kB\nSwapTotal: 2 kB\nSwapFree: 3 kB";
    let m = parse_meminfo(blank).unwrap();
    assert_eq!(m.mem_total_kb, 4);
    assert_eq!(m.swap_free_kb, 3);
}

#[test]
fn cpu_line_needs_four_fields() {
    assert!(parse_cpu_totals("cpu  1 2 3\n").is_none());
    assert!(parse_cpu_totals("cpu0 1 2 3 4\n").is_none());
    let c = parse_cpu_totals("intr 5\ncpu0 9 9 9 9\ncpu  1 x 3 4 5\n").unwrap();
    assert_eq!(c.idle, 4);
    assert_eq!(c.total, 13);
    assert!(parse_cpu_totals("cpu 7 a b c\n").is_none());
    assert!(parse_cpu_totals("cpu  1 2 x 4\n").is_none());
}

#[test]
fn network_totals_skip_loopback() {
    let text = "Inter-|   Receive\n face |bytes\n    lo: 999 0 0 0 0 0 0 0 999 0 0 0 0 0 0 0\n  eth0: 1000 0 0 0 0 0 0 0 2000 0 0 0 0 0 0 0\n wlan0: 5 0 0 0 0 0 0 0 7 0 0 0 0 0 0 0\n short: 1 2 3\n";
    assert_eq!(parse_network_totals(text), (1005, 2007));
    assert_eq!(parse_network_totals(""), (0, 0));
}

#[test]
fn disk_totals_skip_virtual_devices() {
    let text = "   8       0 sda 1 0 100 0 1 0 200 0 0 0 0 0 0 0 0 0 0\n   7       0 loop0 1 0 50 0 1 0 50 0 0 0 0 0\n 253 0 dm-0 1 0 9 0 1 0 9 0 0 0 0 0\n   8 16 sdb 1 0 1 0 1 0 2 0 0 0 0 0\n";
    assert_eq!(parse_disk_totals(text), (101 * 512, 202 * 512));
}

#[test]
fn proc_stat_reads_after_last_paren() {
    let stat = "42 (my (odd) cmd) S 1 42 42 0 -1 4194560 100 0 0 0 17 5 0 0 20 0 1 0 100 1000 33 0 0\n";
    assert_eq!(parse_proc_stat_values(stat), Some((17, 5, 33)));
    assert_eq!(parse_proc_stat_values("42 (x) S 1 2 3"), None);
    assert_eq!(parse_proc_stat_values("no paren"), None);
}

#[test]
fn uid_and_total_memory() {
    assert_eq!(parse_uid("Name:\tbash\nUid:\t1000\t1000\t1000\t1000\n"), Some(1000));
    assert_eq!(parse_uid("Name:\tbash\n"), None);
    assert_eq!(total_mem_bytes("MemFree: 1 kB\nMemTotal: 2 kB\n"), 2048);
    assert_eq!(total_mem_bytes("MemFree: 1 kB\n"), 1);
}

#[test]
fn rows_from_process_text() {
    let stat = "42 (bash) S 1 42 42 0 -1 4194560 100 0 0 0 150 50 0 0 20 0 1 0 100 1000 25 0 0\n";
    let s = sample_process(stat, "Uid:\t7\t7\t7\t7\n").unwrap();
    assert_eq!(s, ProcessSample { utime: 150, stime: 50, rss_pages: 25, uid: 7 });
    assert!(sample_process(stat, "").is_none());
    let facts = SystemFacts { clock_ticks: 100, page_size: 4096, uptime_ms: 10_000, total_mem_bytes: 1_024_000 };
    let r = make_row(42, "bob".into(), "bash".into(), s, facts);
    // 200 ticks at 100 a second over 10 seconds: 20% of a CPU.
    assert_eq!(r.cpu_share, Ratio { num: 200_000, den: 1_000_000 });
    // 25 pages of 4096 bytes over 1_024_000 bytes: 10%.
    assert_eq!(r.mem_share, Ratio { num: 102_400, den: 1_024_000 });
    let floor = SystemFacts { clock_ticks: 0, page_size: 0, uptime_ms: 0, total_mem_bytes: 0 };
    let r = make_row(42, "bob".into(), "bash".into(), s, floor);
    assert_eq!(r.cpu_share, Ratio { num: 200_000, den: 1000 });
    assert_eq!(r.mem_share, Ratio { num: 25, den: 1 });
}

#[test]
fn filter_ignores_case_and_reads_user() {
    let rows = vec![row(10, "alice", "bash", 1, 1), row(22, "bob", "Chrome", 35, 10), row(30, "CHRis", "vim", 2, 1)];
    let out = apply_query(&rows, query(Some("chr"), None, None));
    assert_eq!(pids(&out), vec![22, 30]);
    assert!(matches_folded("chr", "chrome", "bob"));
    assert!(!matches_folded("chr", "bash", "alice"));
}

#[test]
fn sort_orders_and_ascending_flip() {
    let rows = vec![row(30, "carol", "b", 5, 9), row(10, "alice", "c", 50, 1), row(20, "bob", "a", 20, 5)];
    assert_eq!(pids(&apply_query(&rows, query(None, Some(SortKey::Cpu), None))), vec![10, 20, 30]);
    assert_eq!(pids(&apply_query(&rows, query(None, Some(SortKey::Cpu), Some(SortDir::Asc)))), vec![30, 20, 10]);
    assert_eq!(pids(&apply_query(&rows, query(None, Some(SortKey::Mem), None))), vec![30, 20, 10]);
    assert_eq!(pids(&apply_query(&rows, query(None, Some(SortKey::Pid), None))), vec![10, 20, 30]);
    // Ascending on a key whose natural order is ascending flips it.
    assert_eq!(pids(&apply_query(&rows, query(None, Some(SortKey::Pid), Some(SortDir::Asc)))), vec![30, 20, 10]);
    assert_eq!(pids(&apply_query(&rows, query(None, Some(SortKey::User), None))), vec![10, 20, 30]);
    assert_eq!(pids(&apply_query(&rows, query(None, Some(SortKey::Command), None))), vec![20, 30, 10]);
    // Without a key, asc changes nothing.
    assert_eq!(pids(&apply_query(&rows, query(None, None, Some(SortDir::Asc)))), vec![30, 10, 20]);
}

#[test]
fn equal_keys_keep_scan_order() {
    let rows = vec![row(3, "a", "x", 5, 0), row(1, "b", "y", 5, 0), row(2, "c", "z", 7, 0)];
    assert_eq!(pids(&apply_query(&rows, query(None, Some(SortKey::Cpu), None))), vec![2, 3, 1]);
}

#[test]
fn offset_and_limit_page_the_rows() {
    let rows: Vec<ProcessRow> = (1..=5).map(|i| row(i, "u", "c", 0, 0)).collect();
    let mut q = query(None, Some(SortKey::Pid), None);
    q.offset = Some(1);
    q.limit = Some(2);
    assert_eq!(pids(&apply_query(&rows, q)), vec![2, 3]);
    let mut q = query(None, None, None);
    q.offset = Some(9);
    assert!(apply_query(&rows, q).is_empty());
    let mut q = query(None, None, None);
    q.offset = Some(3);
    q.limit = Some(usize::MAX);
    assert_eq!(pids(&apply_query(&rows, q)), vec![4, 5]);
}

#[test]
fn default_query_is_busiest_first() {
    let q = default_query();
    assert!(q.search.is_none());
    assert_eq!(q.sort_by, Some(SortKey::Cpu));
    assert_eq!(q.sort_dir, Some(SortDir::Desc));
    assert_eq!(q.limit, Some(300));
    assert_eq!(q.offset, Some(0));
}

#[test]
fn same_table_lists_the_same_rows() {
    let rows = vec![row(10, "alice", "bash", 1, 1), row(22, "bob", "chrome", 35, 10), row(5, "root", "init", 35, 3)];
    let a = apply_query(&rows, default_query());
    let b = apply_query(&rows, default_query());
    assert_eq!(pids(&a), pids(&b));
    assert_eq!(pids(&a), vec![22, 5, 10]);
}

#[test]
fn authorization_rules() {
    assert_eq!(validate_permission(1000, 1001, 4242), Err(SignalError::PermissionDenied));
    assert_eq!(validate_permission(1000, 1000, 4242), Ok(()));
    assert_eq!(validate_permission(0, 0, 1), Err(SignalError::InvalidPid));
    assert_eq!(validate_permission(0, 1001, 4242), Ok(()));
    assert_eq!(validate_permission(0, 0, -5), Err(SignalError::InvalidPid));
    assert_eq!(SignalError::InvalidPid.message(), "invalid pid");
    let state = AppState::from_uid(1000);
    assert_eq!(state.current_uid(), 1000);
    assert_eq!(state.fake_target_uid(), 1000);
}

#[test]
fn api_error_texts() {
    assert_eq!(map_api_error(ApiError::PermissionDenied), "permission denied");
    assert_eq!(map_api_error(ApiError::InvalidSignal), "invalid signal");
    assert_eq!(map_api_error(ApiError::NotFound), "process not found");
    assert_eq!(map_api_error(ApiError::Internal), "internal error");
}

#[test]
fn cache_expires_after_ttl() {
    let mut cache = ProcessCache::new(5_000);
    cache.upsert_with_jiffies(7, "sleep 1".into(), 1_000, 99);
    assert_eq!(cache.get_command(7, 6_000), Some("sleep 1"));
    assert_eq!(cache.get_command(7, 6_001), None);
    assert_eq!(cache.get_command(8, 1_000), None);
}

#[test]
fn sampler_first_tick_has_zero_rates_then_measures() {
    let mut c = SystemCollector::new(1000);
    assert!(c.ingest_for_tests("nothing\n", "MemTotal: 1 kB\n", "", "", 0).is_none());
    let mem = "MemTotal: 1000 kB\nMemAvailable: 400 kB\nSwapTotal: 200 kB\nSwapFree: 100 kB\n";
    let first = c
        .ingest_for_tests("cpu  10 0 0 90 0\n", mem, "eth0: 1000 0 0 0 0 0 0 0 2000 0\n", "", 1_000)
        .unwrap();
    assert_eq!(first.cpu_busy.num, 0);
    assert_eq!(first.net_rx_rate.num, 0);
    assert_eq!(first.ram_used_bytes, 600 * 1024);
    assert_eq!(first.ram_total_bytes, 1000 * 1024);
    assert_eq!(first.swap_used_bytes, 100 * 1024);
    let second = c
        .ingest_for_tests("cpu  40 0 0 160 0\n", mem, "eth0: 3000 0 0 0 0 0 0 0 1000 0\n", "", 3_000)
        .unwrap();
    assert_eq!(second.cpu_busy, Ratio { num: 30, den: 100 });
    assert_eq!(second.net_rx_rate, Ratio { num: 2000, den: 2000 });
    assert_eq!(second.net_tx_rate.num, 0);
    assert_eq!(second.ram_history.len(), 2);
    assert_eq!(second.ram_history[1].value, Ratio { num: 600 * 1024, den: 1000 * 1024 });
    assert_eq!(second.cpu_history[1].ts_ms, 3_000);
}

#[test]
fn sampler_history_is_bounded() {
    let mut c = SystemCollector::new(10_000);
    let mem = "MemTotal: 1 kB\nMemAvailable: 1 kB\nSwapTotal: 0 kB\nSwapFree: 0 kB\n";
    for t in 0..40u64 {
        c.ingest_for_tests("cpu  1 1 1 1\n", mem, "", "", t * 10_000).unwrap();
    }
    assert_eq!(c.snapshot_len(), 30);
}

#[test]
fn passwd_entries_give_names_by_uid() {
    let text = "root:x:0:0:root:/root:/bin/bash\nbroken line\nalice:x:1000:1000::/home/alice:/bin/sh\nbad:x:notanumber:1\nbob:x:1001";
    let entries: Vec<(u32, &str)> = parse_passwd(text)
        .into_iter()
        .map(|(uid, a, b)| (uid, &text[a..b]))
        .collect();
    assert_eq!(entries, vec![(0, "root"), (1000, "alice"), (1001, "bob")]);
}

#[test]
fn cmdline_arguments_are_joined_with_spaces() {
    assert_eq!(join_cmdline(b"python\0app.py\0"), b"python app.py".to_vec());
    assert_eq!(join_cmdline(b"\0\0a\0\0b\0"), b"a b".to_vec());
    assert!(join_cmdline(b"").is_empty());
    assert!(join_cmdline(b"\0\0").is_empty());
}

#[test]
fn user_label_falls_back_to_the_id() {
    assert_eq!(user_label(1000, Some("alice".to_string())), "alice");
    assert_eq!(user_label(1000, None), "1000");
    assert_eq!(user_label(0, None), "0");
    assert_eq!(user_label(4294967295, None), "4294967295");
}

#[test]
fn displayed_command_prefers_arguments() {
    let s = |t: &str| Some(t.to_string());
    assert_eq!(display_command(s("python app.py"), s("python")), "python app.py");
    assert_eq!(display_command(s(""), s("kworker/0:1")), "kworker/0:1");
    assert_eq!(display_command(None, s("bash")), "bash");
    assert_eq!(display_command(s(""), s("")), "unknown");
    assert_eq!(display_command(None, None), "unknown");
}
