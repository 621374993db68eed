use sysmon::app_state::AppState;
use sysmon::cache::ProcessCache;
use sysmon::collector::SystemCollector;
use sysmon::commands::{send_process_signal_inner, ProcessSignal};
use sysmon::delta::{cpu_percent, Ratio};
use sysmon::models::ProcessRow;
use sysmon::procfs::{parse_cpu_totals, parse_meminfo};
use sysmon::processes::{ProcessQuery, ProcessService, SortDir, SortKey};
use sysmon::ring_buffer::RingBuffer;
use sysmon::signal::validate_permission;

fn percent(r: Ratio) -> f64 {
    r.num as f64 / r.den as f64 * 100.0
}

fn per_second(r: Ratio) -> f64 {
    r.num as f64 * 1000.0 / r.den as f64
}

#[test]
fn send_process_signal_rejects_foreign_uid() {
    let state = AppState::new_for_tests(1000, 1001);
    let result = send_process_signal_inner(&state, 4242, ProcessSignal::Sigterm);
    assert!(result.is_err());
}

#[test]
fn cache_reuses_cmdline_within_ttl() {
    let mut cache = ProcessCache::new(5_000);
    cache.upsert(100, "python app.py".into(), 10_000);
    let first = cache.get_command(100, 12_000).unwrap();
    assert_eq!(first, "python app.py");
}

#[test]
fn collector_generates_rates_and_history_points() {
    let mut collector = SystemCollector::new_for_tests(500);
    let _ = collector
        .ingest_for_tests(
            "cpu  1 1 1 10 0 0 0 0 0 0\n",
            "MemTotal: 1000 kB\nMemAvailable: 400 kB\nSwapTotal: 200 kB\nSwapFree: 100 kB\n",
            "eth0: 1000 0 0 0 0 0 0 0 2000 0 0 0 0 0 0 0\n",
            "   8       0 sda 1 0 100 0 1 0 200 0 0 0 0 0 0 0 0 0 0\n",
            1_000,
        )
        .unwrap();
    let snap = collector
        .ingest_for_tests(
            "cpu  2 2 2 12 0 0 0 0 0 0\n",
            "MemTotal: 1000 kB\nMemAvailable: 300 kB\nSwapTotal: 200 kB\nSwapFree: 90 kB\n",
            "eth0: 2000 0 0 0 0 0 0 0 2600 0 0 0 0 0 0 0\n",
            "   8       0 sda 2 0 300 0 2 0 500 0 0 0 0 0 0 0 0 0 0\n",
            1_500,
        )
        .unwrap();
    assert!(per_second(snap.net_rx_rate) > 0.0);
    assert!(per_second(snap.disk_write_rate) > 0.0);
    assert_eq!(snap.cpu_history.len(), 2);
}

#[test]
fn cpu_percent_uses_idle_and_total_delta() {
    let prev = (100_u64, 200_u64); // (idle,total)
    let next = (130_u64, 260_u64);
    let value = percent(cpu_percent(prev, next));
    assert!((value - 50.0).abs() < 0.01);
}

#[test]
fn collector_stays_within_history_budget() {
    let collector = SystemCollector::new_for_tests(500);
    let snapshot = collector.snapshot_len();
    assert_eq!(snapshot, 0);
}

#[test]
fn list_processes_supports_search_and_cpu_sort() {
    let mut service = ProcessService::new_for_tests();
    service.seed_for_tests(vec![
        ProcessRow {
            pid: 10,
            user: "alice".into(),
            command: "bash".into(),
            cpu_share: Ratio { num: 10, den: 1000 },
            mem_share: Ratio { num: 2, den: 1000 },
        },
        ProcessRow {
            pid: 22,
            user: "bob".into(),
            command: "chrome".into(),
            cpu_share: Ratio { num: 350, den: 1000 },
            mem_share: Ratio { num: 100, den: 1000 },
        },
    ]);
    let rows = service.list(ProcessQuery {
        search: Some("chr".into()),
        sort_by: Some(SortKey::Cpu),
        sort_dir: Some(SortDir::Desc),
        limit: Some(50),
        offset: Some(0),
    });
    assert_eq!(rows.len(), 1);
    assert_eq!(rows[0].pid, 22);
}

#[test]
fn parse_meminfo_extracts_totals() {
    let text = "MemTotal:       16384256 kB\nMemAvailable:   10240000 kB\nSwapTotal:      2097148 kB\nSwapFree:       1048574 kB\n";
    let parsed = parse_meminfo(text).expect("parsed");
    assert_eq!(parsed.mem_total_kb, 16384256);
    assert_eq!(parsed.mem_available_kb, 10240000);
    assert_eq!(parsed.swap_total_kb, 2097148);
    assert_eq!(parsed.swap_free_kb, 1048574);
}

#[test]
fn parse_cpu_totals_extracts_idle_and_total() {
    let text = "cpu  2255 34 2290 22625563 6290 127 456 0 0 0\n";
    let cpu = parse_cpu_totals(text).expect("cpu");
    assert_eq!(cpu.idle, 22625563);
    assert_eq!(cpu.total, 22637015);
}

#[test]
fn ring_buffer_keeps_latest_n_points() {
    let mut rb = RingBuffer::new(3);
    rb.push(1);
    rb.push(2);
    rb.push(3);
    rb.push(4);
    assert_eq!(rb.snapshot(), vec![2, 3, 4]);
}

#[test]
fn deny_signal_for_different_user_when_not_root() {
    let err = validate_permission(1000, 1001, 4242).unwrap_err();
    assert_eq!(err.message(), "permission denied");
}

#[test]
fn allow_signal_for_same_user() {
    assert!(validate_permission(1000, 1000, 4242).is_ok());
}

#[test]
fn reject_pid_one() {
    assert!(validate_permission(0, 0, 1).is_err());
}
