use system_monitor::aggregate_metrics;
use system_monitor::CliArgs;
use system_monitor::CliError;
use system_monitor::MetricsSnapshot;

fn sample_snapshot() -> MetricsSnapshot {
    MetricsSnapshot {
        cpu_usage_tenths: 503,
        memory_used_bytes: 500,
        memory_total_bytes: 1000,
        disk_read_bytes: 1_500_000,
        disk_write_bytes: 0,
        net_rx_bytes: 15_000_000_000,
        net_tx_bytes: 150_000_000_000,
    }
}

#[test]
fn memory_percentage_has_one_decimal_digit() {
    let formatted = sample_snapshot().format();
    assert_eq!(formatted.memory_usage_percent, "50.0%");
    assert_eq!(formatted.cpu_usage, "50.3%");
}

#[test]
fn zero_total_memory_formats_as_a_sentinel() {
    let snapshot = MetricsSnapshot {
        cpu_usage_tenths: 0,
        memory_used_bytes: 0,
        memory_total_bytes: 0,
        disk_read_bytes: 0,
        disk_write_bytes: 0,
        net_rx_bytes: 0,
        net_tx_bytes: 0,
    };
    let formatted = snapshot.format();
    assert_eq!(formatted.memory_usage_percent, "N/A");
}

#[test]
fn memory_percentage_rounds_to_the_nearest_tenth() {
    let snapshot = MetricsSnapshot {
        cpu_usage_tenths: 0,
        memory_used_bytes: 1,
        memory_total_bytes: 3,
        disk_read_bytes: 0,
        disk_write_bytes: 0,
        net_rx_bytes: 0,
        net_tx_bytes: 0,
    };
    // 1/3 is 33.33..%, which rounds to 33.3%
    assert_eq!(snapshot.format().memory_usage_percent, "33.3%");
}

#[test]
fn format_scales_every_byte_counter() {
    let formatted = sample_snapshot().format();
    assert_eq!(formatted.memory_used, "500 B");
    assert_eq!(formatted.memory_total, "1.00 KB");
    assert_eq!(formatted.disk_read, "1.50 MB");
    assert_eq!(formatted.disk_write, "0 B");
    assert_eq!(formatted.net_rx, "15.0 GB");
    assert_eq!(formatted.net_tx, "150 GB");
}

#[test]
fn render_assembles_the_six_line_report() {
    let report = sample_snapshot().format().render();
    let mut expected = String::new();
    expected.push_str("System Metrics:\n");
    expected.push_str("  CPU Usage:       50.3%\n");
    expected.push_str("  Memory:          500 B / 1.00 KB (50.0%)\n");
    expected.push_str("  Disk Read:       1.50 MB\n");
    expected.push_str("  Disk Write:      0 B\n");
    expected.push_str("  Network RX:      15.0 GB\n");
    expected.push_str("  Network TX:      150 GB\n");
    assert_eq!(report, expected);
}

#[test]
fn aggregation_sums_per_device_counters() {
    let disks = vec![(100u64, 7u64), (23, 5), (0, 0)];
    let nets = vec![(1u64, 2u64), (3, 4)];
    let snapshot = aggregate_metrics(250, 500, 1000, &disks, &nets);
    assert_eq!(snapshot.cpu_usage_tenths, 250);
    assert_eq!(snapshot.memory_used_bytes, 500);
    assert_eq!(snapshot.memory_total_bytes, 1000);
    assert_eq!(snapshot.disk_read_bytes, 123);
    assert_eq!(snapshot.disk_write_bytes, 12);
    assert_eq!(snapshot.net_rx_bytes, 4);
    assert_eq!(snapshot.net_tx_bytes, 6);
}

#[test]
fn aggregation_of_no_devices_is_zero() {
    let snapshot = aggregate_metrics(0, 0, 0, &vec![], &vec![]);
    assert_eq!(snapshot.disk_read_bytes, 0);
    assert_eq!(snapshot.disk_write_bytes, 0);
    assert_eq!(snapshot.net_rx_bytes, 0);
    assert_eq!(snapshot.net_tx_bytes, 0);
}

#[test]
fn aggregation_clamps_instead_of_overflowing() {
    let disks = vec![(u64::MAX, 1u64), (5, 2)];
    let snapshot = aggregate_metrics(0, 0, 0, &disks, &vec![]);
    assert_eq!(snapshot.disk_read_bytes, u64::MAX);
    assert_eq!(snapshot.disk_write_bytes, 3);
}

#[test]
fn conflicting_mode_flags_are_rejected() {
    assert!(matches!(CliArgs::new(true, true, 1), Err(CliError::ConflictingModes)));
    let args = CliArgs::new(true, false, 5).unwrap();
    assert!(args.live);
    assert!(!args.log);
    assert_eq!(args.interval, 5);
}

#[test]
fn one_shot_runs_only_without_mode_flags() {
    assert!(CliArgs::new(false, false, 1).unwrap().one_shot());
    assert!(!CliArgs::new(true, false, 1).unwrap().one_shot());
    assert!(!CliArgs::new(false, true, 1).unwrap().one_shot());
}
