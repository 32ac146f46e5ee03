use discord_stats::monitor::{MemoryStats, ResourceMonitor, ALERT_THRESHOLD_BP};

fn sample(used: u64, total: u64) -> MemoryStats {
    MemoryStats { total_bytes: total, used_bytes: used, free_bytes: 0, available_bytes: 0 }
}

#[test]
fn alert_threshold_is_ninety_five_percent() {
    assert_eq!(ALERT_THRESHOLD_BP, 9500);
}

#[test]
fn used_percentage_exactly_at_threshold_does_not_alert() {
    // 9500 / 10000 is exactly 95.0%
    let monitor = ResourceMonitor::new(sample(9500, 10000), ALERT_THRESHOLD_BP);
    assert_eq!(monitor.on_alert_tick(), None);
}

#[test]
fn used_percentage_just_above_threshold_alerts() {
    // 9501 / 10000 is 95.01%
    let monitor = ResourceMonitor::new(sample(9501, 10000), ALERT_THRESHOLD_BP);
    assert_eq!(monitor.on_alert_tick(), Some(sample(9501, 10000)));
}

#[test]
fn threshold_comparison_is_exact_not_rounded() {
    // 19 / 20 is exactly 95.0%, whatever the magnitudes
    let monitor = ResourceMonitor::new(sample(19_000_000, 20_000_000), ALERT_THRESHOLD_BP);
    assert_eq!(monitor.on_alert_tick(), None);
    let monitor = ResourceMonitor::new(sample(19_000_001, 20_000_000), ALERT_THRESHOLD_BP);
    assert!(monitor.on_alert_tick().is_some());
}

#[test]
fn sampling_tick_overwrites_the_slot() {
    let mut monitor = ResourceMonitor::new(sample(1, 10), ALERT_THRESHOLD_BP);
    monitor.on_sample(sample(2, 10));
    assert_eq!(monitor.on_report_tick(), sample(2, 10));
    assert_eq!(monitor.on_console_tick(), sample(2, 10));
}

#[test]
fn report_ticks_read_the_most_recent_sample() {
    let mut monitor = ResourceMonitor::new(sample(1, 10), ALERT_THRESHOLD_BP);
    monitor.on_sample(sample(3, 10));
    monitor.on_sample(sample(4, 10));
    assert_eq!(monitor.on_report_tick(), sample(4, 10));
}

#[test]
fn alert_reads_the_current_slot() {
    let mut monitor = ResourceMonitor::new(sample(9501, 10000), ALERT_THRESHOLD_BP);
    monitor.on_sample(sample(100, 10000));
    assert_eq!(monitor.on_alert_tick(), None);
}
