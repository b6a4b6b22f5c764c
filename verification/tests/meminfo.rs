use chronosys::system_metrics::global_metrics::GlobalMetricsCollector;
use chronosys::system_metrics::types::MetricsError;

const EIGHT_FIELDS: &str = "MemTotal: 10 kB\nMemFree: 1 kB\nMemAvailable: 4 kB\nBuffers: 2 kB\n\
Cached: 3 kB\nSwapTotal: 5 kB\nSwapFree: 6 kB\nSlab: 7 kB\n";

#[test]
fn values_are_converted_to_bytes() {
    let m = GlobalMetricsCollector::parse_memory_metrics(EIGHT_FIELDS);
    assert_eq!(m.total, 10 * 1024);
    assert_eq!(m.free, 1024);
    assert_eq!(m.available, 4 * 1024);
    assert_eq!(m.buffers, 2 * 1024);
    assert_eq!(m.cached, 3 * 1024);
    assert_eq!(m.swap_total, 5 * 1024);
    assert_eq!(m.swap_free, 6 * 1024);
    assert_eq!(m.slab, 7 * 1024);
    assert_eq!(m.used, 6 * 1024);
}

#[test]
fn lines_after_the_eighth_field_are_not_read() {
    let text = format!("{}MemTotal: 99 kB\nMemFree: 99 kB\n", EIGHT_FIELDS);
    let m = GlobalMetricsCollector::parse_memory_metrics(&text);
    assert_eq!(m.total, 10 * 1024);
    assert_eq!(m.free, 1024);
    // even a value that would overflow is past the end of reading
    let text = format!("{}MemTotal: 18446744073709551615 kB\n", EIGHT_FIELDS);
    assert_eq!(GlobalMetricsCollector::parse_memory_metrics_checked(&text).unwrap().total, 10 * 1024);
}

#[test]
fn a_repeated_key_does_not_end_reading_early() {
    let text = format!("{}MemFree: 5 kB\n", "MemTotal: 1 kB\n".repeat(8));
    let m = GlobalMetricsCollector::parse_memory_metrics(&text);
    assert_eq!(m.total, 1024);
    assert_eq!(m.free, 5 * 1024);
    // seven distinct fields and repeats of them leave the eighth to be read
    let text = format!(
        "{}{}Slab: 9 kB\n",
        "MemFree: 1 kB\nMemAvailable: 1 kB\nBuffers: 1 kB\nCached: 1 kB\n",
        "SwapTotal: 1 kB\nSwapFree: 1 kB\nMemTotal: 1 kB\nMemTotal: 2 kB\n"
    );
    let m = GlobalMetricsCollector::parse_memory_metrics(&text);
    assert_eq!(m.total, 2 * 1024);
    assert_eq!(m.slab, 9 * 1024);
}

#[test]
fn a_repeated_key_keeps_its_last_value() {
    let m = GlobalMetricsCollector::parse_memory_metrics("MemTotal: 1 kB\nMemTotal: 2 kB\n");
    assert_eq!(m.total, 2 * 1024);
}

#[test]
fn used_saturates_at_zero() {
    let m = GlobalMetricsCollector::parse_memory_metrics("MemTotal: 1 kB\nMemAvailable: 5 kB\n");
    assert_eq!(m.used, 0);
}

#[test]
fn values_follow_u64_parsing() {
    let m = GlobalMetricsCollector::parse_memory_metrics(
        "MemTotal: +5 kB\nMemFree: -5 kB\nMemAvailable: 1_0 kB\nSlab: 0003\n",
    );
    assert_eq!(m.total, 5 * 1024);
    assert_eq!(m.free, 0);
    assert_eq!(m.available, 0);
    assert_eq!(m.slab, 3 * 1024);
}

#[test]
fn whitespace_is_unicode_whitespace() {
    let m = GlobalMetricsCollector::parse_memory_metrics(
        "MemTotal:\u{a0}5 kB\r\n\tMemFree:\u{3000}6\r\nCached:\u{2003}7",
    );
    assert_eq!(m.total, 5 * 1024);
    assert_eq!(m.free, 6 * 1024);
    assert_eq!(m.cached, 7 * 1024);
}

#[test]
fn overflowing_value_is_reported() {
    let text = "MemTotal: 18014398509481984 kB\n";
    assert!(GlobalMetricsCollector::parse_memory_metrics_checked(text).is_none());
    let text = "MemTotal: 18014398509481983 kB\n";
    assert_eq!(
        GlobalMetricsCollector::parse_memory_metrics_checked(text).unwrap().total,
        18014398509481983 * 1024
    );
    // an unknown key is converted too
    assert!(GlobalMetricsCollector::parse_memory_metrics_checked("Other: 18014398509481984 kB").is_none());
}

#[test]
fn get_metrics_reports_each_error() {
    let mut collector = GlobalMetricsCollector::new();
    assert_eq!(collector.get_metrics(&[b'M', 0xff]).unwrap_err(), MetricsError::InvalidUtf8);
    assert_eq!(
        collector.get_metrics(b"MemTotal: 18014398509481984 kB\n").unwrap_err(),
        MetricsError::ValueOverflow
    );
    let g = collector.get_metrics(EIGHT_FIELDS.as_bytes()).unwrap();
    assert_eq!(g.memory.total, 10 * 1024);
    assert_eq!(g.memory.used, 6 * 1024);
    assert_eq!(g.cpu.cpu_total.user, 0);
    assert!(g.cpu.cpu_cores.is_empty());
}

#[test]
fn lines_that_set_nothing_are_skipped() {
    let a = "MemTotal: 10 kB\nMemFree: 1 kB\n";
    let b = "MemAvailable: 4 kB\nSlab: 7 kB\n";
    let without = GlobalMetricsCollector::parse_memory_metrics(&format!("{a}{b}"));
    for line in ["Active: 700 kB\n", "HugePages_Total: 0\n", "InvalidLineWithNoValue\n", "CorruptLabel: abc kB\n", "\n", "MemTotal:\n"] {
        let with = GlobalMetricsCollector::parse_memory_metrics(&format!("{a}{line}{b}"));
        assert_eq!(format!("{:?}", with), format!("{:?}", without));
        let first = GlobalMetricsCollector::parse_memory_metrics(&format!("{line}{a}{b}"));
        assert_eq!(format!("{:?}", first), format!("{:?}", without));
        let last = GlobalMetricsCollector::parse_memory_metrics(&format!(
            "{a}{b}{}",
            line.trim_end_matches('\n')
        ));
        assert_eq!(format!("{:?}", last), format!("{:?}", without));
    }
}
