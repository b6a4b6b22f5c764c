use chronosys::system_metrics::global_metrics::GlobalMetricsCollector;

// Test /proc/meminfo format
const MOCK_MEMINFO: &str = "\
        MemTotal:        3600 kB
        MemFree:          100 kB
        MemAvailable:     900 kB
        Buffers:          200 kB
        Cached:           300 kB
        SwapTotal:        400 kB
        SwapFree:         500 kB
        Slab:             600 kB
        Active:           700 kB
        Inactive:         800 kB
    ";

#[test]
fn test_parse_memory_metrics_success() {
    let memory_metrics = GlobalMetricsCollector::parse_memory_metrics(MOCK_MEMINFO);

    assert_eq!(memory_metrics.total, 3600 * 1024);
    assert_eq!(memory_metrics.free, 100 * 1024);
    assert_eq!(memory_metrics.available, 900 * 1024);
    assert_eq!(memory_metrics.buffers, 200 * 1024);
    assert_eq!(memory_metrics.cached, 300 * 1024);
    assert_eq!(memory_metrics.swap_total, 400 * 1024);
    assert_eq!(memory_metrics.swap_free, 500 * 1024);
    assert_eq!(memory_metrics.slab, 600 * 1024);
    assert_eq!(memory_metrics.used, (3600 - 900) * 1024);
}

#[test]
fn test_parse_memory_metrics_malformed_lines() {
    let input = "\
            MemTotal:       1600 kB
            InvalidLineWithNoValue
            MemFree:        400 kB
            MemAvailable:   800 kB
            CorruptLabel:   abc kB
            Buffers:        100 kB
        ";
    let memory_metrics = GlobalMetricsCollector::parse_memory_metrics(input);

    assert_eq!(memory_metrics.total, 1600 * 1024);
    assert_eq!(memory_metrics.free, 400 * 1024);
    assert_eq!(memory_metrics.available, 800 * 1024);
    assert_eq!(memory_metrics.buffers, 100 * 1024);
    // Unparsed fields set to zero
    assert_eq!(memory_metrics.cached, 0);
    assert_eq!(memory_metrics.slab, 0);
    assert_eq!(memory_metrics.used, (1600 - 800) * 1024);
}

#[test]
fn test_parse_memory_metrics_empty_input() {
    let memory_metrics = GlobalMetricsCollector::parse_memory_metrics("");
    assert_eq!(memory_metrics.total, 0);
    assert_eq!(memory_metrics.free, 0);
    assert_eq!(memory_metrics.used, 0);
}
