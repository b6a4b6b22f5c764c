use chronosys::system_metrics::cpu::CpuMetricsCollector;
use chronosys::system_metrics::types::CpuCounters;

// Test /proc/stat format
const MOCK_PROC_STAT: &str = "\
        cpu  1000 100 500 5000 50 10 5 2 0 0
        cpu0 500 50 250 2500 25 5 2 1 0 0
        cpu1 500 50 250 2500 25 5 3 1 0 0
        intr 1234567
        ctxt 987654
        btime 1710000000
        processes 1234
        procs_running 3
        procs_blocked 1
    ";

#[test]
fn test_parse_u64_fast() {
    assert_eq!(CpuMetricsCollector::parse_u64_fast(b"12345"), 12345);
    assert_eq!(CpuMetricsCollector::parse_u64_fast(b"0"), 0);
    assert_eq!(
        CpuMetricsCollector::parse_u64_fast(b"987654321_extra"),
        987654321
    ); // Stops at non-digit
    assert_eq!(CpuMetricsCollector::parse_u64_fast(b""), 0);
}

#[test]
fn test_parse_cpu_counters_line() {
    let line = "100 200 300 400 50 10 5 2 1 0";
    let counters = CpuMetricsCollector::parse_cpu_counters_line(line);

    assert_eq!(counters.user, 100);
    assert_eq!(counters.nice, 200);
    assert_eq!(counters.system, 300);
    assert_eq!(counters.idle, 400);
    assert_eq!(counters.iowait, 50);
    assert_eq!(counters.irq, 10);
    assert_eq!(counters.softirq, 5);
    assert_eq!(counters.steal, 2);
    assert_eq!(counters.guest, 1);
    assert_eq!(counters.guest_nice, 0);
}

#[test]
fn test_parse_cpu_info() {
    let mut per_cpu_buffer = Vec::new();
    let metrics = CpuMetricsCollector::parse_cpu_info(MOCK_PROC_STAT, &mut per_cpu_buffer);

    // Cpu totals
    assert_eq!(metrics.cpu_total.user, 1000);
    assert_eq!(metrics.cpu_total.idle, 5000);

    // Per-cpu extraction
    assert_eq!(metrics.cpu_cores.len(), 2);
    assert_eq!(metrics.cpu_cores[0].user, 500);
    assert_eq!(metrics.cpu_cores[1].user, 500);

    // Process states
    assert_eq!(metrics.num_procs_running, 3);
    assert_eq!(metrics.num_procs_blocked, 1);
}

#[test]
fn test_buffer_reuse_and_clearing() {
    let mut per_cpu_buffer = Vec::with_capacity(4);

    // Populate buffer initially
    per_cpu_buffer.push(CpuCounters::default());
    let initial_capacity = per_cpu_buffer.capacity();

    let metrics = CpuMetricsCollector::parse_cpu_info(MOCK_PROC_STAT, &mut per_cpu_buffer);

    // Old items cleared and new ones populated
    assert_eq!(metrics.cpu_cores.len(), 2);
    assert!(per_cpu_buffer.capacity() >= initial_capacity); // Capacity preserved
}
