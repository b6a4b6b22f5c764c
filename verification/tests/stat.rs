use chronosys::system_metrics::cpu::CpuMetricsCollector;
use chronosys::system_metrics::types::MetricsError;

#[test]
fn fast_reader_wraps_around() {
    assert_eq!(CpuMetricsCollector::parse_u64_fast(b"18446744073709551615"), u64::MAX);
    assert_eq!(CpuMetricsCollector::parse_u64_fast(b"18446744073709551616"), 0);
    assert_eq!(
        CpuMetricsCollector::parse_u64_fast(b"99999999999999999999"),
        7766279631452241919
    );
}

#[test]
fn fast_reader_stops_at_first_non_digit() {
    assert_eq!(CpuMetricsCollector::parse_u64_fast(b"12x34"), 12);
    assert_eq!(CpuMetricsCollector::parse_u64_fast(b"+12"), 0);
    assert_eq!(CpuMetricsCollector::parse_u64_fast(b"x12"), 0);
}

#[test]
fn missing_counters_are_zero() {
    let c = CpuMetricsCollector::parse_cpu_counters_line("7 8 9");
    assert_eq!((c.user, c.nice, c.system, c.idle, c.guest_nice), (7, 8, 9, 0, 0));
    let c = CpuMetricsCollector::parse_cpu_counters_line("");
    assert_eq!(c.user, 0);
}

#[test]
fn counters_read_leading_digits_of_each_word() {
    let c = CpuMetricsCollector::parse_cpu_counters_line("12ab x 30 1 2 3 4 5 6 7 8 9");
    assert_eq!((c.user, c.nice, c.system), (12, 0, 30));
    assert_eq!(c.guest_nice, 7);
}

#[test]
fn headers_select_lines() {
    let mut buf = Vec::new();
    let text = "cpu 1\ncpuX 2\ncpu12 3\ncpu 4\nprocs_running abc\nprocs_blocked 9 10\ncpu3\n";
    let m = CpuMetricsCollector::parse_cpu_info(text, &mut buf);
    assert_eq!(m.cpu_total.user, 4);
    assert_eq!(m.cpu_cores.len(), 2);
    assert_eq!(m.cpu_cores[0].user, 3);
    assert_eq!(m.cpu_cores[1].user, 0);
    assert_eq!(m.num_procs_running, 0);
    assert_eq!(m.num_procs_blocked, 9);
    assert!(buf.is_empty());
}

#[test]
fn get_cpu_metrics_rejects_invalid_utf8() {
    let mut collector = CpuMetricsCollector::new();
    assert_eq!(
        collector.get_cpu_metrics(&[b'c', b'p', b'u', 0xc3]).unwrap_err(),
        MetricsError::InvalidUtf8
    );
    let m = collector.get_cpu_metrics(b"cpu0 5\ncpu1 6\n").unwrap();
    assert_eq!(m.cpu_cores.len(), 2);
    let m = collector.get_cpu_metrics(b"cpu0 5\n").unwrap();
    assert_eq!(m.cpu_cores.len(), 1);
    assert_eq!(m.cpu_cores[0].user, 5);
}

#[test]
fn fast_reader_agrees_with_parse_on_plain_decimals() {
    for word in ["0", "7", "0042", "18446744073709551615", "1234567890"] {
        let line = format!("{} 1", word);
        let c = CpuMetricsCollector::parse_cpu_counters_line(&line);
        assert_eq!(c.user, word.parse::<u64>().unwrap());
        assert_eq!(CpuMetricsCollector::parse_u64_fast(word.as_bytes()), word.parse::<u64>().unwrap());
    }
}

#[test]
fn stat_lines_that_set_nothing_are_skipped() {
    let a = "cpu 1 2 3\ncpu0 4\n";
    let b = "cpu1 5\nprocs_running 2\n";
    let mut buf = Vec::new();
    let without = CpuMetricsCollector::parse_cpu_info(&format!("{a}{b}"), &mut buf);
    for line in ["intr 1234567\n", "ctxt 987654\n", "\n", "cpux 9\n", "procs 3\n"] {
        let with = CpuMetricsCollector::parse_cpu_info(&format!("{a}{line}{b}"), &mut buf);
        assert_eq!(format!("{:?}", with), format!("{:?}", without));
        // the same line last in the text, without its line break
        let last = CpuMetricsCollector::parse_cpu_info(
            &format!("{a}{b}{}", line.trim_end_matches('\n')),
            &mut buf,
        );
        assert_eq!(format!("{:?}", last), format!("{:?}", without));
    }
}
