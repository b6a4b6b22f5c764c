//! `/proc/stat` parsing: aggregate and per-core CPU time counters and the
//! number of running and blocked processes.

use vstd::prelude::*;
use vstd::utf8::{decode_utf8, valid_utf8};
use crate::text::{
    all_ascii_digits, byte_codes, char_codes, chars_of, digit_run_end, ends_at_line_start,
    find_line_end, find_next_word, is_digit_code, is_one_line, one_line_end, leading_decimal_wrapping,
    leading_decimal_wrapping_range, lemma_line_end_bounds, lemma_line_end_extend,
    lemma_line_end_not_past_break, lemma_line_end_shift, lemma_next_word_shift,
    lemma_one_line_end, lemma_words_depend_on_range, line_end, next_word, parse_u64,
    parse_u64_range, range_equals, str_from_utf8, wrapping_decimal,
};
use crate::system_metrics::types::{CpuCounters, CpuMetrics, MetricsError, zero_cpu_counters};

verus! {

/// Number of counters on a `cpu` line that are read.
pub const CPU_COUNTER_FIELDS: usize = 10;

/// The values of the next `n` whitespace-separated words of `s[i..e]`, each read
/// as its leading digits with wrapping arithmetic; a missing word gives 0.
pub open spec fn counter_values(s: Seq<char>, i: int, e: int, n: nat) -> Seq<u64>
    decreases n,
{
    if n == 0 {
        Seq::empty()
    } else {
        match next_word(s, i, e) {
            None => seq![0u64] + counter_values(s, e, e, (n - 1) as nat),
            Some((a, b)) => seq![leading_decimal_wrapping(char_codes(s.subrange(a, b)))]
                + counter_values(s, b, e, (n - 1) as nat),
        }
    }
}

/// The counters named, in order, by ten values.
pub open spec fn counters_of(v: Seq<u64>) -> CpuCounters {
    CpuCounters {
        user: v[0],
        nice: v[1],
        system: v[2],
        idle: v[3],
        iowait: v[4],
        irq: v[5],
        softirq: v[6],
        steal: v[7],
        guest: v[8],
        guest_nice: v[9],
    }
}

/// The counters that the words of `s[i..e]` give.
pub open spec fn parse_counters(s: Seq<char>, i: int, e: int) -> CpuCounters {
    counters_of(counter_values(s, i, e, CPU_COUNTER_FIELDS as nat))
}

/// A header that starts with `cpu` and continues with ASCII digits only. The
/// bare `cpu` header also passes this test, so it is checked for first.
pub open spec fn is_core_header(h: Seq<char>) -> bool {
    h.len() >= 3 && h.take(3) == "cpu"@ && all_ascii_digits(h.skip(3))
}

/// The value of the next word of `s[i..e]` read as a `u64`, or 0 when there is
/// none or it is not one.
pub open spec fn count_value(s: Seq<char>, i: int, e: int) -> u64 {
    match next_word(s, i, e) {
        None => 0,
        Some((c, d)) => match parse_u64(s.subrange(c, d)) {
            Some(v) => v,
            None => 0,
        },
    }
}

/// What `/proc/stat` gives so far: the aggregate counters, the per-core
/// counters in order, and the running and blocked process counts.
pub type StatFigures = (CpuCounters, Seq<CpuCounters>, u64, u64);

/// The effect of the line `s[p..e]` of `/proc/stat`. The first word selects:
/// `cpu` sets the aggregate counters, `cpuN` appends per-core counters,
/// `procs_running` and `procs_blocked` set the counts; other lines change nothing.
pub open spec fn stat_line(s: Seq<char>, p: int, e: int, st: StatFigures) -> StatFigures {
    match next_word(s, p, e) {
        None => st,
        Some((a, b)) => {
            let h = s.subrange(a, b);
            if h == "cpu"@ {
                (parse_counters(s, b, e), st.1, st.2, st.3)
            } else if is_core_header(h) {
                (st.0, st.1.push(parse_counters(s, b, e)), st.2, st.3)
            } else if h == "procs_running"@ {
                (st.0, st.1, count_value(s, b, e), st.3)
            } else if h == "procs_blocked"@ {
                (st.0, st.1, st.2, count_value(s, b, e))
            } else {
                st
            }
        },
    }
}

/// The figures after reading the lines of `s` from position `p` on.
pub open spec fn stat_scan(s: Seq<char>, p: int, st: StatFigures) -> StatFigures
    decreases s.len() + 1 - p,
{
    if p < 0 || p >= s.len() {
        st
    } else {
        let e = line_end(s, p);
        proof {
            lemma_line_end_bounds(s, p);
        }
        stat_scan(s, e + 1, stat_line(s, p, e, st))
    }
}

/// The figures that the text `s` of `/proc/stat` gives.
pub open spec fn parse_stat(s: Seq<char>) -> StatFigures {
    stat_scan(s, 0, (zero_cpu_counters(), Seq::empty(), 0, 0))
}

/// Whether `m` holds the figures `st`.
pub open spec fn holds_figures(m: CpuMetrics, st: StatFigures) -> bool {
    &&& m.cpu_total == st.0
    &&& m.cpu_cores@ == st.1
    &&& m.num_procs_running == st.2
    &&& m.num_procs_blocked == st.3
}

/// Counter values of text that follows `a` are those of the text alone.
proof fn lemma_counter_values_shift(a: Seq<char>, b: Seq<char>, i: int, e: int, k: nat)
    requires
        0 <= i <= e <= b.len(),
    ensures
        counter_values(a + b, a.len() + i, a.len() + e, k) == counter_values(b, i, e, k),
    decreases k,
{
    if k > 0 {
        lemma_next_word_shift(a, b, i, e);
        match next_word(b, i, e) {
            None => lemma_counter_values_shift(a, b, e, e, (k - 1) as nat),
            Some((x, y)) => lemma_counter_values_shift(a, b, y, e, (k - 1) as nat),
        }
    }
}

/// Counter values within `[i, e)` depend only on the characters there.
proof fn lemma_counter_values_depend_on_range(s1: Seq<char>, s2: Seq<char>, i: int, e: int, k: nat)
    requires
        0 <= i <= e <= s1.len(),
        e <= s2.len(),
        forall|j: int| i <= j < e ==> s1[j] == s2[j],
    ensures
        counter_values(s1, i, e, k) == counter_values(s2, i, e, k),
    decreases k,
{
    if k > 0 {
        lemma_words_depend_on_range(s1, s2, i, e);
        match next_word(s1, i, e) {
            None => lemma_counter_values_depend_on_range(s1, s2, e, e, (k - 1) as nat),
            Some((x, y)) => lemma_counter_values_depend_on_range(s1, s2, y, e, (k - 1) as nat),
        }
    }
}

/// Reading a line of text that follows `a` does what reading it in the text
/// alone does.
proof fn lemma_stat_line_shift(a: Seq<char>, b: Seq<char>, q: int, e: int, st: StatFigures)
    requires
        0 <= q <= e <= b.len(),
    ensures
        stat_line(a + b, a.len() + q, a.len() + e, st) == stat_line(b, q, e, st),
{
    lemma_next_word_shift(a, b, q, e);
    if let Some((x, y)) = next_word(b, q, e) {
        lemma_next_word_shift(a, b, y, e);
        lemma_counter_values_shift(a, b, y, e, CPU_COUNTER_FIELDS as nat);
    }
}

/// Reading a line that ends inside `a` does what it does once text follows `a`.
proof fn lemma_stat_line_extend(a: Seq<char>, b: Seq<char>, p: int, e: int, st: StatFigures)
    requires
        0 <= p <= e <= a.len(),
    ensures
        stat_line(a + b, p, e, st) == stat_line(a, p, e, st),
{
    let s = a + b;
    assert forall|k: int| p <= k < e implies a[k] == s[k] by {}
    lemma_words_depend_on_range(a, s, p, e);
    if let Some((x, y)) = next_word(a, p, e) {
        assert forall|k: int| y <= k < e implies a[k] == s[k] by {}
        lemma_words_depend_on_range(a, s, y, e);
        lemma_counter_values_depend_on_range(a, s, y, e, CPU_COUNTER_FIELDS as nat);
    }
}

proof fn lemma_stat_scan_shift(a: Seq<char>, b: Seq<char>, q: int, st: StatFigures)
    requires
        0 <= q <= b.len() + 1,
    ensures
        stat_scan(a + b, a.len() + q, st) == stat_scan(b, q, st),
    decreases b.len() + 1 - q,
{
    if q < b.len() {
        let e = line_end(b, q);
        lemma_line_end_bounds(b, q);
        lemma_line_end_shift(a, b, q);
        lemma_stat_line_shift(a, b, q, e, st);
        lemma_stat_scan_shift(a, b, e + 1, stat_line(b, q, e, st));
    }
}

proof fn lemma_stat_scan_split_from(a: Seq<char>, b: Seq<char>, p: int, st: StatFigures)
    requires
        ends_at_line_start(a),
        0 <= p <= a.len(),
    ensures
        stat_scan(a + b, p, st) == stat_scan(b, 0, stat_scan(a, p, st)),
    decreases a.len() - p,
{
    if p == a.len() {
        lemma_stat_scan_shift(a, b, 0, st);
    } else {
        let e = line_end(a, p);
        lemma_line_end_bounds(a, p);
        lemma_line_end_not_past_break(a, p, a.len() - 1);
        lemma_line_end_extend(a, b, p);
        lemma_stat_line_extend(a, b, p, e, st);
        lemma_stat_scan_split_from(a, b, e + 1, stat_line(a, p, e, st));
    }
}

/// `/proc/stat` is read line by line: reading text `a` that ends with a line
/// break and then text `b` gives what reading `a + b` gives.
pub proof fn lemma_stat_reads_line_by_line(a: Seq<char>, b: Seq<char>, st: StatFigures)
    requires
        ends_at_line_start(a),
    ensures
        stat_scan(a + b, 0, st) == stat_scan(b, 0, stat_scan(a, 0, st)),
{
    lemma_stat_scan_split_from(a, b, 0, st);
}

/// A `/proc/stat` line (with or without its line break) that sets nothing: it
/// has no words, or its first word is none of `cpu`, `cpuN`, `procs_running`,
/// `procs_blocked`.
pub open spec fn stat_line_sets_nothing(l: Seq<char>) -> bool {
    match next_word(l, 0, one_line_end(l)) {
        None => true,
        Some((x, y)) => {
            let h = l.subrange(x, y);
            &&& h != "cpu"@
            &&& !is_core_header(h)
            &&& h != "procs_running"@
            &&& h != "procs_blocked"@
        },
    }
}

/// Lines that set nothing are skipped: adding one at a line start changes none
/// of the figures. The line may come anywhere, ending in a line break, or last
/// in the text without one.
pub proof fn lemma_stat_skips_lines_that_set_nothing(a: Seq<char>, l: Seq<char>, b: Seq<char>)
    requires
        ends_at_line_start(a),
        is_one_line(l),
        l.last() == '\n' || b.len() == 0,
        stat_line_sets_nothing(l),
    ensures
        parse_stat(a + l + b) == parse_stat(a + b),
{
    let st0: StatFigures = (zero_cpu_counters(), Seq::empty(), 0, 0);
    assert(a + l + b =~= a + (l + b));
    lemma_stat_reads_line_by_line(a, l + b, st0);
    lemma_stat_reads_line_by_line(a, b, st0);
    let st = stat_scan(a, 0, st0);
    lemma_one_line_end(l, 0);
    assert(stat_line(l, 0, one_line_end(l), st) == st);
    if l.last() == '\n' {
        lemma_stat_reads_line_by_line(l, b, st);
        assert(stat_scan(l, l.len() as int, st) == st);
    } else {
        assert(l + b =~= l);
        assert(stat_scan(l, (l.len() + 1) as int, st) == st);
        assert(stat_scan(b, 0, st) == st);
    }
}

/// Each `cpuN` line adds exactly one per-core entry, whatever came before it:
/// after text `a` that ends with a line break, a line `l` (with or without its
/// own line break) whose first word is `cpu` followed by one or more ASCII
/// digits leaves the per-core entries of `a` as they were and appends one more,
/// the counters that follow the header on that line. So there are as many
/// per-core entries as such lines, with no bound on their number.
pub proof fn lemma_each_core_line_adds_one_core(a: Seq<char>, l: Seq<char>)
    requires
        ends_at_line_start(a),
        is_one_line(l),
        next_word(l, 0, one_line_end(l)) matches Some((x, y)) && l.subrange(x, y).len() > 3
            && l.subrange(x, y).take(3) == "cpu"@ && all_ascii_digits(l.subrange(x, y).skip(3)),
    ensures
        ({
            let (x, y) = next_word(l, 0, one_line_end(l))->Some_0;
            parse_stat(a + l).1 == parse_stat(a).1.push(parse_counters(l, y, one_line_end(l)))
        }),
        parse_stat(a + l).1.len() == parse_stat(a).1.len() + 1,
        parse_stat(a + l).1.take(parse_stat(a).1.len() as int) == parse_stat(a).1,
{
    let st0: StatFigures = (zero_cpu_counters(), Seq::empty(), 0, 0);
    let st = parse_stat(a);
    lemma_stat_reads_line_by_line(a, l, st0);
    lemma_one_line_end(l, 0);
    let e = one_line_end(l);
    let (x, y) = next_word(l, 0, e)->Some_0;
    let h = l.subrange(x, y);
    assert(h != "cpu"@);
    assert(is_core_header(h));
    assert(stat_line(l, 0, e, st) == (st.0, st.1.push(parse_counters(l, y, e)), st.2, st.3));
    assert(stat_scan(l, e + 1, stat_line(l, 0, e, st)) == stat_line(l, 0, e, st));
    assert(st.1.push(parse_counters(l, y, e)).take(st.1.len() as int) =~= st.1);
}

/// `Vec::capacity`: the number of elements the vector can hold without
/// reallocating, which is never less than its length. Nothing more is claimed:
/// the value depends on the allocator.
#[verifier::external_body]
fn vec_capacity<T>(v: &Vec<T>) -> (res: usize)
    ensures
        res >= v@.len(),
{
    v.capacity()
}

/// The keys that select a `/proc/stat` line.
struct StatKeys {
    cpu: Vec<char>,
    procs_running: Vec<char>,
    procs_blocked: Vec<char>,
}

impl StatKeys {
    spec fn wf(&self) -> bool {
        &&& self.cpu@ == "cpu"@
        &&& self.procs_running@ == "procs_running"@
        &&& self.procs_blocked@ == "procs_blocked"@
    }

    fn new() -> (res: Self)
        ensures
            res.wf(),
    {
        StatKeys {
            cpu: chars_of("cpu"),
            procs_running: chars_of("procs_running"),
            procs_blocked: chars_of("procs_blocked"),
        }
    }
}

/// Whether every character of `s[a..b]` is an ASCII digit.
fn range_all_digits(s: &[char], a: usize, b: usize) -> (res: bool)
    requires
        a <= b <= s@.len(),
    ensures
        res == all_ascii_digits(s@.subrange(a as int, b as int)),
{
    let mut j = a;
    while j < b
        invariant
            a <= j <= b <= s@.len(),
            forall|i: int| a <= i < j ==> '0' <= #[trigger] s@[i] <= '9',
        decreases b - j,
    {
        if !('0' <= s[j] && s[j] <= '9') {
            assert(!('0' <= s@.subrange(a as int, b as int)[j - a] <= '9'));
            return false;
        }
        j = j + 1;
    }
    assert forall|i: int| 0 <= i < b - a implies '0' <= #[trigger] s@.subrange(
        a as int,
        b as int,
    )[i] <= '9' by {
        assert(s@.subrange(a as int, b as int)[i] == s@[a + i]);
    }
    true
}

/// The counters that the words of `s[i..e]` give.
fn parse_counters_range(s: &[char], i: usize, e: usize) -> (res: CpuCounters)
    requires
        i <= e <= s@.len(),
    ensures
        res == parse_counters(s@, i as int, e as int),
{
    let mut vals: Vec<u64> = Vec::new();
    let mut pos = i;
    let mut k: usize = 0;
    while k < CPU_COUNTER_FIELDS
        invariant
            i <= pos <= e <= s@.len(),
            k <= CPU_COUNTER_FIELDS,
            vals@.len() == k,
            vals@ + counter_values(s@, pos as int, e as int, (CPU_COUNTER_FIELDS - k) as nat)
                == counter_values(s@, i as int, e as int, CPU_COUNTER_FIELDS as nat),
        decreases CPU_COUNTER_FIELDS - k,
    {
        let ghost before = vals@;
        let ghost rest = counter_values(s@, pos as int, e as int, (CPU_COUNTER_FIELDS - k) as nat);
        match find_next_word(s, pos, e) {
            None => {
                vals.push(0);
                pos = e;
            },
            Some((a, b)) => {
                vals.push(leading_decimal_wrapping_range(s, a, b));
                pos = b;
            },
        }
        let ghost tail = counter_values(
            s@,
            pos as int,
            e as int,
            (CPU_COUNTER_FIELDS - (k + 1)) as nat,
        );
        assert(rest == seq![vals@.last()] + tail);
        assert(before + rest =~= vals@ + tail);
        k = k + 1;
    }
    assert(vals@ =~= counter_values(s@, i as int, e as int, CPU_COUNTER_FIELDS as nat));
    CpuCounters {
        user: vals[0],
        nice: vals[1],
        system: vals[2],
        idle: vals[3],
        iowait: vals[4],
        irq: vals[5],
        softirq: vals[6],
        steal: vals[7],
        guest: vals[8],
        guest_nice: vals[9],
    }
}

/// The next word of `s[i..e]` read as a `u64`, or 0.
fn count_value_range(s: &[char], i: usize, e: usize) -> (res: u64)
    requires
        i <= e <= s@.len(),
    ensures
        res == count_value(s@, i as int, e as int),
{
    match find_next_word(s, i, e) {
        None => 0,
        Some((c, d)) => match parse_u64_range(s, c, d) {
            Some(v) => v,
            None => 0,
        },
    }
}

/// Reads CPU figures from the text of `/proc/stat`, reusing one buffer for the
/// per-core counters.
pub struct CpuMetricsCollector {
    per_cpu_buffer: Vec<CpuCounters>,
}

impl CpuMetricsCollector {
    /// What the reusable per-core buffer holds between samples.
    pub closed spec fn buffered_cores(&self) -> Seq<CpuCounters> {
        self.per_cpu_buffer@
    }

    pub fn new() -> (res: Self)
        ensures
            res.buffered_cores() == Seq::<CpuCounters>::empty(),
    {
        CpuMetricsCollector { per_cpu_buffer: Vec::with_capacity(16) }
    }

    /// One CPU sample from the bytes of `/proc/stat`; an error when they are not UTF-8.
    pub fn get_cpu_metrics(&mut self, stat: &[u8]) -> (res: Result<CpuMetrics, MetricsError>)
        ensures
            !valid_utf8(stat@) ==> res is Err && res->Err_0 == MetricsError::InvalidUtf8,
            valid_utf8(stat@) ==> (res matches Ok(m) && holds_figures(
                m,
                parse_stat(decode_utf8(stat@)),
            )),
            final(self).buffered_cores() == Seq::<CpuCounters>::empty(),
    {
        match str_from_utf8(stat) {
            None => {
                self.per_cpu_buffer.clear();
                Err(MetricsError::InvalidUtf8)
            },
            Some(contents) => Ok(Self::parse_cpu_info(contents, &mut self.per_cpu_buffer)),
        }
    }

    /// The CPU figures of `/proc/stat`. The first word of a line selects:
    /// `cpu` sets the aggregate counters, `cpuN` (N all digits) appends per-core
    /// counters, `procs_running` and `procs_blocked` set the counts (0 when the
    /// next word is not a `u64`); other lines are ignored. The per-core counters
    /// are gathered in `per_cpu_buffer`, whatever it held before, and moved
    /// out, leaving it empty.
    pub fn parse_cpu_info(contents: &str, per_cpu_buffer: &mut Vec<CpuCounters>) -> (res:
        CpuMetrics)
        ensures
            holds_figures(res, parse_stat(contents@)),
            final(per_cpu_buffer)@ == Seq::<CpuCounters>::empty(),
    {
        per_cpu_buffer.clear();
        let s = chars_of(contents);
        let s = s.as_slice();
        let keys = StatKeys::new();
        let n = s.len();
        let mut cpu_total = CpuCounters::default();
        let mut num_procs_running: u64 = 0;
        let mut num_procs_blocked: u64 = 0;
        let mut p: usize = 0;
        while p < n
            invariant
                s@ == contents@,
                n == s@.len(),
                keys.wf(),
                p <= n,
                parse_stat(s@) == stat_scan(
                    s@,
                    p as int,
                    (cpu_total, per_cpu_buffer@, num_procs_running, num_procs_blocked),
                ),
            decreases n - p,
        {
            let e = find_line_end(s, p);
            let ghost st0 = (cpu_total, per_cpu_buffer@, num_procs_running, num_procs_blocked);
            if let Some((a, b)) = find_next_word(s, p, e) {
                proof {
                    let h = s@.subrange(a as int, b as int);
                    if h.len() >= 3 {
                        assert(h.take(3) =~= s@.subrange(a as int, a + 3));
                        assert(h.skip(3) =~= s@.subrange(a + 3, b as int));
                    }
                }
                if range_equals(s, a, b, keys.cpu.as_slice()) {
                    cpu_total = parse_counters_range(s, b, e);
                } else if b - a >= 3 && range_equals(s, a, a + 3, keys.cpu.as_slice())
                    && range_all_digits(s, a + 3, b) {
                    per_cpu_buffer.push(parse_counters_range(s, b, e));
                } else if range_equals(s, a, b, keys.procs_running.as_slice()) {
                    num_procs_running = count_value_range(s, b, e);
                } else if range_equals(s, a, b, keys.procs_blocked.as_slice()) {
                    num_procs_blocked = count_value_range(s, b, e);
                }
            }
            assert(stat_line(s@, p as int, e as int, st0) == (
                cpu_total,
                per_cpu_buffer@,
                num_procs_running,
                num_procs_blocked,
            ));
            assert(stat_scan(s@, p as int, st0) == stat_scan(
                s@,
                e + 1,
                (cpu_total, per_cpu_buffer@, num_procs_running, num_procs_blocked),
            ));
            if e >= n {
                p = n;
            } else {
                p = e + 1;
            }
        }
        let capacity = vec_capacity(per_cpu_buffer);
        let mut cpu_cores: Vec<CpuCounters> = Vec::new();
        std::mem::swap(&mut cpu_cores, per_cpu_buffer);
        per_cpu_buffer.reserve(capacity);
        CpuMetrics { cpu_total, cpu_cores, num_procs_running, num_procs_blocked }
    }

    /// The counters that the first ten whitespace-separated words of `line`
    /// give, each word read by `parse_u64_fast`; missing words give 0.
    pub fn parse_cpu_counters_line(line: &str) -> (res: CpuCounters)
        ensures
            res == parse_counters(line@, 0, line@.len() as int),
    {
        let s = chars_of(line);
        parse_counters_range(s.as_slice(), 0, s.len())
    }

    /// The leading ASCII digits of `bytes` in base ten, with wrapping arithmetic;
    /// reading stops at the first byte that is not a digit, and gives 0 when
    /// there is none.
    pub fn parse_u64_fast(bytes: &[u8]) -> (res: u64)
        ensures
            res == leading_decimal_wrapping(byte_codes(bytes@)),
    {
        let ghost codes = byte_codes(bytes@);
        let mut val: u64 = 0;
        let mut j: usize = 0;
        while j < bytes.len() && 48 <= bytes[j] && bytes[j] <= 57
            invariant
                j <= bytes@.len(),
                codes == byte_codes(bytes@),
                codes.len() == bytes@.len(),
                forall|i: int| 0 <= i < j ==> is_digit_code(#[trigger] codes[i]),
                digit_run_end(codes, j as int) == digit_run_end(codes, 0),
                val == wrapping_decimal(codes, j as int),
            decreases bytes@.len() - j,
        {
            assert(codes[j as int] == bytes@[j as int] as int);
            val = val.wrapping_mul(10).wrapping_add((bytes[j] - 48) as u64);
            j = j + 1;
        }
        proof {
            if j < bytes@.len() {
                assert(codes[j as int] == bytes@[j as int] as int);
            }
        }
        val
    }
}

} // verus!
