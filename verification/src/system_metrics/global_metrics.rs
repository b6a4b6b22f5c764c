//! `/proc/meminfo` parsing and the global metrics sample built from it.

use vstd::prelude::*;
use vstd::utf8::*;
use crate::text::{
    chars_of, ends_at_line_start, find_line_end, is_one_line, one_line_end, lemma_line_end_extend,
    lemma_line_end_not_past_break, lemma_line_end_shift, lemma_next_word_shift,
    lemma_one_line_end, lemma_words_depend_on_range, find_next_word, lemma_line_end_bounds, line_end, next_word, parse_u64,
    parse_u64_range, range_equals, str_from_utf8,
};
use crate::system_metrics::types::{
    CpuCounters, CpuMetrics, GlobalMetrics, MemoryMetrics, MetricsError, zero_cpu_counters, zero_memory_metrics,
};

verus! {

/// Number of `/proc/meminfo` fields that are read; reading stops once every
/// one of them has been found.
pub const MEMINFO_FIELDS: usize = 8;

/// Which of the fields have been found so far, in the order `MemTotal`,
/// `MemFree`, `MemAvailable`, `Buffers`, `Cached`, `SwapTotal`, `SwapFree`,
/// `Slab`: none of them.
pub open spec fn no_fields_found() -> Seq<bool> {
    Seq::new(MEMINFO_FIELDS as nat, |i: int| false)
}

/// Whether every field has been found.
pub open spec fn all_fields_found(found: Seq<bool>) -> bool {
    forall|i: int| 0 <= i < MEMINFO_FIELDS ==> #[trigger] found[i]
}

/// What a recognised `/proc/meminfo` line does to the figures: the field named
/// by `key` takes the value `v` (already in bytes) and is marked found, whether
/// or not it was found before; any other key leaves both unchanged.
pub open spec fn store_meminfo_field(m: MemoryMetrics, found: Seq<bool>, key: Seq<char>, v: u64) -> (
    MemoryMetrics,
    Seq<bool>,
) {
    if key == "MemTotal:"@ {
        (MemoryMetrics { total: v, ..m }, found.update(0, true))
    } else if key == "MemFree:"@ {
        (MemoryMetrics { free: v, ..m }, found.update(1, true))
    } else if key == "MemAvailable:"@ {
        (MemoryMetrics { available: v, ..m }, found.update(2, true))
    } else if key == "Buffers:"@ {
        (MemoryMetrics { buffers: v, ..m }, found.update(3, true))
    } else if key == "Cached:"@ {
        (MemoryMetrics { cached: v, ..m }, found.update(4, true))
    } else if key == "SwapTotal:"@ {
        (MemoryMetrics { swap_total: v, ..m }, found.update(5, true))
    } else if key == "SwapFree:"@ {
        (MemoryMetrics { swap_free: v, ..m }, found.update(6, true))
    } else if key == "Slab:"@ {
        (MemoryMetrics { slab: v, ..m }, found.update(7, true))
    } else {
        (m, found)
    }
}

/// The effect of the line `s[p..e]` of `/proc/meminfo`, of the form
/// `Key: value kB`. A line with fewer than two words, or whose second word is
/// not a `u64`, changes nothing. `None` when the value in kB times 1024 does
/// not fit in a `u64`.
pub open spec fn meminfo_line(s: Seq<char>, p: int, e: int, m: MemoryMetrics, found: Seq<bool>) -> Option<
    (MemoryMetrics, Seq<bool>),
> {
    match next_word(s, p, e) {
        None => Some((m, found)),
        Some((a, b)) => match next_word(s, b, e) {
            None => Some((m, found)),
            Some((c, d)) => match parse_u64(s.subrange(c, d)) {
                None => Some((m, found)),
                Some(kb) => if kb * 1024 > u64::MAX {
                    None
                } else {
                    Some(store_meminfo_field(m, found, s.subrange(a, b), (kb * 1024) as u64))
                },
            },
        },
    }
}

/// The figures, and which fields have been found, after reading the lines of
/// `s` from position `p` on, starting from `m` with the fields marked in
/// `found` already found; reading stops at the end of `s` or once every field
/// has been found. `None` when a value overflows.
pub open spec fn meminfo_scan(s: Seq<char>, p: int, m: MemoryMetrics, found: Seq<bool>) -> Option<
    (MemoryMetrics, Seq<bool>),
>
    decreases s.len() + 1 - p,
{
    if p < 0 || p >= s.len() || all_fields_found(found) {
        Some((m, found))
    } else {
        let e = line_end(s, p);
        proof {
            lemma_line_end_bounds(s, p);
        }
        match meminfo_line(s, p, e, m, found) {
            None => None,
            Some((m2, found2)) => meminfo_scan(s, e + 1, m2, found2),
        }
    }
}

/// `x - y`, or 0 when `y > x`.
pub open spec fn saturating_sub(x: u64, y: u64) -> u64 {
    if x >= y {
        (x - y) as u64
    } else {
        0
    }
}

/// The memory figures that the text `s` of `/proc/meminfo` gives, with `used`
/// derived as `total - available` (saturating); `None` when a value overflows.
pub open spec fn parse_meminfo(s: Seq<char>) -> Option<MemoryMetrics> {
    match meminfo_scan(s, 0, zero_memory_metrics(), no_fields_found()) {
        None => None,
        Some((m, _)) => Some(MemoryMetrics { used: saturating_sub(m.total, m.available), ..m }),
    }
}

/// The memory figures that the bytes of `/proc/meminfo` give, or why there are none.
pub open spec fn meminfo_sample(bytes: Seq<u8>) -> Result<MemoryMetrics, MetricsError> {
    if !valid_utf8(bytes) {
        Err(MetricsError::InvalidUtf8)
    } else {
        match parse_meminfo(decode_utf8(bytes)) {
            None => Err(MetricsError::ValueOverflow),
            Some(m) => Ok(m),
        }
    }
}

/// Reading a line of text that follows `a` does what reading it in the text
/// alone does.
proof fn lemma_meminfo_line_shift(
    a: Seq<char>,
    b: Seq<char>,
    q: int,
    e: int,
    m: MemoryMetrics,
    found: Seq<bool>,
)
    requires
        0 <= q <= e <= b.len(),
    ensures
        meminfo_line(a + b, a.len() + q, a.len() + e, m, found) == meminfo_line(
            b,
            q,
            e,
            m,
            found,
        ),
{
    lemma_next_word_shift(a, b, q, e);
    if let Some((x, y)) = next_word(b, q, e) {
        lemma_next_word_shift(a, b, y, e);
    }
}

/// Reading text that follows `a` from position `q` does what reading the text
/// alone from `q` does.
proof fn lemma_meminfo_scan_shift(a: Seq<char>, b: Seq<char>, q: int, m: MemoryMetrics, found: Seq<bool>)
    requires
        0 <= q <= b.len() + 1,
    ensures
        meminfo_scan(a + b, a.len() + q, m, found) == meminfo_scan(b, q, m, found),
    decreases b.len() + 1 - q,
{
    if q < b.len() && !all_fields_found(found) {
        let e = line_end(b, q);
        lemma_line_end_bounds(b, q);
        lemma_line_end_shift(a, b, q);
        lemma_meminfo_line_shift(a, b, q, e, m, found);
        if let Some((m2, found2)) = meminfo_line(b, q, e, m, found) {
            lemma_meminfo_scan_shift(a, b, e + 1, m2, found2);
        }
    }
}

/// What reading `a` and then `b` gives, starting from `m` with the fields
/// marked in `found` already found.
pub open spec fn meminfo_scan_then(
    a: Seq<char>,
    b: Seq<char>,
    m: MemoryMetrics,
    found: Seq<bool>,
) -> Option<(MemoryMetrics, Seq<bool>)> {
    match meminfo_scan(a, 0, m, found) {
        None => None,
        Some((m2, found2)) => meminfo_scan(b, 0, m2, found2),
    }
}

proof fn lemma_meminfo_scan_split_from(
    a: Seq<char>,
    b: Seq<char>,
    p: int,
    m: MemoryMetrics,
    found: Seq<bool>,
)
    requires
        ends_at_line_start(a),
        0 <= p <= a.len(),
    ensures
        meminfo_scan(a + b, p, m, found) == match meminfo_scan(a, p, m, found) {
            None => None,
            Some((m2, found2)) => meminfo_scan(b, 0, m2, found2),
        },
    decreases a.len() - p,
{
    let s = a + b;
    if p == a.len() {
        lemma_meminfo_scan_shift(a, b, 0, m, found);
    } else if all_fields_found(found) {
    } else {
        let e = line_end(a, p);
        lemma_line_end_bounds(a, p);
        lemma_line_end_not_past_break(a, p, a.len() - 1);
        lemma_line_end_extend(a, b, p);
        assert forall|k: int| p <= k < e implies a[k] == s[k] by {}
        lemma_words_depend_on_range(a, s, p, e);
        if let Some((x, y)) = next_word(a, p, e) {
            assert forall|k: int| y <= k < e implies a[k] == s[k] by {}
            lemma_words_depend_on_range(a, s, y, e);
        }
        assert(meminfo_line(s, p, e, m, found) == meminfo_line(a, p, e, m, found));
        if let Some((m2, found2)) = meminfo_line(a, p, e, m, found) {
            lemma_meminfo_scan_split_from(a, b, e + 1, m2, found2);
        }
    }
}

/// `/proc/meminfo` is read line by line: reading text `a` that ends with a
/// line break and then text `b` gives what reading `a + b` gives.
pub proof fn lemma_meminfo_reads_line_by_line(
    a: Seq<char>,
    b: Seq<char>,
    m: MemoryMetrics,
    found: Seq<bool>,
)
    requires
        ends_at_line_start(a),
    ensures
        meminfo_scan(a + b, 0, m, found) == meminfo_scan_then(a, b, m, found),
{
    lemma_meminfo_scan_split_from(a, b, 0, m, found);
}

/// A `/proc/meminfo` line (with or without its line break) that sets no
/// field: it has fewer than two words, or its second word is not a `u64`, or
/// its key is not one that is read and its value in bytes fits in a `u64`.
pub open spec fn meminfo_line_sets_nothing(l: Seq<char>) -> bool {
    let e = one_line_end(l);
    match next_word(l, 0, e) {
        None => true,
        Some((x, y)) => match next_word(l, y, e) {
            None => true,
            Some((c, d)) => match parse_u64(l.subrange(c, d)) {
                None => true,
                Some(kb) => {
                    let key = l.subrange(x, y);
                    &&& kb * 1024 <= u64::MAX
                    &&& key != "MemTotal:"@
                    &&& key != "MemFree:"@
                    &&& key != "MemAvailable:"@
                    &&& key != "Buffers:"@
                    &&& key != "Cached:"@
                    &&& key != "SwapTotal:"@
                    &&& key != "SwapFree:"@
                    &&& key != "Slab:"@
                },
            },
        },
    }
}

/// Malformed lines, and lines with a key that is not read, are skipped: adding
/// such a line `l` at a line start changes nothing, so
/// `parse_memory_metrics_checked` (and `parse_memory_metrics`) give the same
/// figures with or without it. The line may come anywhere, ending in a line
/// break, or last in the text without one. Such a line neither sets a field nor
/// counts toward the fields that end reading.
pub proof fn lemma_meminfo_skips_lines_that_set_nothing(a: Seq<char>, l: Seq<char>, b: Seq<char>)
    requires
        ends_at_line_start(a),
        is_one_line(l),
        l.last() == '\n' || b.len() == 0,
        meminfo_line_sets_nothing(l),
    ensures
        parse_meminfo(a + l + b) == parse_meminfo(a + b),
{
    let zero = zero_memory_metrics();
    let n = no_fields_found();
    assert(a + l + b =~= a + (l + b));
    lemma_meminfo_reads_line_by_line(a, l + b, zero, n);
    lemma_meminfo_reads_line_by_line(a, b, zero, n);
    if let Some((m2, found2)) = meminfo_scan(a, 0, zero, n) {
        if !all_fields_found(found2) {
            lemma_one_line_end(l, 0);
            assert(meminfo_line(l, 0, one_line_end(l), m2, found2) == Some((m2, found2)));
            if l.last() == '\n' {
                lemma_meminfo_reads_line_by_line(l, b, m2, found2);
                assert(meminfo_scan(l, l.len() as int, m2, found2) == Some((m2, found2)));
            } else {
                assert(l + b =~= l);
                assert(meminfo_scan(l, (l.len() + 1) as int, m2, found2) == Some((m2, found2)));
                assert(meminfo_scan(b, 0, m2, found2) == Some((m2, found2)));
            }
        }
    }
}

/// Reading stops once every field has been found: when the text `a`, ending
/// with a line break, already sets each of the eight fields, whatever text
/// follows it is not read.
pub proof fn lemma_meminfo_ignores_text_after_last_field(a: Seq<char>, b: Seq<char>)
    requires
        ends_at_line_start(a),
        meminfo_scan(a, 0, zero_memory_metrics(), no_fields_found()) matches Some((_, found))
            && all_fields_found(found),
    ensures
        parse_meminfo(a + b) == parse_meminfo(a),
{
    lemma_meminfo_reads_line_by_line(a, b, zero_memory_metrics(), no_fields_found());
}

/// `used` never exceeds `total`: it is `total - available` when `available`
/// is at most `total`, and 0 otherwise.
pub proof fn lemma_used_within_total(s: Seq<char>)
    requires
        parse_meminfo(s) is Some,
    ensures
        parse_meminfo(s)->Some_0.used <= parse_meminfo(s)->Some_0.total,
        parse_meminfo(s)->Some_0.available <= parse_meminfo(s)->Some_0.total ==> parse_meminfo(
            s,
        )->Some_0.used == parse_meminfo(s)->Some_0.total - parse_meminfo(s)->Some_0.available,
        parse_meminfo(s)->Some_0.available > parse_meminfo(s)->Some_0.total ==> parse_meminfo(
            s,
        )->Some_0.used == 0,
{
}

/// Whether every field has been found.
fn all_found(found: &Vec<bool>) -> (res: bool)
    requires
        found@.len() == MEMINFO_FIELDS,
    ensures
        res == all_fields_found(found@),
{
    let res = found[0] && found[1] && found[2] && found[3] && found[4] && found[5] && found[6]
        && found[7];
    proof {
        if !res {
            assert(!found@[0] || !found@[1] || !found@[2] || !found@[3] || !found@[4]
                || !found@[5] || !found@[6] || !found@[7]);
        }
    }
    res
}

/// The keys of the `/proc/meminfo` lines that are read.
struct MeminfoKeys {
    total: Vec<char>,
    free: Vec<char>,
    available: Vec<char>,
    buffers: Vec<char>,
    cached: Vec<char>,
    swap_total: Vec<char>,
    swap_free: Vec<char>,
    slab: Vec<char>,
}

impl MeminfoKeys {
    spec fn wf(&self) -> bool {
        &&& self.total@ == "MemTotal:"@
        &&& self.free@ == "MemFree:"@
        &&& self.available@ == "MemAvailable:"@
        &&& self.buffers@ == "Buffers:"@
        &&& self.cached@ == "Cached:"@
        &&& self.swap_total@ == "SwapTotal:"@
        &&& self.swap_free@ == "SwapFree:"@
        &&& self.slab@ == "Slab:"@
    }

    fn new() -> (res: Self)
        ensures
            res.wf(),
    {
        MeminfoKeys {
            total: chars_of("MemTotal:"),
            free: chars_of("MemFree:"),
            available: chars_of("MemAvailable:"),
            buffers: chars_of("Buffers:"),
            cached: chars_of("Cached:"),
            swap_total: chars_of("SwapTotal:"),
            swap_free: chars_of("SwapFree:"),
            slab: chars_of("Slab:"),
        }
    }
}

/// Reads system-wide metrics from the text of `/proc` files.
pub struct GlobalMetricsCollector {}

impl GlobalMetricsCollector {
    pub fn new() -> (res: Self) {
        GlobalMetricsCollector {  }
    }

    /// One sample from the bytes of `/proc/meminfo`: an error when they are not
    /// UTF-8 or when a value overflows; the CPU figures are left at zero.
    pub fn get_metrics(&mut self, meminfo: &[u8]) -> (res: Result<GlobalMetrics, MetricsError>)
        ensures
            match meminfo_sample(meminfo@) {
                Err(e) => res is Err && res->Err_0 == e,
                Ok(memory) => (res matches Ok(g) && g.memory == memory && g.cpu.cpu_total
                    == zero_cpu_counters() && g.cpu.cpu_cores@ == Seq::<CpuCounters>::empty()
                    && g.cpu.num_procs_running == 0 && g.cpu.num_procs_blocked == 0),
            },
    {
        match str_from_utf8(meminfo) {
            None => Err(MetricsError::InvalidUtf8),
            Some(contents) => match Self::parse_memory_metrics_checked(contents) {
                None => Err(MetricsError::ValueOverflow),
                Some(memory) => Ok(GlobalMetrics { memory, cpu: CpuMetrics::default() }),
            },
        }
    }

    /// The memory figures of `/proc/meminfo`; `None` when a value in kB does not
    /// fit in a `u64` once converted to bytes.
    pub fn parse_memory_metrics_checked(contents: &str) -> (res: Option<MemoryMetrics>)
        ensures
            res == parse_meminfo(contents@),
    {
        let s = chars_of(contents);
        let s = s.as_slice();
        let keys = MeminfoKeys::new();
        let n = s.len();
        let mut m = MemoryMetrics::default();
        let mut found: Vec<bool> = vec![false; MEMINFO_FIELDS];
        assert(found@ =~= no_fields_found());
        let mut p: usize = 0;
        while p < n && !all_found(&found)
            invariant
                s@ == contents@,
                n == s@.len(),
                keys.wf(),
                p <= n,
                found@.len() == MEMINFO_FIELDS,
                meminfo_scan(s@, 0, zero_memory_metrics(), no_fields_found()) == meminfo_scan(
                    s@,
                    p as int,
                    m,
                    found@,
                ),
            decreases n - p,
        {
            let e = find_line_end(s, p);
            let ghost p0 = p as int;
            let ghost m0 = m;
            let ghost found0 = found@;
            if let Some((a, b)) = find_next_word(s, p, e) {
                if let Some((c, d)) = find_next_word(s, b, e) {
                    if let Some(kb) = parse_u64_range(s, c, d) {
                        if kb > u64::MAX / 1024 {
                            return None;
                        }
                        let v = kb * 1024;
                        if range_equals(s, a, b, keys.total.as_slice()) {
                            m.total = v;
                            found.set(0, true);
                        } else if range_equals(s, a, b, keys.free.as_slice()) {
                            m.free = v;
                            found.set(1, true);
                        } else if range_equals(s, a, b, keys.available.as_slice()) {
                            m.available = v;
                            found.set(2, true);
                        } else if range_equals(s, a, b, keys.buffers.as_slice()) {
                            m.buffers = v;
                            found.set(3, true);
                        } else if range_equals(s, a, b, keys.cached.as_slice()) {
                            m.cached = v;
                            found.set(4, true);
                        } else if range_equals(s, a, b, keys.swap_total.as_slice()) {
                            m.swap_total = v;
                            found.set(5, true);
                        } else if range_equals(s, a, b, keys.swap_free.as_slice()) {
                            m.swap_free = v;
                            found.set(6, true);
                        } else if range_equals(s, a, b, keys.slab.as_slice()) {
                            m.slab = v;
                            found.set(7, true);
                        }
                        assert((m, found@) == store_meminfo_field(
                            m0,
                            found0,
                            s@.subrange(a as int, b as int),
                            v,
                        ));
                    }
                }
            }
            assert(meminfo_line(s@, p as int, e as int, m0, found0) == Some((m, found@)));
            assert(meminfo_scan(s@, p0, m0, found0) == meminfo_scan(s@, e + 1, m, found@));
            if e >= n {
                p = n;
            } else {
                p = e + 1;
            }
        }
        let available = m.available;
        m.used = if m.total >= available {
            m.total - available
        } else {
            0
        };
        Some(m)
    }

    /// The memory figures of `/proc/meminfo`. Each line reads `Key: value kB`;
    /// the lines `MemTotal`, `MemFree`, `MemAvailable`, `Buffers`, `Cached`,
    /// `SwapTotal`, `SwapFree` and `Slab` set their field to the value in bytes
    /// (the last such line wins), malformed lines are skipped, fields never set
    /// stay 0, reading stops once each of the eight fields has been set (a key
    /// that repeats does not hasten this), and `used` is
    /// `total - available` (0 when `available` is larger).
    pub fn parse_memory_metrics(contents: &str) -> (res: MemoryMetrics)
        requires
            parse_meminfo(contents@) is Some,
        ensures
            Some(res) == parse_meminfo(contents@),
    {
        match Self::parse_memory_metrics_checked(contents) {
            Some(m) => m,
            None => MemoryMetrics::default(),
        }
    }
}

} // verus!
