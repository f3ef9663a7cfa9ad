//! Parsing the output of `virsh domstats`: one `Domain: '<name>'` header per
//! domain, followed by `key=value` lines.

use vstd::prelude::*;

use crate::model::{lemma_wrapped_step, wrapped};
use crate::name_map::NameMap;
use crate::text::{
    all_digits, chars_of, decimal, is_white, lemma_decimal_all_digits, lemma_decimal_injective, lemma_first_index_exact,
    lemma_parse_decimal, lemma_trimmed_plain, decimal_numeral_value, find_char, first_index_of, has_at, parse_u64,
    parse_u64_spec, strip_cr, string_from, text_lines, trim_bounds, trimmed,
};

verus! {

/// Counters read from `virsh domstats` for one domain.
#[derive(Debug, Clone, Copy)]
pub struct DomStats {
    pub state: u32,
    pub cpu_time: u64,
    pub vcpu_current: u32,
    pub balloon_rss: Option<u64>,
    pub balloon_maximum: u64,
    pub balloon_current: u64,
    pub net_rx_bytes: u64,
    pub net_tx_bytes: u64,
    pub blk_rd_bytes: u64,
    pub blk_wr_bytes: u64,
}

impl DomStats {
    /// All counters zero, no balloon RSS.
    pub open spec fn spec_zero() -> DomStats {
        DomStats {
            state: 0,
            cpu_time: 0,
            vcpu_current: 0,
            balloon_rss: None,
            balloon_maximum: 0,
            balloon_current: 0,
            net_rx_bytes: 0,
            net_tx_bytes: 0,
            blk_rd_bytes: 0,
            blk_wr_bytes: 0,
        }
    }

    /// All counters zero, no balloon RSS.
    pub fn zero() -> (r: DomStats)
        ensures
            r == Self::spec_zero(),
    {
        DomStats {
            state: 0,
            cpu_time: 0,
            vcpu_current: 0,
            balloon_rss: None,
            balloon_maximum: 0,
            balloon_current: 0,
            net_rx_bytes: 0,
            net_tx_bytes: 0,
            blk_rd_bytes: 0,
            blk_wr_bytes: 0,
        }
    }
}

impl Default for DomStats {
    fn default() -> (r: Self)
        ensures
            r == DomStats::spec_zero(),
    {
        DomStats::zero()
    }
}

/// `a + b` wrapped to 64 bits.
pub open spec fn wrap_add(a: u64, b: u64) -> u64 {
    if a + b > u64::MAX {
        (a + b - 0x1_0000_0000_0000_0000) as u64
    } else {
        (a + b) as u64
    }
}

/// The state of a scan through the output, between two lines.
pub struct Scan {
    /// Domains finished so far; a later block for the same name replaces an earlier one.
    pub result: Map<Seq<char>, DomStats>,
    /// The domain whose block is being read.
    pub current: Option<Seq<char>>,
    /// Counters of the current block.
    pub stats: DomStats,
    /// The last `net.count` of the current block.
    pub net_count: u64,
    /// The last `block.count` of the current block.
    pub block_count: u64,
}

/// The scan before the first line.
pub open spec fn scan_start() -> Scan {
    Scan { result: Map::empty(), current: None, stats: DomStats::spec_zero(), net_count: 0, block_count: 0 }
}

/// The domain name of a `Domain: '<name>'` header line.
pub open spec fn domain_header(line: Seq<char>) -> Option<Seq<char>> {
    let p = "Domain: '"@;
    if line.len() >= p.len() + 1 && line.subrange(0, p.len() as int) == p && line.last() == '\'' {
        Some(line.subrange(p.len() as int, line.len() - 1))
    } else {
        None
    }
}

/// `str::split_once('=')`.
pub open spec fn split_at_eq(t: Seq<char>) -> Option<(Seq<char>, Seq<char>)> {
    let i = first_index_of(t, '=');
    if i >= t.len() {
        None
    } else {
        Some((t.subrange(0, i as int), t.subrange(i + 1int, t.len() as int)))
    }
}

/// Whether `key` is `head`, a decimal index below `count`, then `tail`
/// (as in `net.0.rx.bytes` when `net.count` is above 0).
pub open spec fn indexed_key(key: Seq<char>, head: Seq<char>, tail: Seq<char>, count: u64) -> bool {
    exists|n: nat| n < count && key == head + #[trigger] decimal(n) + tail
}

/// The effect of a `key=val` line on the scan.
pub open spec fn apply_counter(st: Scan, key: Seq<char>, val: u64) -> Scan {
    let s = st.stats;
    if key == "state.state"@ {
        Scan { stats: DomStats { state: val as u32, ..s }, ..st }
    } else if key == "cpu.time"@ {
        Scan { stats: DomStats { cpu_time: val, ..s }, ..st }
    } else if key == "vcpu.current"@ {
        Scan { stats: DomStats { vcpu_current: val as u32, ..s }, ..st }
    } else if key == "balloon.rss"@ {
        Scan { stats: DomStats { balloon_rss: Some(val), ..s }, ..st }
    } else if key == "balloon.maximum"@ {
        Scan { stats: DomStats { balloon_maximum: val, ..s }, ..st }
    } else if key == "balloon.current"@ {
        Scan { stats: DomStats { balloon_current: val, ..s }, ..st }
    } else if key == "net.count"@ {
        Scan { net_count: val, ..st }
    } else if key == "block.count"@ {
        Scan { block_count: val, ..st }
    } else {
        let s1 = if indexed_key(key, "net."@, ".rx.bytes"@, st.net_count) {
            DomStats { net_rx_bytes: wrap_add(s.net_rx_bytes, val), ..s }
        } else if indexed_key(key, "net."@, ".tx.bytes"@, st.net_count) {
            DomStats { net_tx_bytes: wrap_add(s.net_tx_bytes, val), ..s }
        } else {
            s
        };
        let s2 = if indexed_key(key, "block."@, ".rd.bytes"@, st.block_count) {
            DomStats { blk_rd_bytes: wrap_add(s1.blk_rd_bytes, val), ..s1 }
        } else if indexed_key(key, "block."@, ".wr.bytes"@, st.block_count) {
            DomStats { blk_wr_bytes: wrap_add(s1.blk_wr_bytes, val), ..s1 }
        } else {
            s1
        };
        Scan { stats: s2, ..st }
    }
}

/// The effect of one line on the scan.
pub open spec fn scan_line(st: Scan, line: Seq<char>) -> Scan {
    match domain_header(line) {
        Some(name) => Scan {
            result: match st.current {
                Some(d) => st.result.insert(d, st.stats),
                None => st.result,
            },
            current: Some(name),
            stats: DomStats::spec_zero(),
            net_count: 0,
            block_count: 0,
        },
        None => {
            let t = trimmed(line);
            if t.len() == 0 {
                st
            } else {
                match split_at_eq(t) {
                    None => st,
                    Some((key, v)) => match parse_u64_spec(v) {
                        None => st,
                        Some(val) => apply_counter(st, key, val),
                    },
                }
            }
        },
    }
}

/// The scan after `lines`.
pub open spec fn scan_lines(st: Scan, lines: Seq<Seq<char>>) -> Scan
    decreases lines.len(),
{
    if lines.len() == 0 {
        st
    } else {
        scan_lines(scan_line(st, lines[0]), lines.drop_first())
    }
}

/// The domains of a finished scan.
pub open spec fn scan_result(st: Scan) -> Map<Seq<char>, DomStats> {
    match st.current {
        Some(d) => st.result.insert(d, st.stats),
        None => st.result,
    }
}

/// The per-domain counters that `virsh domstats` output `out` describes.
pub open spec fn domstats_of(out: Seq<char>) -> Map<Seq<char>, DomStats> {
    scan_result(scan_lines(scan_start(), text_lines(out)))
}

// ── Executable scan ─────────────────────────────────────────────────────────

/// The literal keys and markers of the format, as characters.
struct Words {
    domain: Vec<char>,
    state_state: Vec<char>,
    cpu_time: Vec<char>,
    vcpu_current: Vec<char>,
    balloon_rss: Vec<char>,
    balloon_maximum: Vec<char>,
    balloon_current: Vec<char>,
    net_count: Vec<char>,
    block_count: Vec<char>,
    net: Vec<char>,
    rx_bytes: Vec<char>,
    tx_bytes: Vec<char>,
    block: Vec<char>,
    rd_bytes: Vec<char>,
    wr_bytes: Vec<char>,
}

impl Words {
    spec fn wf(&self) -> bool {
        &&& self.domain@ == "Domain: '"@
        &&& self.state_state@ == "state.state"@
        &&& self.cpu_time@ == "cpu.time"@
        &&& self.vcpu_current@ == "vcpu.current"@
        &&& self.balloon_rss@ == "balloon.rss"@
        &&& self.balloon_maximum@ == "balloon.maximum"@
        &&& self.balloon_current@ == "balloon.current"@
        &&& self.net_count@ == "net.count"@
        &&& self.block_count@ == "block.count"@
        &&& self.net@ == "net."@
        &&& self.rx_bytes@ == ".rx.bytes"@
        &&& self.tx_bytes@ == ".tx.bytes"@
        &&& self.block@ == "block."@
        &&& self.rd_bytes@ == ".rd.bytes"@
        &&& self.wr_bytes@ == ".wr.bytes"@
    }

    fn new() -> (r: Words)
        ensures
            r.wf(),
    {
        Words {
            domain: chars_of("Domain: '"),
            state_state: chars_of("state.state"),
            cpu_time: chars_of("cpu.time"),
            vcpu_current: chars_of("vcpu.current"),
            balloon_rss: chars_of("balloon.rss"),
            balloon_maximum: chars_of("balloon.maximum"),
            balloon_current: chars_of("balloon.current"),
            net_count: chars_of("net.count"),
            block_count: chars_of("block.count"),
            net: chars_of("net."),
            rx_bytes: chars_of(".rx.bytes"),
            tx_bytes: chars_of(".tx.bytes"),
            block: chars_of("block."),
            rd_bytes: chars_of(".rd.bytes"),
            wr_bytes: chars_of(".wr.bytes"),
        }
    }
}

/// Whether `v[lo..hi]` equals `pat`.
fn slice_is(v: &[char], lo: usize, hi: usize, pat: &[char]) -> (r: bool)
    requires
        lo <= hi <= v@.len(),
    ensures
        r == (v@.subrange(lo as int, hi as int) == pat@),
{
    if hi - lo != pat.len() {
        return false;
    }
    has_at(v, lo, pat)
}

/// Whether `v[lo..hi]` is `head`, a decimal index below `count`, then `tail`.
fn is_indexed_key(v: &[char], lo: usize, hi: usize, head: &[char], tail: &[char], count: u64) -> (r: bool)
    requires
        lo <= hi <= v@.len(),
    ensures
        r == indexed_key(v@.subrange(lo as int, hi as int), head@, tail@, count),
{
    let ghost key = v@.subrange(lo as int, hi as int);
    if hi - lo < head.len() || hi - lo - head.len() < tail.len() {
        proof {
            assert forall|n: nat| n < count implies key != head@ + #[trigger] decimal(n) + tail@ by {
                assert((head@ + decimal(n) + tail@).len() >= head@.len() + tail@.len());
            }
        }
        return false;
    }
    let mid_lo = lo + head.len();
    let mid_hi = hi - tail.len();
    if !has_at(v, lo, head) || !has_at(v, mid_hi, tail) {
        proof {
            assert forall|n: nat| n < count implies key != head@ + #[trigger] decimal(n) + tail@ by {
                let k = head@ + decimal(n) + tail@;
                if key == k {
                    assert(key.subrange(0, head@.len() as int) =~= head@);
                    assert(v@.subrange(lo as int, lo + head@.len()) =~= key.subrange(0, head@.len() as int));
                    assert(k.subrange(k.len() - tail@.len(), k.len() as int) =~= tail@);
                    assert(v@.subrange(mid_hi as int, mid_hi + tail@.len())
                        =~= key.subrange(key.len() - tail@.len(), key.len() as int));
                }
            }
        }
        return false;
    }
    let ghost mid = v@.subrange(mid_lo as int, mid_hi as int);
    assert(key =~= head@ + mid + tail@) by {
        assert(v@.subrange(lo as int, mid_lo as int) == head@);
        assert(v@.subrange(mid_hi as int, hi as int) == tail@);
    }
    match decimal_numeral_value(v, mid_lo, mid_hi) {
        Some(n) => {
            if n < count {
                assert(key == head@ + decimal(n as nat) + tail@);
                true
            } else {
                proof {
                    assert forall|m: nat| m < count implies key != head@ + #[trigger] decimal(m) + tail@ by {
                        let k = head@ + decimal(m) + tail@;
                        if key == k {
                            assert(k.subrange(head@.len() as int, k.len() - tail@.len()) =~= decimal(m));
                            assert(key.subrange(head@.len() as int, key.len() - tail@.len()) =~= mid);
                            lemma_decimal_injective(m, n as nat);
                        }
                    }
                }
                false
            }
        },
        None => {
            proof {
                assert forall|m: nat| m < count implies key != head@ + #[trigger] decimal(m) + tail@ by {
                    let k = head@ + decimal(m) + tail@;
                    if key == k {
                        assert(k.subrange(head@.len() as int, k.len() - tail@.len()) =~= decimal(m));
                        assert(key.subrange(head@.len() as int, key.len() - tail@.len()) =~= mid);
                    }
                }
            }
            false
        },
    }
}

/// The executable scan state.
struct ScanState {
    result: NameMap<DomStats>,
    current: Option<String>,
    stats: DomStats,
    net_count: u64,
    block_count: u64,
}

impl ScanState {
    spec fn view(&self) -> Scan {
        Scan {
            result: self.result@,
            current: match self.current {
                Some(s) => Some(s@),
                None => None,
            },
            stats: self.stats,
            net_count: self.net_count,
            block_count: self.block_count,
        }
    }

    fn apply(&mut self, w: &Words, v: &[char], klo: usize, khi: usize, val: u64)
        requires
            w.wf(),
            klo <= khi <= v@.len(),
        ensures
            final(self)@ == apply_counter(old(self)@, v@.subrange(klo as int, khi as int), val),
    {
        if slice_is(v, klo, khi, &w.state_state) {
            self.stats.state = val as u32;
        } else if slice_is(v, klo, khi, &w.cpu_time) {
            self.stats.cpu_time = val;
        } else if slice_is(v, klo, khi, &w.vcpu_current) {
            self.stats.vcpu_current = val as u32;
        } else if slice_is(v, klo, khi, &w.balloon_rss) {
            self.stats.balloon_rss = Some(val);
        } else if slice_is(v, klo, khi, &w.balloon_maximum) {
            self.stats.balloon_maximum = val;
        } else if slice_is(v, klo, khi, &w.balloon_current) {
            self.stats.balloon_current = val;
        } else if slice_is(v, klo, khi, &w.net_count) {
            self.net_count = val;
        } else if slice_is(v, klo, khi, &w.block_count) {
            self.block_count = val;
        } else {
            if is_indexed_key(v, klo, khi, &w.net, &w.rx_bytes, self.net_count) {
                self.stats.net_rx_bytes = self.stats.net_rx_bytes.wrapping_add(val);
            } else if is_indexed_key(v, klo, khi, &w.net, &w.tx_bytes, self.net_count) {
                self.stats.net_tx_bytes = self.stats.net_tx_bytes.wrapping_add(val);
            }
            if is_indexed_key(v, klo, khi, &w.block, &w.rd_bytes, self.block_count) {
                self.stats.blk_rd_bytes = self.stats.blk_rd_bytes.wrapping_add(val);
            } else if is_indexed_key(v, klo, khi, &w.block, &w.wr_bytes, self.block_count) {
                self.stats.blk_wr_bytes = self.stats.blk_wr_bytes.wrapping_add(val);
            }
        }
    }

    fn line(&mut self, w: &Words, v: &[char], lo: usize, hi: usize)
        requires
            w.wf(),
            lo <= hi <= v@.len(),
        ensures
            final(self)@ == scan_line(old(self)@, v@.subrange(lo as int, hi as int)),
    {
        let ghost line = v@.subrange(lo as int, hi as int);
        let plen = w.domain.len();
        if hi - lo > plen && has_at(v, lo, &w.domain) && v[hi - 1] == '\'' {
            proof {
                assert(line.subrange(0, plen as int) =~= v@.subrange(lo as int, lo + plen));
                assert(line.last() == v@[hi - 1]);
                assert(line.subrange(plen as int, line.len() - 1) =~= v@.subrange(lo + plen, hi - 1));
            }
            let name = string_from(v, lo + plen, hi - 1);
            let cur = self.current.take();
            match cur {
                Some(d) => {
                    self.result.insert(d, self.stats);
                },
                None => {},
            }
            self.current = Some(name);
            self.stats = DomStats::zero();
            self.net_count = 0;
            self.block_count = 0;
            return;
        }
        proof {
            if line.len() >= plen + 1 && line.subrange(0, plen as int) == w.domain@ {
                assert(line.subrange(0, plen as int) =~= v@.subrange(lo as int, lo + plen));
                assert(line.last() == v@[hi - 1]);
            }
            assert(domain_header(line) is None);
        }
        let (a, b) = trim_bounds(v, lo, hi);
        if a == b {
            return;
        }
        let e = find_char(v, a, b, '=');
        let ghost t = v@.subrange(a as int, b as int);
        if e == b {
            return;
        }
        proof {
            assert(t.subrange(0, e - a) =~= v@.subrange(a as int, e as int));
            assert(t.subrange(e - a + 1, t.len() as int) =~= v@.subrange(e + 1, b as int));
        }
        match parse_u64(v, e + 1, b) {
            None => {},
            Some(val) => {
                self.apply(w, v, a, e, val);
            },
        }
    }
}

proof fn lemma_scan_lines_step(st: Scan, s: Seq<char>, pos: int, i: int)
    requires
        0 <= pos < s.len(),
        pos <= i <= s.len(),
        i - pos == first_index_of(s.subrange(pos, s.len() as int), '\n'),
    ensures
        i < s.len() ==> scan_lines(st, text_lines(s.subrange(pos, s.len() as int))) == scan_lines(
            scan_line(st, strip_cr(s.subrange(pos, i))),
            text_lines(s.subrange(i + 1, s.len() as int)),
        ),
        i == s.len() ==> scan_lines(st, text_lines(s.subrange(pos, s.len() as int))) == scan_line(
            st,
            s.subrange(pos, s.len() as int),
        ),
{
    let r = s.subrange(pos, s.len() as int);
    let ls = text_lines(r);
    if i < s.len() {
        assert(r.subrange(0, i - pos) =~= s.subrange(pos, i));
        assert(r.subrange(i - pos + 1, r.len() as int) =~= s.subrange(i + 1, s.len() as int));
        assert(ls[0] == strip_cr(s.subrange(pos, i)));
        assert(ls.drop_first() =~= text_lines(s.subrange(i + 1, s.len() as int)));
    } else {
        assert(ls =~= seq![r]);
        assert(ls.drop_first().len() == 0);
        assert(scan_lines(scan_line(st, r), ls.drop_first()) == scan_line(st, r));
    }
}

/// Parses the output of `virsh domstats` into counters per domain.
///
/// Each `Domain: '<name>'` line starts a new block; within a block, lines
/// of the form `key=value` with a `u64` value set the known counters, and
/// the indexed `net.N.rx.bytes` / `net.N.tx.bytes` / `block.N.rd.bytes` /
/// `block.N.wr.bytes` counters with `N` below the block's `net.count` /
/// `block.count` are summed (wrapping at 64 bits). Other lines are skipped.
pub fn parse_domstats_output(output: &str) -> (r: NameMap<DomStats>)
    ensures
        r@ == domstats_of(output@),
{
    let w = Words::new();
    let v = chars_of(output);
    let mut st = ScanState {
        result: NameMap::new(),
        current: None,
        stats: DomStats::zero(),
        net_count: 0,
        block_count: 0,
    };
    let n = v.len();
    let mut pos: usize = 0;
    assert(v@.subrange(0, n as int) =~= v@);
    while pos < n
        invariant
            w.wf(),
            n == v@.len(),
            pos <= n,
            v@ == output@,
            scan_lines(st@, text_lines(v@.subrange(pos as int, n as int))) == scan_lines(
                scan_start(),
                text_lines(v@),
            ),
        decreases n - pos,
    {
        let i = find_char(v.as_slice(), pos, n, '\n');
        proof {
            lemma_scan_lines_step(st@, v@, pos as int, i as int);
        }
        if i < n {
            let mut end = i;
            if end > pos && v[end - 1] == '\r' {
                end = end - 1;
            }
            proof {
                let l = v@.subrange(pos as int, i as int);
                if i > pos && v@[i - 1] == '\r' {
                    assert(l.last() == v@[i - 1]);
                    assert(strip_cr(l) =~= v@.subrange(pos as int, end as int));
                } else {
                    assert(strip_cr(l) =~= v@.subrange(pos as int, end as int));
                }
            }
            st.line(&w, v.as_slice(), pos, end);
            pos = i + 1;
        } else {
            st.line(&w, v.as_slice(), pos, n);
            pos = n;
            proof {
                assert(text_lines(v@.subrange(n as int, n as int)).len() == 0);
            }
        }
    }
    proof {
        assert(text_lines(v@.subrange(pos as int, n as int)).len() == 0);
    }
    match st.current {
        Some(d) => {
            st.result.insert(d, st.stats);
        },
        None => {},
    }
    st.result
}

/// Whether the scan passes over `line`: it is no domain header, and once
/// trimmed it is empty, has no `=`, or has a value after its first `=` that
/// is not a `u64`.
pub open spec fn ignored_line(line: Seq<char>) -> bool {
    &&& domain_header(line) is None
    &&& {
        let t = trimmed(line);
        t.len() == 0 || match split_at_eq(t) {
            None => true,
            Some((_key, value)) => parse_u64_spec(value) is None,
        }
    }
}

/// Whether `more` is `lines` with ignored lines inserted anywhere.
pub open spec fn with_ignored_lines(more: Seq<Seq<char>>, lines: Seq<Seq<char>>) -> bool
    decreases more.len(),
{
    if more.len() == 0 {
        lines.len() == 0
    } else {
        ||| ignored_line(more[0]) && with_ignored_lines(more.drop_first(), lines)
        ||| lines.len() > 0 && more[0] == lines[0] && with_ignored_lines(more.drop_first(), lines.drop_first())
    }
}

proof fn lemma_scan_with_ignored(st: Scan, more: Seq<Seq<char>>, lines: Seq<Seq<char>>)
    requires
        with_ignored_lines(more, lines),
    ensures
        scan_lines(st, more) == scan_lines(st, lines),
    decreases more.len(),
{
    if more.len() > 0 {
        if ignored_line(more[0]) && with_ignored_lines(more.drop_first(), lines) {
            assert(scan_line(st, more[0]) == st);
            lemma_scan_with_ignored(st, more.drop_first(), lines);
        } else {
            lemma_scan_with_ignored(scan_line(st, more[0]), more.drop_first(), lines.drop_first());
        }
    }
}

/// Lines that the scan passes over change nothing: output whose lines are
/// those of `out` with ignored lines (blank lines, lines without `=`,
/// counters whose value is not a number) inserted anywhere describes the
/// same domains with the same counters.
pub proof fn ignored_lines_change_nothing(out: Seq<char>, more: Seq<char>)
    requires
        with_ignored_lines(text_lines(more), text_lines(out)),
    ensures
        domstats_of(more) == domstats_of(out),
{
    lemma_scan_with_ignored(scan_start(), text_lines(more), text_lines(out));
}

// ── Summed counters ─────────────────────────────────────────────────────────

/// The per-device byte counters that are summed over a domain's devices.
pub enum IndexedCounter {
    NetRx,
    NetTx,
    BlockRead,
    BlockWrite,
}

/// The text before a counter's device number.
pub open spec fn counter_head(c: IndexedCounter) -> Seq<char> {
    match c {
        IndexedCounter::NetRx | IndexedCounter::NetTx => "net."@,
        _ => "block."@,
    }
}

/// The text after a counter's device number.
pub open spec fn counter_tail(c: IndexedCounter) -> Seq<char> {
    match c {
        IndexedCounter::NetRx => ".rx.bytes"@,
        IndexedCounter::NetTx => ".tx.bytes"@,
        IndexedCounter::BlockRead => ".rd.bytes"@,
        IndexedCounter::BlockWrite => ".wr.bytes"@,
    }
}

/// The key that gives the number of a counter's devices.
pub open spec fn counter_count_key(c: IndexedCounter) -> Seq<char> {
    match c {
        IndexedCounter::NetRx | IndexedCounter::NetTx => "net.count"@,
        _ => "block.count"@,
    }
}

/// The key of counter `c` of device `n`, such as `net.1.tx.bytes`.
pub open spec fn device_key(c: IndexedCounter, n: nat) -> Seq<char> {
    counter_head(c) + decimal(n) + counter_tail(c)
}

/// The domain's total of counter `c`.
pub open spec fn counter_total(s: DomStats, c: IndexedCounter) -> u64 {
    match c {
        IndexedCounter::NetRx => s.net_rx_bytes,
        IndexedCounter::NetTx => s.net_tx_bytes,
        IndexedCounter::BlockRead => s.blk_rd_bytes,
        IndexedCounter::BlockWrite => s.blk_wr_bytes,
    }
}

/// `s` with the total of counter `c` set to `v`.
pub open spec fn with_counter(s: DomStats, c: IndexedCounter, v: u64) -> DomStats {
    match c {
        IndexedCounter::NetRx => DomStats { net_rx_bytes: v, ..s },
        IndexedCounter::NetTx => DomStats { net_tx_bytes: v, ..s },
        IndexedCounter::BlockRead => DomStats { blk_rd_bytes: v, ..s },
        IndexedCounter::BlockWrite => DomStats { blk_wr_bytes: v, ..s },
    }
}

/// The header line of domain `d`.
pub open spec fn header_line(d: Seq<char>) -> Seq<char> {
    "Domain: '"@ + d + seq!['\'']
}

/// The line `key=v`.
pub open spec fn key_line(key: Seq<char>, v: u64) -> Seq<char> {
    key + seq!['='] + decimal(v as nat)
}

/// The lines giving counter `c` of devices 0, 1, ... the values `vs`.
pub open spec fn device_lines(c: IndexedCounter, vs: Seq<u64>) -> Seq<Seq<char>> {
    Seq::new(vs.len(), |n: int| key_line(device_key(c, n as nat), vs[n]))
}

/// The exact sum of `vs`.
pub open spec fn seq_sum(vs: Seq<u64>) -> nat
    decreases vs.len(),
{
    if vs.len() == 0 {
        0
    } else {
        seq_sum(vs.drop_last()) + vs.last() as nat
    }
}

/// The number of devices counter `c` is read for in scan `st`.
pub open spec fn device_count(st: Scan, c: IndexedCounter) -> u64 {
    match c {
        IndexedCounter::NetRx | IndexedCounter::NetTx => st.net_count,
        _ => st.block_count,
    }
}

proof fn lemma_scan_lines_append(st: Scan, a: Seq<Seq<char>>, b: Seq<Seq<char>>)
    ensures
        scan_lines(st, a + b) == scan_lines(scan_lines(st, a), b),
    decreases a.len(),
{
    if a.len() == 0 {
        assert(a + b =~= b);
    } else {
        assert((a + b)[0] == a[0]);
        assert((a + b).drop_first() =~= a.drop_first() + b);
        lemma_scan_lines_append(scan_line(st, a[0]), a.drop_first(), b);
    }
}

proof fn lemma_header_line(d: Seq<char>)
    ensures
        domain_header(header_line(d)) == Some(d),
{
    let p = "Domain: '"@;
    let l = header_line(d);
    assert(l.subrange(0, p.len() as int) =~= p);
    assert(l.subrange(p.len() as int, l.len() - 1) =~= d);
}

/// What a well-formed `key=v` line does to the scan: `key` has no `=`, and
/// neither starts with a `D` nor with whitespace.
proof fn lemma_key_line(st: Scan, key: Seq<char>, v: u64)
    requires
        key.len() > 0,
        key[0] != 'D',
        !is_white(key[0]),
        forall|j: int| 0 <= j < key.len() ==> #[trigger] key[j] != '=',
    ensures
        scan_line(st, key_line(key, v)) == apply_counter(st, key, v),
{
    let l = key_line(key, v);
    let p = "Domain: '"@;
    reveal_strlit("Domain: '");
    lemma_parse_decimal(v);
    let dv = decimal(v as nat);
    assert(l[0] == key[0]);
    assert(domain_header(l) is None) by {
        if l.len() >= p.len() + 1 && l.subrange(0, p.len() as int) == p {
            assert(l.subrange(0, p.len() as int)[0] == l[0]);
        }
    }
    assert(l[l.len() - 1] == dv[dv.len() - 1]);
    assert(crate::text::is_digit(dv[dv.len() - 1]));
    lemma_trimmed_plain(l);
    assert forall|j: int| 0 <= j < key.len() implies #[trigger] l[j] != '=' by {
        assert(l[j] == key[j]);
    }
    assert(l[key.len() as int] == '=');
    lemma_first_index_exact(l, '=', key.len() as int);
    assert(l.subrange(0, key.len() as int) =~= key);
    assert(l.subrange(key.len() + 1int, l.len() as int) =~= dv);
}

proof fn lemma_differs_at(a: Seq<char>, b: Seq<char>, i: int)
    requires
        0 <= i < a.len(),
        i < b.len(),
        a[i] != b[i],
    ensures
        a != b,
{
}

proof fn reveal_counter_keys()
    ensures
        "state.state"@ =~= seq!['s', 't', 'a', 't', 'e', '.', 's', 't', 'a', 't', 'e'],
        "cpu.time"@ =~= seq!['c', 'p', 'u', '.', 't', 'i', 'm', 'e'],
        "vcpu.current"@ =~= seq!['v', 'c', 'p', 'u', '.', 'c', 'u', 'r', 'r', 'e', 'n', 't'],
        "balloon.rss"@ =~= seq!['b', 'a', 'l', 'l', 'o', 'o', 'n', '.', 'r', 's', 's'],
        "balloon.maximum"@ =~= seq!['b', 'a', 'l', 'l', 'o', 'o', 'n', '.', 'm', 'a', 'x', 'i', 'm', 'u', 'm'],
        "balloon.current"@ =~= seq!['b', 'a', 'l', 'l', 'o', 'o', 'n', '.', 'c', 'u', 'r', 'r', 'e', 'n', 't'],
        "net.count"@ =~= seq!['n', 'e', 't', '.', 'c', 'o', 'u', 'n', 't'],
        "block.count"@ =~= seq!['b', 'l', 'o', 'c', 'k', '.', 'c', 'o', 'u', 'n', 't'],
        "net."@ =~= seq!['n', 'e', 't', '.'],
        "block."@ =~= seq!['b', 'l', 'o', 'c', 'k', '.'],
        ".rx.bytes"@ =~= seq!['.', 'r', 'x', '.', 'b', 'y', 't', 'e', 's'],
        ".tx.bytes"@ =~= seq!['.', 't', 'x', '.', 'b', 'y', 't', 'e', 's'],
        ".rd.bytes"@ =~= seq!['.', 'r', 'd', '.', 'b', 'y', 't', 'e', 's'],
        ".wr.bytes"@ =~= seq!['.', 'w', 'r', '.', 'b', 'y', 't', 'e', 's'],
{
    reveal_strlit("state.state");
    reveal_strlit("cpu.time");
    reveal_strlit("vcpu.current");
    reveal_strlit("balloon.rss");
    reveal_strlit("balloon.maximum");
    reveal_strlit("balloon.current");
    reveal_strlit("net.count");
    reveal_strlit("block.count");
    reveal_strlit("net.");
    reveal_strlit("block.");
    reveal_strlit(".rx.bytes");
    reveal_strlit(".tx.bytes");
    reveal_strlit(".rd.bytes");
    reveal_strlit(".wr.bytes");
}

/// The count line of counter `c` sets the number of its devices.
proof fn lemma_count_line(st: Scan, c: IndexedCounter, k: u64)
    ensures
        scan_line(st, key_line(counter_count_key(c), k)) == (match c {
            IndexedCounter::NetRx | IndexedCounter::NetTx => Scan { net_count: k, ..st },
            _ => Scan { block_count: k, ..st },
        }),
{
    reveal_counter_keys();
    let key = counter_count_key(c);
    lemma_key_line(st, key, k);
    match c {
        IndexedCounter::NetRx | IndexedCounter::NetTx => {},
        _ => {
            lemma_differs_at(key, "state.state"@, 0);
            lemma_differs_at(key, "balloon.rss"@, 1);
        },
    }
}

/// The value that a device line adds to its counter.
pub open spec fn add_to_counter(s: DomStats, c: IndexedCounter, v: u64) -> DomStats {
    match c {
        IndexedCounter::NetRx => DomStats { net_rx_bytes: wrap_add(s.net_rx_bytes, v), ..s },
        IndexedCounter::NetTx => DomStats { net_tx_bytes: wrap_add(s.net_tx_bytes, v), ..s },
        IndexedCounter::BlockRead => DomStats { blk_rd_bytes: wrap_add(s.blk_rd_bytes, v), ..s },
        IndexedCounter::BlockWrite => DomStats { blk_wr_bytes: wrap_add(s.blk_wr_bytes, v), ..s },
    }
}

proof fn lemma_device_key_shape(c: IndexedCounter, n: nat)
    ensures
        ({
            let key = device_key(c, n);
            &&& key.len() == counter_head(c).len() + decimal(n).len() + 9
            &&& key[0] == counter_head(c)[0]
            &&& key[1] == counter_head(c)[1]
            &&& crate::text::is_digit(key[counter_head(c).len() as int])
            &&& key[key.len() - 8] == counter_tail(c)[1]
            &&& forall|j: int| 0 <= j < key.len() ==> #[trigger] key[j] != '='
        }),
{
    reveal_counter_keys();
    lemma_decimal_all_digits(n);
    let h = counter_head(c);
    let dn = decimal(n);
    let t = counter_tail(c);
    let key = device_key(c, n);
    assert(key == h + dn + t);
    assert(key[h.len() as int] == dn[0]);
    assert(key[key.len() - 8] == t[1]);
    assert forall|j: int| 0 <= j < key.len() implies #[trigger] key[j] != '=' by {
        if j < h.len() {
            assert(key[j] == h[j]);
        } else if j < h.len() + dn.len() {
            assert(key[j] == dn[j - h.len()]);
            assert(crate::text::is_digit(dn[j - h.len()]));
        } else {
            assert(key[j] == t[j - h.len() - dn.len()]);
        }
    }
}

/// A device key of one counter is not a device key of another.
proof fn lemma_device_keys_differ(c: IndexedCounter, n: nat, c2: IndexedCounter, m: nat)
    requires
        c != c2,
    ensures
        device_key(c, n) != device_key(c2, m),
{
    reveal_counter_keys();
    lemma_device_key_shape(c, n);
    lemma_device_key_shape(c2, m);
    let a = device_key(c, n);
    let b = device_key(c2, m);
    if counter_head(c) != counter_head(c2) {
        lemma_differs_at(a, b, 0);
    } else if a.len() == b.len() {
        lemma_differs_at(a, b, a.len() - 8);
    }
}

/// A device line below the device count adds its value to its counter's
/// total and changes nothing else.
proof fn lemma_device_key_injective(c: IndexedCounter, n: nat, m: nat)
    requires
        device_key(c, n) == device_key(c, m),
    ensures
        n == m,
{
    let h = counter_head(c);
    let t = counter_tail(c);
    let a = device_key(c, n);
    assert(a.len() == h.len() + decimal(n).len() + t.len());
    assert(a.len() == h.len() + decimal(m).len() + t.len());
    assert(a.subrange(h.len() as int, (h.len() + decimal(n).len()) as int) =~= decimal(n));
    assert(device_key(c, m).subrange(h.len() as int, (h.len() + decimal(m).len()) as int) =~= decimal(m));
    lemma_decimal_injective(n, m);
}

proof fn lemma_device_line(st: Scan, c: IndexedCounter, n: nat, v: u64)
    ensures
        n < device_count(st, c) ==> scan_line(st, key_line(device_key(c, n), v)) == (Scan {
            stats: add_to_counter(st.stats, c, v),
            ..st
        }),
        n >= device_count(st, c) ==> scan_line(st, key_line(device_key(c, n), v)) == st,
{
    reveal_counter_keys();
    let key = device_key(c, n);
    lemma_device_key_shape(c, n);
    lemma_key_line(st, key, v);
    let hl = counter_head(c).len() as int;
    // Not one of the named keys.
    lemma_differs_at(key, "state.state"@, 0);
    lemma_differs_at(key, "cpu.time"@, 0);
    lemma_differs_at(key, "vcpu.current"@, 0);
    lemma_differs_at(key, "balloon.rss"@, 1);
    lemma_differs_at(key, "balloon.maximum"@, 1);
    lemma_differs_at(key, "balloon.current"@, 1);
    if counter_head(c) == "net."@ {
        lemma_differs_at(key, "net.count"@, hl);
        lemma_differs_at(key, "block.count"@, 0);
    } else {
        lemma_differs_at(key, "net.count"@, 0);
        lemma_differs_at(key, "block.count"@, hl);
    }
    // Which indexed key it is.
    assert forall|m: nat, c2: IndexedCounter| c2 != c implies #[trigger] device_key(c2, m) != key by {
        lemma_device_keys_differ(c, n, c2, m);
    }
    assert(forall|m: nat| #[trigger] device_key(IndexedCounter::NetRx, m) == "net."@ + decimal(m) + ".rx.bytes"@);
    assert(forall|m: nat| #[trigger] device_key(IndexedCounter::NetTx, m) == "net."@ + decimal(m) + ".tx.bytes"@);
    assert(forall|m: nat| #[trigger] device_key(IndexedCounter::BlockRead, m) == "block."@ + decimal(m) + ".rd.bytes"@);
    assert(forall|m: nat| #[trigger] device_key(IndexedCounter::BlockWrite, m) == "block."@ + decimal(m) + ".wr.bytes"@);
    match c {
        IndexedCounter::NetRx => {
            assert(indexed_key(key, "net."@, ".rx.bytes"@, st.net_count) == (n < st.net_count)) by {
                if n < st.net_count {
                    assert(key == "net."@ + decimal(n) + ".rx.bytes"@);
                } else if indexed_key(key, "net."@, ".rx.bytes"@, st.net_count) {
                    let m = choose|m: nat| m < st.net_count && key == "net."@ + #[trigger] decimal(m) + ".rx.bytes"@;
                    assert(device_key(IndexedCounter::NetRx, m) == key);
                    lemma_device_key_injective(c, m, n);
                }
            }
            assert(!indexed_key(key, "block."@, ".rd.bytes"@, st.block_count)) by {
                if indexed_key(key, "block."@, ".rd.bytes"@, st.block_count) {
                    let m = choose|m: nat| m < st.block_count && key == "block."@ + #[trigger] decimal(m) + ".rd.bytes"@;
                    assert(device_key(IndexedCounter::BlockRead, m) == key);
                }
            }
            assert(!indexed_key(key, "block."@, ".wr.bytes"@, st.block_count)) by {
                if indexed_key(key, "block."@, ".wr.bytes"@, st.block_count) {
                    let m = choose|m: nat| m < st.block_count && key == "block."@ + #[trigger] decimal(m) + ".wr.bytes"@;
                    assert(device_key(IndexedCounter::BlockWrite, m) == key);
                }
            }
        },
        IndexedCounter::NetTx => {
            assert(!indexed_key(key, "net."@, ".rx.bytes"@, st.net_count)) by {
                if indexed_key(key, "net."@, ".rx.bytes"@, st.net_count) {
                    let m = choose|m: nat| m < st.net_count && key == "net."@ + #[trigger] decimal(m) + ".rx.bytes"@;
                    assert(device_key(IndexedCounter::NetRx, m) == key);
                }
            }
            assert(indexed_key(key, "net."@, ".tx.bytes"@, st.net_count) == (n < st.net_count)) by {
                if n < st.net_count {
                    assert(key == "net."@ + decimal(n) + ".tx.bytes"@);
                } else if indexed_key(key, "net."@, ".tx.bytes"@, st.net_count) {
                    let m = choose|m: nat| m < st.net_count && key == "net."@ + #[trigger] decimal(m) + ".tx.bytes"@;
                    assert(device_key(IndexedCounter::NetTx, m) == key);
                    lemma_device_key_injective(c, m, n);
                }
            }
            assert(!indexed_key(key, "block."@, ".rd.bytes"@, st.block_count)) by {
                if indexed_key(key, "block."@, ".rd.bytes"@, st.block_count) {
                    let m = choose|m: nat| m < st.block_count && key == "block."@ + #[trigger] decimal(m) + ".rd.bytes"@;
                    assert(device_key(IndexedCounter::BlockRead, m) == key);
                }
            }
            assert(!indexed_key(key, "block."@, ".wr.bytes"@, st.block_count)) by {
                if indexed_key(key, "block."@, ".wr.bytes"@, st.block_count) {
                    let m = choose|m: nat| m < st.block_count && key == "block."@ + #[trigger] decimal(m) + ".wr.bytes"@;
                    assert(device_key(IndexedCounter::BlockWrite, m) == key);
                }
            }
        },
        IndexedCounter::BlockRead => {
            assert(!indexed_key(key, "net."@, ".rx.bytes"@, st.net_count)) by {
                if indexed_key(key, "net."@, ".rx.bytes"@, st.net_count) {
                    let m = choose|m: nat| m < st.net_count && key == "net."@ + #[trigger] decimal(m) + ".rx.bytes"@;
                    assert(device_key(IndexedCounter::NetRx, m) == key);
                }
            }
            assert(!indexed_key(key, "net."@, ".tx.bytes"@, st.net_count)) by {
                if indexed_key(key, "net."@, ".tx.bytes"@, st.net_count) {
                    let m = choose|m: nat| m < st.net_count && key == "net."@ + #[trigger] decimal(m) + ".tx.bytes"@;
                    assert(device_key(IndexedCounter::NetTx, m) == key);
                }
            }
            assert(indexed_key(key, "block."@, ".rd.bytes"@, st.block_count) == (n < st.block_count)) by {
                if n < st.block_count {
                    assert(key == "block."@ + decimal(n) + ".rd.bytes"@);
                } else if indexed_key(key, "block."@, ".rd.bytes"@, st.block_count) {
                    let m = choose|m: nat| m < st.block_count && key == "block."@ + #[trigger] decimal(m) + ".rd.bytes"@;
                    assert(device_key(IndexedCounter::BlockRead, m) == key);
                    lemma_device_key_injective(c, m, n);
                }
            }
        },
        IndexedCounter::BlockWrite => {
            assert(!indexed_key(key, "net."@, ".rx.bytes"@, st.net_count)) by {
                if indexed_key(key, "net."@, ".rx.bytes"@, st.net_count) {
                    let m = choose|m: nat| m < st.net_count && key == "net."@ + #[trigger] decimal(m) + ".rx.bytes"@;
                    assert(device_key(IndexedCounter::NetRx, m) == key);
                }
            }
            assert(!indexed_key(key, "net."@, ".tx.bytes"@, st.net_count)) by {
                if indexed_key(key, "net."@, ".tx.bytes"@, st.net_count) {
                    let m = choose|m: nat| m < st.net_count && key == "net."@ + #[trigger] decimal(m) + ".tx.bytes"@;
                    assert(device_key(IndexedCounter::NetTx, m) == key);
                }
            }
            assert(!indexed_key(key, "block."@, ".rd.bytes"@, st.block_count)) by {
                if indexed_key(key, "block."@, ".rd.bytes"@, st.block_count) {
                    let m = choose|m: nat| m < st.block_count && key == "block."@ + #[trigger] decimal(m) + ".rd.bytes"@;
                    assert(device_key(IndexedCounter::BlockRead, m) == key);
                }
            }
            assert(indexed_key(key, "block."@, ".wr.bytes"@, st.block_count) == (n < st.block_count)) by {
                if n < st.block_count {
                    assert(key == "block."@ + decimal(n) + ".wr.bytes"@);
                } else if indexed_key(key, "block."@, ".wr.bytes"@, st.block_count) {
                    let m = choose|m: nat| m < st.block_count && key == "block."@ + #[trigger] decimal(m) + ".wr.bytes"@;
                    assert(device_key(IndexedCounter::BlockWrite, m) == key);
                    lemma_device_key_injective(c, m, n);
                }
            }
        },
    }
}

proof fn lemma_wrap_add_wrapped(x: nat, v: u64)
    ensures
        wrap_add(wrapped(x), v) == wrapped(x + v as nat),
{
    lemma_wrapped_step(x, v);
}

proof fn lemma_device_lines(st: Scan, c: IndexedCounter, vs: Seq<u64>, m: nat)
    requires
        m <= vs.len(),
    ensures
        ({
            let r = scan_lines(st, device_lines(c, vs.take(m as int)));
            let used = if m < device_count(st, c) { m as int } else { device_count(st, c) as int };
            &&& r.current == st.current
            &&& r.result == st.result
            &&& device_count(r, c) == device_count(st, c)
            &&& r.net_count == st.net_count
            &&& r.block_count == st.block_count
            &&& r.stats == with_counter(st.stats, c, wrapped(counter_total(st.stats, c) as nat + seq_sum(vs.take(used))))
        }),
    decreases m,
{
    if m == 0 {
        assert(device_lines(c, vs.take(0)) =~= Seq::<Seq<char>>::empty());
        assert(vs.take(0) =~= Seq::<u64>::empty());
        vstd::arithmetic::div_mod::lemma_small_mod(counter_total(st.stats, c) as nat, 0x1_0000_0000_0000_0000nat);
    } else {
        let k = (m - 1) as nat;
        lemma_device_lines(st, c, vs, k);
        let before = device_lines(c, vs.take(k as int));
        let line = key_line(device_key(c, k), vs[k as int]);
        assert(device_lines(c, vs.take(m as int)) =~= before + seq![line]);
        lemma_scan_lines_append(st, before, seq![line]);
        let r = scan_lines(st, before);
        assert(scan_lines(r, seq![line]) == scan_line(r, line)) by {
            assert(seq![line].drop_first() =~= Seq::<Seq<char>>::empty());
            assert(seq![line][0] == line);
            assert(scan_lines(scan_line(r, line), Seq::<Seq<char>>::empty()) == scan_line(r, line));
        }
        lemma_device_line(r, c, k, vs[k as int]);
        if k < device_count(st, c) {
            assert(vs.take(m as int).drop_last() =~= vs.take(k as int));
            lemma_wrap_add_wrapped(counter_total(st.stats, c) as nat + seq_sum(vs.take(k as int)), vs[k as int]);
        }
    }
}

/// A domain's byte counters are summed over its devices: in output that
/// lists domain `d`, a device count `k` for counter `c`, and device lines
/// giving `c` for devices 0, 1, ... (`net.0.tx.bytes`, `net.1.tx.bytes`,
/// ... for the bytes sent), the domain's total of `c` is the sum of the
/// values of the devices below `k`, wrapping at 64 bits: no device's value
/// replaces another's, devices at or past the count are left out, and
/// every other counter of the domain stays 0.
pub proof fn device_counters_are_summed(out: Seq<char>, d: Seq<char>, c: IndexedCounter, k: u64, vs: Seq<u64>)
    requires
        text_lines(out) == seq![header_line(d), key_line(counter_count_key(c), k)] + device_lines(c, vs),
    ensures
        ({
            let used = if (k as int) < vs.len() { k as int } else { vs.len() as int };
            &&& domstats_of(out).contains_key(d)
            &&& counter_total(domstats_of(out)[d], c) == wrapped(seq_sum(vs.take(used)))
            &&& domstats_of(out)[d] == with_counter(DomStats::spec_zero(), c, wrapped(seq_sum(vs.take(used))))
        }),
{
    let h = header_line(d);
    let cl = key_line(counter_count_key(c), k);
    lemma_scan_lines_append(scan_start(), seq![h, cl], device_lines(c, vs));
    lemma_header_line(d);
    let st1 = scan_line(scan_start(), h);
    let st2 = scan_line(st1, cl);
    assert(scan_lines(scan_start(), seq![h, cl]) == st2) by {
        assert(seq![h, cl].drop_first() =~= seq![cl]);
        assert(seq![cl].drop_first() =~= Seq::<Seq<char>>::empty());
        assert(seq![h, cl][0] == h);
        assert(seq![cl][0] == cl);
        assert(scan_lines(st2, Seq::<Seq<char>>::empty()) == st2);
        assert(scan_lines(st1, seq![cl]) == scan_lines(st2, Seq::<Seq<char>>::empty()));
    }
    lemma_count_line(st1, c, k);
    assert(vs.take(vs.len() as int) =~= vs);
    lemma_device_lines(st2, c, vs, vs.len());
}

/// The counters given by one `key=value` line each.
pub enum NamedCounter {
    State,
    CpuTime,
    VcpuCurrent,
    BalloonRss,
    BalloonMaximum,
    BalloonCurrent,
}

/// The key of a named counter.
pub open spec fn named_key(c: NamedCounter) -> Seq<char> {
    match c {
        NamedCounter::State => "state.state"@,
        NamedCounter::CpuTime => "cpu.time"@,
        NamedCounter::VcpuCurrent => "vcpu.current"@,
        NamedCounter::BalloonRss => "balloon.rss"@,
        NamedCounter::BalloonMaximum => "balloon.maximum"@,
        NamedCounter::BalloonCurrent => "balloon.current"@,
    }
}

/// `s` with named counter `c` read as `v`: the state and the vCPU count
/// keep the low 32 bits, the balloon RSS becomes present.
pub open spec fn with_named(s: DomStats, c: NamedCounter, v: u64) -> DomStats {
    match c {
        NamedCounter::State => DomStats { state: v as u32, ..s },
        NamedCounter::CpuTime => DomStats { cpu_time: v, ..s },
        NamedCounter::VcpuCurrent => DomStats { vcpu_current: v as u32, ..s },
        NamedCounter::BalloonRss => DomStats { balloon_rss: Some(v), ..s },
        NamedCounter::BalloonMaximum => DomStats { balloon_maximum: v, ..s },
        NamedCounter::BalloonCurrent => DomStats { balloon_current: v, ..s },
    }
}

proof fn lemma_named_line(st: Scan, c: NamedCounter, v: u64)
    ensures
        scan_line(st, key_line(named_key(c), v)) == (Scan { stats: with_named(st.stats, c, v), ..st }),
{
    reveal_counter_keys();
    let key = named_key(c);
    lemma_key_line(st, key, v);
    lemma_differs_at(key, "net.count"@, 0);
    lemma_differs_at(key, "block.count"@, 1);
    match c {
        NamedCounter::State => {},
        NamedCounter::CpuTime => {},
        NamedCounter::VcpuCurrent => {},
        NamedCounter::BalloonRss => {
            lemma_differs_at(key, "state.state"@, 0);
        },
        NamedCounter::BalloonMaximum => {},
        NamedCounter::BalloonCurrent => {
            lemma_differs_at(key, "balloon.maximum"@, 8);
        },
    }
}

/// The lines giving named counter `c` the values `vs` in turn.
pub open spec fn named_lines(c: NamedCounter, vs: Seq<u64>) -> Seq<Seq<char>> {
    Seq::new(vs.len(), |n: int| key_line(named_key(c), vs[n]))
}

proof fn lemma_named_lines(st: Scan, c: NamedCounter, vs: Seq<u64>, m: nat)
    requires
        1 <= m <= vs.len(),
    ensures
        scan_lines(st, named_lines(c, vs.take(m as int))) == (Scan { stats: with_named(st.stats, c, vs[m - 1]), ..st }),
    decreases m,
{
    let k = (m - 1) as nat;
    let line = key_line(named_key(c), vs[k as int]);
    let before = named_lines(c, vs.take(k as int));
    assert(named_lines(c, vs.take(m as int)) =~= before + seq![line]);
    lemma_scan_lines_append(st, before, seq![line]);
    let r = scan_lines(st, before);
    assert(scan_lines(r, seq![line]) == scan_line(r, line)) by {
        assert(seq![line].drop_first() =~= Seq::<Seq<char>>::empty());
        assert(seq![line][0] == line);
        assert(scan_lines(scan_line(r, line), Seq::<Seq<char>>::empty()) == scan_line(r, line));
    }
    if k == 0 {
        assert(before =~= Seq::<Seq<char>>::empty());
    } else {
        lemma_named_lines(st, c, vs, k);
    }
    lemma_named_line(r, c, vs[k as int]);
}

/// Each named key sets its own counter, and a later line for the same key
/// replaces an earlier one: in output that lists domain `d` and then lines
/// giving named counter `c` the values `vs` in turn, the domain's counters
/// are all zero but `c`, which holds the last value (the state and vCPU
/// count its low 32 bits; the balloon RSS present).
pub proof fn named_counters_take_the_last_value(out: Seq<char>, d: Seq<char>, c: NamedCounter, vs: Seq<u64>)
    requires
        vs.len() >= 1,
        text_lines(out) == seq![header_line(d)] + named_lines(c, vs),
    ensures
        domstats_of(out).contains_key(d),
        domstats_of(out)[d] == with_named(DomStats::spec_zero(), c, vs.last()),
{
    let h = header_line(d);
    lemma_scan_lines_append(scan_start(), seq![h], named_lines(c, vs));
    lemma_header_line(d);
    let st1 = scan_line(scan_start(), h);
    assert(scan_lines(scan_start(), seq![h]) == st1) by {
        assert(seq![h].drop_first() =~= Seq::<Seq<char>>::empty());
        assert(seq![h][0] == h);
        assert(scan_lines(st1, Seq::<Seq<char>>::empty()) == st1);
    }
    assert(vs.take(vs.len() as int) =~= vs);
    lemma_named_lines(st1, c, vs, vs.len());
}

} // verus!
