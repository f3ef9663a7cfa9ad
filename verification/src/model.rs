//! The data model: per-VM snapshots, environments aggregated from them, and
//! the human-readable uptime text.

use vstd::prelude::*;

use crate::text::{decimal, push_decimal, push_str, str_is};

verus! {

/// Status of a Vagrant environment, derived from its VMs.
#[derive(Debug, Clone, Copy, PartialEq, Eq, Structural)]
pub enum EnvironmentStatus {
    /// All VMs running.
    Running,
    /// Some VMs running, some stopped.
    Partial,
    /// All VMs stopped / shutoff.
    Stopped,
    /// At least one VM in saved/paused state.
    Saved,
    /// At least one VM in crashed state.
    Crashed,
}

/// Per-VM snapshot of stats at a point in time.
#[derive(Debug, Clone)]
pub struct VmSnapshot {
    pub name: String,
    pub domain_name: String,
    pub provider: String,
    pub box_name: String,
    pub state: String,
    pub running: bool,
    /// CPU usage in billionths of a percent of one CPU (12.5% is
    /// 12_500_000_000), rounded down.
    pub cpu_percent_e9: u64,
    pub cpus: u32,
    pub mem_bytes: u64,
    pub mem_limit: u64,
    pub net_rx: u64,
    pub net_tx: u64,
    pub blk_read: u64,
    pub blk_write: u64,
    /// Real VM start time as Unix epoch seconds (from the libvirt PID file).
    /// None if the PID file is not readable or the VM is not running.
    pub started_at: Option<u64>,
}

/// A snapshot as plain values.
pub struct VmSnapshotView {
    pub name: Seq<char>,
    pub domain_name: Seq<char>,
    pub provider: Seq<char>,
    pub box_name: Seq<char>,
    pub state: Seq<char>,
    pub running: bool,
    pub cpu_percent_e9: u64,
    pub cpus: u32,
    pub mem_bytes: u64,
    pub mem_limit: u64,
    pub net_rx: u64,
    pub net_tx: u64,
    pub blk_read: u64,
    pub blk_write: u64,
    pub started_at: Option<u64>,
}

impl View for VmSnapshot {
    type V = VmSnapshotView;

    open spec fn view(&self) -> VmSnapshotView {
        VmSnapshotView {
            name: self.name@,
            domain_name: self.domain_name@,
            provider: self.provider@,
            box_name: self.box_name@,
            state: self.state@,
            running: self.running,
            cpu_percent_e9: self.cpu_percent_e9,
            cpus: self.cpus,
            mem_bytes: self.mem_bytes,
            mem_limit: self.mem_limit,
            net_rx: self.net_rx,
            net_tx: self.net_tx,
            blk_read: self.blk_read,
            blk_write: self.blk_write,
            started_at: self.started_at,
        }
    }
}

/// Aggregated view of a Vagrant environment (one Vagrantfile).
#[derive(Debug, Clone)]
pub struct VagrantEnvironment {
    pub name: String,
    pub path: String,
    pub provider: String,
    pub vms: Vec<VmSnapshot>,
    pub status: EnvironmentStatus,
    /// Sum of the VMs' CPU usage, billionths of a percent (saturating).
    pub total_cpu_e9: u64,
    pub total_mem: u64,
    pub mem_limit: u64,
    pub total_net_rx: u64,
    pub total_net_tx: u64,
    pub total_blk_read: u64,
    pub total_blk_write: u64,
    /// Oldest running VM's start time (Unix epoch seconds): the TIME-UP column.
    pub oldest_started_at: Option<u64>,
    /// Most recent state change observed, as a reading of the process's
    /// monotonic clock in nanoseconds: the LAST-CHG column.
    pub newest_started_at: Option<u64>,
}

/// An environment as plain values.
pub struct EnvironmentView {
    pub name: Seq<char>,
    pub path: Seq<char>,
    pub provider: Seq<char>,
    pub vms: Seq<VmSnapshotView>,
    pub status: EnvironmentStatus,
    pub total_cpu_e9: u64,
    pub total_mem: u64,
    pub mem_limit: u64,
    pub total_net_rx: u64,
    pub total_net_tx: u64,
    pub total_blk_read: u64,
    pub total_blk_write: u64,
    pub oldest_started_at: Option<u64>,
    pub newest_started_at: Option<u64>,
}

/// The plain values of a list of snapshots.
pub open spec fn snapshots_view(vms: Seq<VmSnapshot>) -> Seq<VmSnapshotView> {
    vms.map_values(|v: VmSnapshot| v@)
}

impl View for VagrantEnvironment {
    type V = EnvironmentView;

    open spec fn view(&self) -> EnvironmentView {
        EnvironmentView {
            name: self.name@,
            path: self.path@,
            provider: self.provider@,
            vms: snapshots_view(self.vms@),
            status: self.status,
            total_cpu_e9: self.total_cpu_e9,
            total_mem: self.total_mem,
            mem_limit: self.mem_limit,
            total_net_rx: self.total_net_rx,
            total_net_tx: self.total_net_tx,
            total_blk_read: self.total_blk_read,
            total_blk_write: self.total_blk_write,
            oldest_started_at: self.oldest_started_at,
            newest_started_at: self.newest_started_at,
        }
    }
}

// ── Aggregation ─────────────────────────────────────────────────────────────

/// Which per-VM counter a sum runs over.
pub enum Counter {
    Cpu,
    Mem,
    MemLimit,
    NetRx,
    NetTx,
    BlkRead,
    BlkWrite,
}

/// The value of counter `c` of `v`.
pub open spec fn counter_of(v: VmSnapshotView, c: Counter) -> u64 {
    match c {
        Counter::Cpu => v.cpu_percent_e9,
        Counter::Mem => v.mem_bytes,
        Counter::MemLimit => v.mem_limit,
        Counter::NetRx => v.net_rx,
        Counter::NetTx => v.net_tx,
        Counter::BlkRead => v.blk_read,
        Counter::BlkWrite => v.blk_write,
    }
}

/// The exact sum of counter `c` over `vms`.
pub open spec fn total(vms: Seq<VmSnapshotView>, c: Counter) -> nat
    decreases vms.len(),
{
    if vms.len() == 0 {
        0
    } else {
        total(vms.drop_last(), c) + counter_of(vms.last(), c) as nat
    }
}

/// A sum reduced to 64 bits, as `u64` addition wraps.
pub open spec fn wrapped(n: nat) -> u64 {
    (n % 0x1_0000_0000_0000_0000) as u64
}

/// A sum capped at `u64::MAX`.
pub open spec fn capped(n: nat) -> u64 {
    if n > u64::MAX {
        u64::MAX
    } else {
        n as u64
    }
}

/// Whether `o` is the earliest start time among the running VMs that have one.
pub open spec fn is_oldest_start(vms: Seq<VmSnapshotView>, o: Option<u64>) -> bool {
    match o {
        None => forall|i: int| 0 <= i < vms.len() ==> !(#[trigger] vms[i].running && vms[i].started_at is Some),
        Some(m) => {
            &&& exists|i: int| 0 <= i < vms.len() && #[trigger] vms[i].running && vms[i].started_at == Some(m)
            &&& forall|i: int| 0 <= i < vms.len() && #[trigger] vms[i].running && vms[i].started_at is Some
                ==> m <= vms[i].started_at->0
        },
    }
}

/// The status of an environment with VMs `vms`.
pub open spec fn status_of(vms: Seq<VmSnapshotView>) -> EnvironmentStatus {
    if vms.len() == 0 {
        EnvironmentStatus::Stopped
    } else if exists|i: int| 0 <= i < vms.len() && #[trigger] vms[i].state == "crashed"@ {
        EnvironmentStatus::Crashed
    } else if exists|i: int| 0 <= i < vms.len() && (#[trigger] vms[i].state == "saved"@ || vms[i].state == "paused"@) {
        EnvironmentStatus::Saved
    } else if forall|i: int| 0 <= i < vms.len() ==> #[trigger] vms[i].running {
        EnvironmentStatus::Running
    } else if exists|i: int| 0 <= i < vms.len() && #[trigger] vms[i].running {
        EnvironmentStatus::Partial
    } else {
        EnvironmentStatus::Stopped
    }
}

/// The environment that `aggregate` builds.
pub open spec fn aggregate_spec(
    name: Seq<char>,
    path: Seq<char>,
    provider: Seq<char>,
    vms: Seq<VmSnapshotView>,
    e: EnvironmentView,
) -> bool {
    &&& e.name == name
    &&& e.path == path
    &&& e.provider == provider
    &&& e.vms == vms
    &&& e.status == status_of(vms)
    &&& e.total_cpu_e9 == capped(total(vms, Counter::Cpu))
    &&& e.total_mem == wrapped(total(vms, Counter::Mem))
    &&& e.mem_limit == wrapped(total(vms, Counter::MemLimit))
    &&& e.total_net_rx == wrapped(total(vms, Counter::NetRx))
    &&& e.total_net_tx == wrapped(total(vms, Counter::NetTx))
    &&& e.total_blk_read == wrapped(total(vms, Counter::BlkRead))
    &&& e.total_blk_write == wrapped(total(vms, Counter::BlkWrite))
    &&& is_oldest_start(vms, e.oldest_started_at)
    &&& e.newest_started_at is None
}

/// Adding to a wrapped sum wraps the exact sum.
pub proof fn lemma_wrapped_step(n: nat, x: u64)
    ensures
        wrapped(n + x as nat) == vstd::wrapping::u64_specs::wrapping_add(wrapped(n), x),
{
    let m: int = 0x1_0000_0000_0000_0000;
    vstd::arithmetic::div_mod::lemma_add_mod_noop(n as int, x as int, m);
    vstd::arithmetic::div_mod::lemma_small_mod(x as nat, m as nat);
    vstd::arithmetic::div_mod::lemma_mod_bound(n as int, m);
    let w = (n as int) % m;
    let a = w + x;
    vstd::arithmetic::div_mod::lemma_fundamental_div_mod(a, m);
    vstd::arithmetic::div_mod::lemma_mod_bound(a, m);
    assert(a == m * (a / m) + a % m);
}

impl VagrantEnvironment {
    /// Builds an environment from a set of VMs, computing the aggregates:
    /// counters summed over the VMs (CPU capped at `u64::MAX`, the others
    /// wrapping as `u64` sums do), the status, and the earliest start of a
    /// running VM. The last-change time is left empty for the caller.
    pub fn aggregate(name: String, path: String, provider: String, vms: Vec<VmSnapshot>) -> (r: Self)
        ensures
            aggregate_spec(name@, path@, provider@, snapshots_view(vms@), r@),
    {
        let ghost vs = snapshots_view(vms@);
        let mut cpu: u64 = 0;
        let mut mem: u64 = 0;
        let mut limit: u64 = 0;
        let mut rx: u64 = 0;
        let mut tx: u64 = 0;
        let mut rd: u64 = 0;
        let mut wr: u64 = 0;
        let mut oldest: Option<u64> = None;
        let mut i: usize = 0;
        while i < vms.len()
            invariant
                i <= vms@.len(),
                vs == snapshots_view(vms@),
                cpu == capped(total(vs.take(i as int), Counter::Cpu)),
                mem == wrapped(total(vs.take(i as int), Counter::Mem)),
                limit == wrapped(total(vs.take(i as int), Counter::MemLimit)),
                rx == wrapped(total(vs.take(i as int), Counter::NetRx)),
                tx == wrapped(total(vs.take(i as int), Counter::NetTx)),
                rd == wrapped(total(vs.take(i as int), Counter::BlkRead)),
                wr == wrapped(total(vs.take(i as int), Counter::BlkWrite)),
                is_oldest_start(vs.take(i as int), oldest),
            decreases vms@.len() - i,
        {
            let v = &vms[i];
            let ghost pre = vs.take(i as int);
            let ghost next = vs.take(i + 1);
            assert(next.drop_last() =~= pre);
            assert(next.last() == v@);
            proof {
                lemma_wrapped_step(total(pre, Counter::Mem), v.mem_bytes);
                lemma_wrapped_step(total(pre, Counter::MemLimit), v.mem_limit);
                lemma_wrapped_step(total(pre, Counter::NetRx), v.net_rx);
                lemma_wrapped_step(total(pre, Counter::NetTx), v.net_tx);
                lemma_wrapped_step(total(pre, Counter::BlkRead), v.blk_read);
                lemma_wrapped_step(total(pre, Counter::BlkWrite), v.blk_write);
            }
            cpu = cpu.saturating_add(v.cpu_percent_e9);
            mem = mem.wrapping_add(v.mem_bytes);
            limit = limit.wrapping_add(v.mem_limit);
            rx = rx.wrapping_add(v.net_rx);
            tx = tx.wrapping_add(v.net_tx);
            rd = rd.wrapping_add(v.blk_read);
            wr = wr.wrapping_add(v.blk_write);
            let ghost old_oldest = oldest;
            if v.running {
                match v.started_at {
                    Some(t) => {
                        match oldest {
                            Some(m) => {
                                if t < m {
                                    oldest = Some(t);
                                }
                            },
                            None => {
                                oldest = Some(t);
                            },
                        }
                    },
                    None => {},
                }
            }
            proof {
                assert forall|j: int| 0 <= j < i implies #[trigger] next[j] == pre[j] by {}
                match oldest {
                    Some(m) => {
                        if old_oldest == oldest {
                            let k = choose|k: int| 0 <= k < pre.len() && #[trigger] pre[k].running && pre[k].started_at == Some(m);
                            assert(next[k] == pre[k]);
                        } else {
                            assert(next[i as int].running && next[i as int].started_at == Some(m));
                        }
                    },
                    None => {},
                }
            }
            i += 1;
        }
        assert(vs.take(vms@.len() as int) =~= vs);
        let status = Self::derive_status(&vms);
        VagrantEnvironment {
            name,
            path,
            provider,
            vms,
            status,
            total_cpu_e9: cpu,
            total_mem: mem,
            mem_limit: limit,
            total_net_rx: rx,
            total_net_tx: tx,
            total_blk_read: rd,
            total_blk_write: wr,
            oldest_started_at: oldest,
            newest_started_at: None,
        }
    }

    /// The status an environment with VMs `vms` has.
    pub fn derive_status(vms: &Vec<VmSnapshot>) -> (r: EnvironmentStatus)
        ensures
            r == status_of(snapshots_view(vms@)),
    {
        let ghost vs = snapshots_view(vms@);
        if vms.len() == 0 {
            return EnvironmentStatus::Stopped;
        }
        let mut i: usize = 0;
        while i < vms.len()
            invariant
                i <= vms@.len(),
                vs == snapshots_view(vms@),
                forall|j: int| 0 <= j < i ==> #[trigger] vs[j].state != "crashed"@,
            decreases vms@.len() - i,
        {
            if str_is(vms[i].state.as_str(), "crashed") {
                assert(vs[i as int].state == "crashed"@);
                return EnvironmentStatus::Crashed;
            }
            i += 1;
        }
        let mut i: usize = 0;
        while i < vms.len()
            invariant
                i <= vms@.len(),
                vs == snapshots_view(vms@),
                vms@.len() > 0,
                forall|j: int| 0 <= j < vs.len() ==> #[trigger] vs[j].state != "crashed"@,
                forall|j: int| 0 <= j < i ==> !(#[trigger] vs[j].state == "saved"@ || vs[j].state == "paused"@),
            decreases vms@.len() - i,
        {
            if str_is(vms[i].state.as_str(), "saved") || str_is(vms[i].state.as_str(), "paused") {
                assert(vs[i as int].state == "saved"@ || vs[i as int].state == "paused"@);
                return EnvironmentStatus::Saved;
            }
            i += 1;
        }
        let mut running: usize = 0;
        let mut i: usize = 0;
        let ghost mut witness: int = -1;
        while i < vms.len()
            invariant
                i <= vms@.len(),
                running <= i,
                vs == snapshots_view(vms@),
                vms@.len() > 0,
                forall|j: int| 0 <= j < vs.len() ==> #[trigger] vs[j].state != "crashed"@,
                forall|j: int| 0 <= j < vs.len() ==> !(#[trigger] vs[j].state == "saved"@ || vs[j].state == "paused"@),
                (running == i) <==> (forall|j: int| 0 <= j < i ==> #[trigger] vs[j].running),
                (running > 0) <==> (0 <= witness < i && vs[witness].running),
                (running == 0) ==> (forall|j: int| 0 <= j < i ==> !(#[trigger] vs[j].running)),
            decreases vms@.len() - i,
        {
            if vms[i].running {
                running += 1;
                proof {
                    witness = i as int;
                }
            } else {
                assert(!vs[i as int].running);
            }
            i += 1;
        }
        assert(vs.len() == vms@.len());
        if running == vms.len() {
            EnvironmentStatus::Running
        } else if running > 0 {
            EnvironmentStatus::Partial
        } else {
            EnvironmentStatus::Stopped
        }
    }

    /// Number of VMs in the environment.
    pub fn vm_count(&self) -> (r: usize)
        ensures
            r == self.vms@.len(),
    {
        self.vms.len()
    }

    /// Memory in use as hundredths of a percent of the memory limit, rounded
    /// down and capped at `u64::MAX`; 0 when the limit is 0.
    pub fn mem_percent(&self) -> (r: u64)
        ensures
            self.mem_limit == 0 ==> r == 0,
            self.mem_limit > 0 ==> r == capped((self.total_mem as nat * 10000) / self.mem_limit as nat),
    {
        if self.mem_limit == 0 {
            0
        } else {
            let q: u128 = (self.total_mem as u128) * 10000 / (self.mem_limit as u128);
            if q > u64::MAX as u128 {
                u64::MAX
            } else {
                q as u64
            }
        }
    }
}

/// Active view mode.
#[derive(Debug, Clone, Copy, PartialEq, Eq, Structural)]
pub enum ViewMode {
    Table,
    Chart,
}

// ── Durations ───────────────────────────────────────────────────────────────

/// The text for a duration of `s` seconds: `"{d}d {h}h"` from one day on,
/// `"{h}h {m}m"` from one hour on, `"{m}m"` below.
pub open spec fn duration_text(s: nat) -> Seq<char> {
    let days = s / 86400;
    let hours = (s % 86400) / 3600;
    let mins = (s % 3600) / 60;
    if days > 0 {
        decimal(days) + "d "@ + decimal(hours) + "h"@
    } else if hours > 0 {
        decimal(hours) + "h "@ + decimal(mins) + "m"@
    } else {
        decimal(mins) + "m"@
    }
}

/// Formats a duration in seconds as a human-readable string.
pub fn format_duration_secs(total_secs: u64) -> (r: String)
    ensures
        r@ == duration_text(total_secs as nat),
{
    let days = total_secs / 86400;
    let hours = (total_secs % 86400) / 3600;
    let mins = (total_secs % 3600) / 60;
    let mut r = String::new();
    if days > 0 {
        push_decimal(&mut r, days);
        push_str(&mut r, "d ");
        push_decimal(&mut r, hours);
        push_str(&mut r, "h");
    } else if hours > 0 {
        push_decimal(&mut r, hours);
        push_str(&mut r, "h ");
        push_decimal(&mut r, mins);
        push_str(&mut r, "m");
    } else {
        push_decimal(&mut r, mins);
        push_str(&mut r, "m");
    }
    r
}

/// Seconds from `start` to `now`, zero when `start` is later.
pub open spec fn elapsed_since(start: u64, now: u64) -> nat {
    if now >= start {
        (now - start) as nat
    } else {
        0
    }
}

/// The uptime text for a start at `epoch_secs`, seen at `now_secs` (both
/// Unix epoch seconds); a start in the future counts as zero.
pub fn uptime_text(epoch_secs: u64, now_secs: u64) -> (r: String)
    ensures
        r@ == duration_text(elapsed_since(epoch_secs, now_secs)),
{
    format_duration_secs(now_secs.saturating_sub(epoch_secs))
}

/// The time from the Unix epoch to now (`SystemTime::elapsed` on
/// `UNIX_EPOCH`), or `None` when the clock reads before the epoch. Nothing
/// is promised of the value: it is the machine's clock.
#[verifier::external_body]
fn time_since_epoch() -> Option<std::time::Duration> {
    match std::time::UNIX_EPOCH.elapsed() {
        Ok(d) => Some(d),
        Err(_) => None,
    }
}

/// The whole seconds of a duration (`Duration::as_secs`). The duration is
/// opaque here, so nothing is stated of the value.
#[verifier::external_body]
fn duration_secs(d: &std::time::Duration) -> u64 {
    d.as_secs()
}

/// Formats the time elapsed from `epoch_secs` (Unix epoch seconds) to now.
pub fn uptime_str_from_epoch(epoch_secs: u64) -> (r: String)
    ensures
        exists|now: u64| r@ == duration_text(#[trigger] elapsed_since(epoch_secs, now)),
{
    let now = match time_since_epoch() {
        Some(d) => duration_secs(&d),
        None => 0,
    };
    uptime_text(epoch_secs, now)
}

#[verifier::external_type_specification]
#[verifier::external_body]
pub struct ExInstant(std::time::Instant);

/// The time elapsed since `instant` (`Instant::elapsed`). Nothing is
/// promised of the value: it is the machine's monotonic clock.
#[verifier::external_body]
fn instant_elapsed(instant: &std::time::Instant) -> std::time::Duration {
    instant.elapsed()
}

/// Formats the time elapsed since `instant` as a human-readable string.
pub fn uptime_str_from_instant(instant: std::time::Instant) -> (r: String)
    ensures
        exists|secs: u64| r@ == #[trigger] duration_text(secs as nat),
{
    format_duration_secs(duration_secs(&instant_elapsed(&instant)))
}

/// The totals of an environment add up each VM's own counter: no VMs make
/// 0, and one more VM adds its CPU usage to the CPU total, its memory in
/// use to the memory total, its memory limit to the limit, and its bytes
/// received, sent, read and written to the matching totals.
pub proof fn totals_add_each_vm(vms: Seq<VmSnapshotView>, v: VmSnapshotView)
    ensures
        total(Seq::empty(), Counter::Cpu) == 0,
        total(Seq::empty(), Counter::Mem) == 0,
        total(Seq::empty(), Counter::MemLimit) == 0,
        total(Seq::empty(), Counter::NetRx) == 0,
        total(Seq::empty(), Counter::NetTx) == 0,
        total(Seq::empty(), Counter::BlkRead) == 0,
        total(Seq::empty(), Counter::BlkWrite) == 0,
        total(vms.push(v), Counter::Cpu) == total(vms, Counter::Cpu) + v.cpu_percent_e9,
        total(vms.push(v), Counter::Mem) == total(vms, Counter::Mem) + v.mem_bytes,
        total(vms.push(v), Counter::MemLimit) == total(vms, Counter::MemLimit) + v.mem_limit,
        total(vms.push(v), Counter::NetRx) == total(vms, Counter::NetRx) + v.net_rx,
        total(vms.push(v), Counter::NetTx) == total(vms, Counter::NetTx) + v.net_tx,
        total(vms.push(v), Counter::BlkRead) == total(vms, Counter::BlkRead) + v.blk_read,
        total(vms.push(v), Counter::BlkWrite) == total(vms, Counter::BlkWrite) + v.blk_write,
{
    assert(vms.push(v).drop_last() =~= vms);
}

/// An environment's status follows its VMs, the first rule that applies
/// deciding: a crashed VM makes it crashed; else a saved or paused VM makes
/// it saved; else it is running when all its VMs run, partial when some
/// do, and stopped when none does or it has no VMs.
pub proof fn status_follows_vms(vms: Seq<VmSnapshotView>)
    ensures
        (exists|i: int| 0 <= i < vms.len() && #[trigger] vms[i].state == "crashed"@) ==> status_of(vms)
            == EnvironmentStatus::Crashed,
        (forall|i: int| 0 <= i < vms.len() ==> #[trigger] vms[i].state != "crashed"@) && (exists|i: int|
            0 <= i < vms.len() && (#[trigger] vms[i].state == "saved"@ || vms[i].state == "paused"@)) ==> status_of(vms)
            == EnvironmentStatus::Saved,
        ({
            let plain = forall|i: int|
                0 <= i < vms.len() ==> #[trigger] vms[i].state != "crashed"@ && vms[i].state != "saved"@ && vms[i].state
                    != "paused"@;
            let all_run = forall|i: int| 0 <= i < vms.len() ==> #[trigger] vms[i].running;
            let some_run = exists|i: int| 0 <= i < vms.len() && #[trigger] vms[i].running;
            &&& plain && vms.len() > 0 && all_run ==> status_of(vms) == EnvironmentStatus::Running
            &&& plain && some_run && !all_run ==> status_of(vms) == EnvironmentStatus::Partial
            &&& plain && !some_run ==> status_of(vms) == EnvironmentStatus::Stopped
        }),
{
    if vms.len() > 0 {
        if !vms[0].running {
            assert(!(forall|i: int| 0 <= i < vms.len() ==> #[trigger] vms[i].running));
        }
    }
    if forall|i: int| 0 <= i < vms.len() ==> #[trigger] vms[i].state != "crashed"@ && vms[i].state != "saved"@ && vms[i].state
        != "paused"@ {
        assert(!(exists|i: int| 0 <= i < vms.len() && #[trigger] vms[i].state == "crashed"@));
        assert(!(exists|i: int| 0 <= i < vms.len() && (#[trigger] vms[i].state == "saved"@ || vms[i].state == "paused"@)));
    }
}

} // verus!
