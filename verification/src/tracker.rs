//! One poll of the VMs: the machine-index cache, the state, change and CPU
//! trackers kept between polls, and the environments a poll yields.

use vstd::prelude::*;

use crate::domstats::DomStats;
use crate::model::{
    aggregate_spec, capped, wrapped, EnvironmentView, VagrantEnvironment, VmSnapshot, VmSnapshotView,
};
use crate::name_map::{names_set, NameMap};
use crate::text::{str_is, string_of};
use crate::vagrant::{VmInfo, VmInfoView};

verus! {

/// The trackers kept from one poll to the next, as plain values.
pub struct Caches {
    /// Per domain: the last CPU time read and the monotonic time it was read at.
    pub cpu: Map<Seq<char>, (u64, u64)>,
    /// Per domain: the last state seen.
    pub states: Map<Seq<char>, Seq<char>>,
    /// Per domain: the monotonic time of the last state transition seen.
    pub changes: Map<Seq<char>, u64>,
}

/// `a - b`, or 0 when `b` is larger.
pub open spec fn sat_sub(a: u64, b: u64) -> u64 {
    if a >= b {
        (a - b) as u64
    } else {
        0
    }
}

/// A VM's state: the domain's live state where `virsh` reports one of
/// running (1), paused (3), shutoff (5) or crashed (6), else the index's.
pub open spec fn effective_state(vm_state: Seq<char>, stats: Option<DomStats>) -> Seq<char> {
    match stats {
        Some(s) => if s.state == 1 {
            "running"@
        } else if s.state == 3 {
            "paused"@
        } else if s.state == 5 {
            "shutoff"@
        } else if s.state == 6 {
            "crashed"@
        } else {
            vm_state
        },
        None => vm_state,
    }
}

/// CPU usage in billionths of a percent (rounded down) between the
/// previous reading `prev` (CPU nanoseconds, monotonic nanoseconds) and
/// this one; 0 without a previous reading or when no wall time passed.
pub open spec fn cpu_usage_e9(prev: Option<(u64, u64)>, cpu_time: u64, now: u64) -> u64 {
    match prev {
        Some(p) => {
            let cd = sat_sub(cpu_time, p.0);
            let wd = sat_sub(now, p.1);
            if wd > 0 {
                capped(((cd as nat) * 100_000_000_000) / (wd as nat))
            } else {
                0
            }
        },
        None => 0,
    }
}

/// The snapshot of `vm` and the trackers after observing it.
pub open spec fn observe_vm(c: Caches, vm: VmInfoView, stats: Option<DomStats>, start: Option<u64>, now: u64) -> (Caches, VmSnapshotView) {
    let d = vm.domain_name;
    let eff = effective_state(vm.state, stats);
    let running = eff == "running"@;
    let changes = if c.states.contains_key(d) && c.states[d] != eff {
        c.changes.insert(d, now)
    } else {
        c.changes
    };
    let states = c.states.insert(d, eff);
    let cpu = match stats {
        Some(s) => c.cpu.insert(d, (s.cpu_time, now)),
        None => c.cpu,
    };
    let snap = VmSnapshotView {
        name: vm.name,
        domain_name: d,
        provider: vm.provider,
        box_name: vm.box_name,
        state: eff,
        running,
        cpu_percent_e9: match stats {
            Some(s) => cpu_usage_e9(c.cpu.get(d), s.cpu_time, now),
            None => 0,
        },
        cpus: match stats {
            Some(s) => s.vcpu_current,
            None => 0,
        },
        mem_bytes: match stats {
            Some(s) => wrapped(
                (match s.balloon_rss {
                    Some(r) => r,
                    None => s.balloon_current,
                }) as nat * 1024,
            ),
            None => 0,
        },
        mem_limit: match stats {
            Some(s) => wrapped(s.balloon_maximum as nat * 1024),
            None => 0,
        },
        net_rx: match stats {
            Some(s) => s.net_rx_bytes,
            None => 0,
        },
        net_tx: match stats {
            Some(s) => s.net_tx_bytes,
            None => 0,
        },
        blk_read: match stats {
            Some(s) => s.blk_rd_bytes,
            None => 0,
        },
        blk_write: match stats {
            Some(s) => s.blk_wr_bytes,
            None => 0,
        },
        started_at: if running {
            start
        } else {
            None
        },
    };
    (Caches { cpu, states, changes }, snap)
}

/// The start time read for VM `i`, if one was given.
pub open spec fn start_at(starts: Seq<Option<u64>>, i: int) -> Option<u64> {
    if 0 <= i < starts.len() {
        starts[i]
    } else {
        None
    }
}

/// The trackers and snapshots after observing the first `n` VMs in order.
pub open spec fn observe_prefix(
    c0: Caches,
    vms: Seq<VmInfoView>,
    stats: Map<Seq<char>, DomStats>,
    starts: Seq<Option<u64>>,
    now: u64,
    n: nat,
) -> (Caches, Seq<VmSnapshotView>)
    decreases n,
{
    if n == 0 {
        (c0, Seq::empty())
    } else {
        let prev = observe_prefix(c0, vms, stats, starts, now, (n - 1) as nat);
        let i = n - 1;
        let step = observe_vm(prev.0, vms[i], stats.get(vms[i].domain_name), start_at(starts, i), now);
        (step.0, prev.1.push(step.1))
    }
}

/// An environment's VMs before aggregation.
pub struct Group {
    pub name: Seq<char>,
    pub path: Seq<char>,
    pub provider: Seq<char>,
    pub vms: Seq<VmSnapshotView>,
}

/// Index of the first group of the Vagrantfile at `path`, or `gs.len()`.
pub open spec fn group_index(gs: Seq<Group>, path: Seq<char>) -> nat
    decreases gs.len(),
{
    if gs.len() == 0 {
        0
    } else if gs[0].path == path {
        0
    } else {
        1 + group_index(gs.drop_first(), path)
    }
}

/// Index of the first VM whose domain is `d`, or `vms.len()`.
pub open spec fn first_with_domain(vms: Seq<VmInfoView>, d: Seq<char>) -> nat
    decreases vms.len(),
{
    if vms.len() == 0 {
        0
    } else if vms[0].domain_name == d {
        0
    } else {
        1 + first_with_domain(vms.drop_first(), d)
    }
}

/// The snapshots of the first `n` VMs grouped by environment, one per
/// Vagrantfile path, groups in order of first appearance; a group is named
/// by its VMs' environment (the Vagrantfile's directory name) and its
/// provider comes from the first VM of the index with the domain of the
/// group's first snapshot.
pub open spec fn group_prefix(vms: Seq<VmInfoView>, snaps: Seq<VmSnapshotView>, n: nat) -> Seq<Group>
    decreases n,
{
    if n == 0 {
        Seq::empty()
    } else {
        let gs = group_prefix(vms, snaps, (n - 1) as nat);
        let i = n - 1;
        let path = vms[i].vagrantfile_path;
        let k = group_index(gs, path);
        if k < gs.len() {
            gs.update(k as int, Group { vms: gs[k as int].vms.push(snaps[i]), ..gs[k as int] })
        } else {
            let o = vms[first_with_domain(vms, snaps[i].domain_name) as int];
            gs.push(Group { name: vms[i].environment, path, provider: o.provider, vms: seq![snaps[i]] })
        }
    }
}

/// Whether `o` is the latest state change recorded for a VM in `vms`.
pub open spec fn is_newest_change(vms: Seq<VmSnapshotView>, changes: Map<Seq<char>, u64>, o: Option<u64>) -> bool {
    match o {
        None => forall|i: int| 0 <= i < vms.len() ==> !changes.contains_key(#[trigger] vms[i].domain_name),
        Some(m) => {
            &&& exists|i: int| 0 <= i < vms.len() && changes.contains_key(#[trigger] vms[i].domain_name)
                && changes[vms[i].domain_name] == m
            &&& forall|i: int| 0 <= i < vms.len() && changes.contains_key(#[trigger] vms[i].domain_name)
                ==> changes[vms[i].domain_name] <= m
        },
    }
}

/// Whether `e` is the environment of group `g` once the trackers are `c`.
pub open spec fn env_of_group(g: Group, changes: Map<Seq<char>, u64>, e: EnvironmentView) -> bool {
    &&& aggregate_spec(g.name, g.path, g.provider, g.vms, EnvironmentView { newest_started_at: None, ..e })
    &&& is_newest_change(g.vms, changes, e.newest_started_at)
}

/// A group being filled.
struct EnvGroup {
    name: String,
    path: String,
    provider: String,
    vms: Vec<VmSnapshot>,
}

impl EnvGroup {
    spec fn view(&self) -> Group {
        Group { name: self.name@, path: self.path@, provider: self.provider@, vms: crate::model::snapshots_view(self.vms@) }
    }
}

spec fn groups_view(gs: Seq<EnvGroup>) -> Seq<Group> {
    gs.map_values(|g: EnvGroup| g.view())
}

/// The VM cache and trackers that one poll hands to the next.
pub struct Tracker {
    vms: Option<Vec<VmInfo>>,
    cpu: NameMap<(u64, u64)>,
    states: NameMap<String>,
    changes: NameMap<u64>,
}

/// The plain values of a list of VMs.
pub open spec fn infos_view(vms: Seq<VmInfo>) -> Seq<VmInfoView> {
    vms.map_values(|v: VmInfo| v@)
}

/// The domain names of a list of VMs.
pub open spec fn domains_of(vms: Seq<VmInfoView>) -> Set<Seq<char>> {
    Set::new(|d: Seq<char>| exists|i: int| 0 <= i < vms.len() && #[trigger] vms[i].domain_name == d)
}

impl Tracker {
    /// The cached VMs of the machine index, if it has been read.
    pub closed spec fn cached(&self) -> Option<Seq<VmInfoView>> {
        match self.vms {
            Some(v) => Some(infos_view(v@)),
            None => None,
        }
    }

    /// The trackers.
    pub closed spec fn caches(&self) -> Caches {
        Caches {
            cpu: self.cpu@,
            states: self.states@.map_values(|s: String| s@),
            changes: self.changes@,
        }
    }

    /// No machine index read yet, no readings tracked.
    pub fn new() -> (r: Tracker)
        ensures
            r.cached() is None,
            r.caches().cpu == Map::<Seq<char>, (u64, u64)>::empty(),
            r.caches().states == Map::<Seq<char>, Seq<char>>::empty(),
            r.caches().changes == Map::<Seq<char>, u64>::empty(),
    {
        let r = Tracker { vms: None, cpu: NameMap::new(), states: NameMap::new(), changes: NameMap::new() };
        assert(r.caches().states =~= Map::<Seq<char>, Seq<char>>::empty());
        r
    }

    /// Whether the machine index must be read: on a relist, or when it never was.
    pub fn needs_index(&self, relist: bool) -> (r: bool)
        ensures
            r == (relist || self.cached() is None),
    {
        relist || self.vms.is_none()
    }

    /// Installs a freshly read machine index, dropping tracked readings of
    /// domains that are no longer in it.
    pub fn install_index(&mut self, vms: Vec<VmInfo>)
        ensures
            final(self).cached() == Some(infos_view(vms@)),
            final(self).caches().cpu == old(self).caches().cpu.restrict(domains_of(infos_view(vms@))),
            final(self).caches().states == old(self).caches().states.restrict(domains_of(infos_view(vms@))),
            final(self).caches().changes == old(self).caches().changes.restrict(domains_of(infos_view(vms@))),
    {
        let ghost old_states = self.states@;
        let mut names: Vec<String> = Vec::new();
        let mut i: usize = 0;
        while i < vms.len()
            invariant
                i <= vms@.len(),
                names@.len() == i,
                forall|j: int| 0 <= j < i ==> #[trigger] names@[j]@ == vms@[j].domain_name@,
            decreases vms@.len() - i,
        {
            names.push(vms[i].domain_name.clone());
            i += 1;
        }
        proof {
            assert(names_set(names@) =~= domains_of(infos_view(vms@))) by {
                assert forall|d: Seq<char>| names_set(names@).contains(d) implies domains_of(infos_view(vms@)).contains(d) by {
                    let j = choose|j: int| 0 <= j < names@.len() && #[trigger] names@[j]@ == d;
                    assert(infos_view(vms@)[j].domain_name == d);
                }
                assert forall|d: Seq<char>| domains_of(infos_view(vms@)).contains(d) implies names_set(names@).contains(d) by {
                    let j = choose|j: int| 0 <= j < infos_view(vms@).len() && #[trigger] infos_view(vms@)[j].domain_name == d;
                    assert(names@[j]@ == d);
                }
            }
        }
        self.cpu.retain_names(&names);
        self.states.retain_names(&names);
        self.changes.retain_names(&names);
        self.vms = Some(vms);
        assert(self.caches().states =~= old_states.map_values(|s: String| s@).restrict(domains_of(infos_view(vms@))));
    }

    /// Whether the cache holds at least one VM.
    pub fn has_vms(&self) -> (r: bool)
        ensures
            r == (self.cached() is Some && self.cached()->0.len() > 0),
    {
        match &self.vms {
            Some(v) => v.len() > 0,
            None => false,
        }
    }

    /// For each cached VM, the domain whose start time the caller should
    /// read: the VM's domain when it is running given `domstats`, else none.
    pub fn start_time_queries(&self, domstats: &NameMap<DomStats>) -> (r: Vec<Option<String>>)
        ensures
            self.cached() is Some ==> r@.len() == self.cached()->0.len(),
            self.cached() is None ==> r@.len() == 0,
            forall|i: int| 0 <= i < r@.len() ==> match #[trigger] r@[i] {
                Some(d) => d@ == self.cached()->0[i].domain_name && effective_state(
                    self.cached()->0[i].state,
                    domstats@.get(self.cached()->0[i].domain_name),
                ) == "running"@,
                None => effective_state(
                    self.cached()->0[i].state,
                    domstats@.get(self.cached()->0[i].domain_name),
                ) != "running"@,
            },
    {
        let mut r: Vec<Option<String>> = Vec::new();
        match &self.vms {
            None => {},
            Some(vms) => {
                let mut i: usize = 0;
                while i < vms.len()
                    invariant
                        i <= vms@.len(),
                        self.vms == Some(*vms),
                        r@.len() == i,
                        forall|j: int| 0 <= j < i ==> match #[trigger] r@[j] {
                            Some(d) => d@ == vms@[j].domain_name@ && effective_state(
                                vms@[j].state@,
                                domstats@.get(vms@[j].domain_name@),
                            ) == "running"@,
                            None => effective_state(vms@[j].state@, domstats@.get(vms@[j].domain_name@))
                                != "running"@,
                        },
                    decreases vms@.len() - i,
                {
                    let stats = lookup(domstats, &vms[i].domain_name);
                    let eff = effective_state_of(&vms[i].state, stats);
                    if str_is(eff.as_str(), "running") {
                        r.push(Some(vms[i].domain_name.clone()));
                    } else {
                        r.push(None);
                    }
                    i += 1;
                }
            },
        }
        r
    }
}

/// The counters of domain `d`, if `domstats` has them.
fn lookup(domstats: &NameMap<DomStats>, d: &String) -> (r: Option<DomStats>)
    ensures
        r == domstats@.get(d@),
{
    match domstats.get(d) {
        Some(s) => Some(*s),
        None => None,
    }
}

/// A VM's state given its index state and its `virsh` counters.
pub fn effective_state_of(vm_state: &String, stats: Option<DomStats>) -> (r: String)
    ensures
        r@ == effective_state(vm_state@, stats),
{
    match stats {
        Some(s) => if s.state == 1 {
            string_of("running")
        } else if s.state == 3 {
            string_of("paused")
        } else if s.state == 5 {
            string_of("shutoff")
        } else if s.state == 6 {
            string_of("crashed")
        } else {
            vm_state.clone()
        },
        None => vm_state.clone(),
    }
}

/// CPU usage in billionths of a percent between two readings.
pub fn cpu_usage(prev: Option<(u64, u64)>, cpu_time: u64, now: u64) -> (r: u64)
    ensures
        r == cpu_usage_e9(prev, cpu_time, now),
{
    match prev {
        Some(p) => {
            let cd = cpu_time.saturating_sub(p.0);
            let wd = now.saturating_sub(p.1);
            if wd > 0 {
                let q: u128 = (cd as u128) * 100_000_000_000 / (wd as u128);
                if q > u64::MAX as u128 {
                    u64::MAX
                } else {
                    q as u64
                }
            } else {
                0
            }
        },
        None => 0,
    }
}


proof fn lemma_observe_prefix_shape(c0: Caches, vms: Seq<VmInfoView>, stats: Map<Seq<char>, DomStats>,
    starts: Seq<Option<u64>>, now: u64, n: nat)
    requires
        n <= vms.len(),
    ensures
        observe_prefix(c0, vms, stats, starts, now, n).1.len() == n,
        forall|i: int| 0 <= i < n ==> #[trigger] observe_prefix(c0, vms, stats, starts, now, n).1[i].domain_name
            == vms[i].domain_name,
    decreases n,
{
    if n > 0 {
        lemma_observe_prefix_shape(c0, vms, stats, starts, now, (n - 1) as nat);
        let p = observe_prefix(c0, vms, stats, starts, now, (n - 1) as nat);
        assert forall|i: int| 0 <= i < n implies #[trigger] observe_prefix(c0, vms, stats, starts, now, n).1[i].domain_name
            == vms[i].domain_name by {
            if i < n - 1 {
                assert(observe_prefix(c0, vms, stats, starts, now, n).1[i] == p.1[i]);
            }
        }
    }
}

proof fn lemma_first_with_domain_exact(vms: Seq<VmInfoView>, d: Seq<char>, k: int)
    requires
        0 <= k < vms.len(),
        vms[k].domain_name == d,
        forall|j: int| 0 <= j < k ==> #[trigger] vms[j].domain_name != d,
    ensures
        first_with_domain(vms, d) == k,
    decreases k,
{
    if k > 0 {
        let t = vms.drop_first();
        assert forall|j: int| 0 <= j < k - 1 implies #[trigger] t[j].domain_name != d by {
            assert(t[j] == vms[j + 1]);
        }
        lemma_first_with_domain_exact(t, d, k - 1);
    }
}

proof fn lemma_group_index_exact(gs: Seq<Group>, path: Seq<char>, k: int)
    requires
        0 <= k <= gs.len(),
        k < gs.len() ==> gs[k].path == path,
        forall|j: int| 0 <= j < k ==> #[trigger] gs[j].path != path,
    ensures
        group_index(gs, path) == k,
    decreases k,
{
    if k > 0 {
        let t = gs.drop_first();
        assert forall|j: int| 0 <= j < k - 1 implies #[trigger] t[j].path != path by {
            assert(t[j] == gs[j + 1]);
        }
        lemma_group_index_exact(t, path, k - 1);
    }
}

impl Tracker {
    /// Observes one poll: for each cached VM in order, its effective state
    /// (recording a state change at `now` when it differs from the last
    /// one seen for its domain), its CPU usage against the last reading
    /// (then recorded), memory from the balloon counters (KiB to bytes),
    /// network and disk counters, and its start time from `starts` (read by
    /// the caller, kept only for running VMs); then the snapshots grouped
    /// into one environment per Vagrantfile and aggregated, each
    /// environment's last change being the
    /// latest one recorded for its domains. `now` is a reading of the
    /// monotonic clock in nanoseconds.
    pub fn observe(&mut self, domstats: &NameMap<DomStats>, starts: &Vec<Option<u64>>, now: u64) -> (r: Vec<VagrantEnvironment>)
        ensures
            final(self).cached() == old(self).cached(),
            ({
                let vs = match old(self).cached() {
                    Some(v) => v,
                    None => Seq::empty(),
                };
                let o = observe_prefix(old(self).caches(), vs, domstats@, starts@, now, vs.len());
                let gs = group_prefix(vs, o.1, vs.len());
                &&& final(self).caches() == o.0
                &&& r@.len() == gs.len()
                &&& forall|k: int| 0 <= k < gs.len() ==> env_of_group(gs[k], o.0.changes, #[trigger] r@[k]@)
            }),
    {
        let ghost c0 = self.caches();
        let empty: Vec<VmInfo> = Vec::new();
        let vms: &Vec<VmInfo> = match &self.vms {
            Some(v) => v,
            None => &empty,
        };
        let ghost vs = infos_view(vms@);
        assert(vs == match old(self).cached() { Some(v) => v, None => Seq::<VmInfoView>::empty() });
        let n = vms.len();
        // Phase 1: snapshots, in index order, updating the trackers.
        let mut snaps: Vec<VmSnapshot> = Vec::new();
        let mut i: usize = 0;
        while i < n
            invariant
                n == vms@.len(),
                vs == infos_view(vms@),
                i <= n,
                self.vms == old(self).vms,
                (self.caches(), crate::model::snapshots_view(snaps@)) == observe_prefix(c0, vs, domstats@, starts@, now, i as nat),
            decreases n - i,
        {
            let vm = &vms[i];
            let ghost c = self.caches();
            let stats = lookup(domstats, &vm.domain_name);
            let eff = effective_state_of(&vm.state, stats);
            let running = str_is(eff.as_str(), "running");
            let transition = match self.states.get(&vm.domain_name) {
                Some(p) => !(*p == eff),
                None => false,
            };
            if transition {
                self.changes.insert(vm.domain_name.clone(), now);
            }
            let ghost st_before = self.states@;
            self.states.insert(vm.domain_name.clone(), eff.clone());
            proof {
                assert(self.states@.map_values(|s: String| s@) =~= st_before.map_values(|s: String| s@).insert(
                    vm.domain_name@,
                    eff@,
                ));
            }
            let started_at = if running && i < starts.len() {
                starts[i]
            } else {
                None
            };
            let snap = match stats {
                Some(s) => {
                    let prev = match self.cpu.get(&vm.domain_name) {
                        Some(p) => Some(*p),
                        None => None,
                    };
                    let pct = cpu_usage(prev, s.cpu_time, now);
                    self.cpu.insert(vm.domain_name.clone(), (s.cpu_time, now));
                    let kib = match s.balloon_rss {
                        Some(r) => r,
                        None => s.balloon_current,
                    };
                    VmSnapshot {
                        name: vm.name.clone(),
                        domain_name: vm.domain_name.clone(),
                        provider: vm.provider.clone(),
                        box_name: vm.box_name.clone(),
                        state: eff,
                        running,
                        cpu_percent_e9: pct,
                        cpus: s.vcpu_current,
                        mem_bytes: kib.wrapping_mul(1024),
                        mem_limit: s.balloon_maximum.wrapping_mul(1024),
                        net_rx: s.net_rx_bytes,
                        net_tx: s.net_tx_bytes,
                        blk_read: s.blk_rd_bytes,
                        blk_write: s.blk_wr_bytes,
                        started_at,
                    }
                },
                None => VmSnapshot {
                    name: vm.name.clone(),
                    domain_name: vm.domain_name.clone(),
                    provider: vm.provider.clone(),
                    box_name: vm.box_name.clone(),
                    state: eff,
                    running,
                    cpu_percent_e9: 0,
                    cpus: 0,
                    mem_bytes: 0,
                    mem_limit: 0,
                    net_rx: 0,
                    net_tx: 0,
                    blk_read: 0,
                    blk_write: 0,
                    started_at,
                },
            };
            let ghost step = observe_vm(c, vs[i as int], domstats@.get(vs[i as int].domain_name), start_at(starts@, i as int), now);
            assert(snap@ == step.1);
            assert(self.caches() == step.0);
            snaps.push(snap);
            assert(crate::model::snapshots_view(snaps@) =~= observe_prefix(c0, vs, domstats@, starts@, now, i as nat).1.push(step.1));
            i += 1;
        }
        let ghost o = observe_prefix(c0, vs, domstats@, starts@, now, n as nat);
        let ghost all = o.1;
        proof {
            lemma_observe_prefix_shape(c0, vs, domstats@, starts@, now, n as nat);
            assert(all.subrange(0, n as int) =~= all);
        }
        // Phase 2: group by Vagrantfile, in order of first appearance.
        let mut groups: Vec<EnvGroup> = Vec::new();
        let mut i: usize = 0;
        while i < n
            invariant
                n == vms@.len(),
                vs == infos_view(vms@),
                all.len() == n,
                forall|j: int| 0 <= j < n ==> #[trigger] all[j].domain_name == vs[j].domain_name,
                i <= n,
                crate::model::snapshots_view(snaps@) == all.subrange(i as int, n as int),
                groups_view(groups@) == group_prefix(vs, all, i as nat),
            decreases n - i,
        {
            assert(snaps@.len() == crate::model::snapshots_view(snaps@).len());
            let ghost before = snaps@;
            assert(crate::model::snapshots_view(before)[0] == all[i as int]);
            let snap = snaps.remove(0);
            assert(snap@ == all[i as int]);
            assert forall|x: int| 0 <= x < snaps@.len() implies #[trigger] snaps@[x]@ == all[i + 1 + x] by {
                assert(snaps@[x] == before[x + 1]);
                assert(crate::model::snapshots_view(before)[x + 1] == all[i + 1 + x]);
            }
            assert(crate::model::snapshots_view(snaps@) =~= all.subrange(i + 1, n as int));
            let ghost gs = groups_view(groups@);
            let env_path = &vms[i].vagrantfile_path;
            let mut k: usize = 0;
            while k < groups.len() && !(groups[k].path == *env_path)
                invariant
                    k <= groups@.len(),
                    gs == groups_view(groups@),
                    forall|j: int| 0 <= j < k ==> #[trigger] gs[j].path != env_path@,
                decreases groups@.len() - k,
            {
                k += 1;
            }
            proof {
                lemma_group_index_exact(gs, env_path@, k as int);
            }
            if k < groups.len() {
                let ghost before = groups@;
                let mut g = groups.remove(k);
                assert(g.view() == gs[k as int]);
                let ghost gv0 = g.vms@;
                g.vms.push(snap);
                assert(crate::model::snapshots_view(g.vms@) =~= crate::model::snapshots_view(gv0).push(all[i as int]));
                let ghost g_after = g.view();
                groups.insert(k, g);
                assert forall|x: int| 0 <= x < groups@.len() implies #[trigger] groups@[x].view() == (if x == k {
                    g_after
                } else {
                    gs[x]
                }) by {
                    if x != k {
                        assert(groups@[x] == before[x]);
                    }
                }
                assert(groups_view(groups@) =~= gs.update(
                    k as int,
                    Group { vms: gs[k as int].vms.push(all[i as int]), ..gs[k as int] },
                ));
            } else {
                let mut j: usize = 0;
                while j < n && !(vms[j].domain_name == snap.domain_name)
                    invariant
                        j <= n,
                        n == vms@.len(),
                        vs == infos_view(vms@),
                        snap@ == all[i as int],
                        all[i as int].domain_name == vs[i as int].domain_name,
                        i < n,
                        forall|jj: int| 0 <= jj < j ==> #[trigger] vs[jj].domain_name != snap.domain_name@,
                    decreases n - j,
                {
                    j += 1;
                }
                proof {
                    if j == n {
                        assert(vs[i as int].domain_name == snap.domain_name@);
                    }
                    lemma_first_with_domain_exact(vs, snap.domain_name@, j as int);
                }
                let mut gv: Vec<VmSnapshot> = Vec::new();
                gv.push(snap);
                let g = EnvGroup {
                    name: vms[i].environment.clone(),
                    path: env_path.clone(),
                    provider: vms[j].provider.clone(),
                    vms: gv,
                };
                groups.push(g);
                assert(crate::model::snapshots_view(gv@) =~= seq![all[i as int]]);
                assert(groups_view(groups@) =~= gs.push(
                    Group {
                        name: vs[i as int].environment,
                        path: env_path@,
                        provider: vs[j as int].provider,
                        vms: seq![all[i as int]],
                    },
                ));
            }
            i += 1;
        }
        let ghost gsv = groups_view(groups@);
        assert(gsv.subrange(0, gsv.len() as int) =~= gsv);
        // Phase 3: aggregate each group.
        let mut envs: Vec<VagrantEnvironment> = Vec::new();
        let ng = groups.len();
        let mut k: usize = 0;
        while k < ng
            invariant
                k <= ng,
                ng == gsv.len(),
                groups_view(groups@) == gsv.subrange(k as int, ng as int),
                envs@.len() == k,
                forall|j: int| 0 <= j < k ==> env_of_group(gsv[j], self.changes@, #[trigger] envs@[j]@),
            decreases ng - k,
        {
            assert(groups@.len() == groups_view(groups@).len());
            let ghost before = groups@;
            assert(groups_view(before)[0] == gsv[k as int]);
            let g = groups.remove(0);
            assert(g.view() == gsv[k as int]);
            assert forall|x: int| 0 <= x < groups@.len() implies #[trigger] groups@[x].view() == gsv[k + 1 + x] by {
                assert(groups@[x] == before[x + 1]);
                assert(groups_view(before)[x + 1] == gsv[k + 1 + x]);
            }
            assert(groups_view(groups@) =~= gsv.subrange(k + 1, ng as int));
            let mut env = VagrantEnvironment::aggregate(g.name, g.path, g.provider, g.vms);
            let ghost ev = env@;
            let mut latest: Option<u64> = None;
            let mut j: usize = 0;
            while j < env.vms.len()
                invariant
                    j <= env.vms@.len(),
                    is_newest_change(crate::model::snapshots_view(env.vms@).take(j as int), self.changes@, latest),
                decreases env.vms@.len() - j,
            {
                let ghost pre = crate::model::snapshots_view(env.vms@).take(j as int);
                let ghost next = crate::model::snapshots_view(env.vms@).take(j + 1);
                assert(forall|x: int| 0 <= x < j ==> #[trigger] next[x] == pre[x]);
                assert(next[j as int] == env.vms@[j as int]@);
                let ghost old_latest = latest;
                match self.changes.get(&env.vms[j].domain_name) {
                    Some(t) => {
                        match latest {
                            Some(m) => {
                                if *t > m {
                                    latest = Some(*t);
                                }
                            },
                            None => {
                                latest = Some(*t);
                            },
                        }
                    },
                    None => {},
                }
                proof {
                    match latest {
                        Some(m) => {
                            if latest == old_latest {
                                let x = choose|x: int| 0 <= x < pre.len() && self.changes@.contains_key(#[trigger] pre[x].domain_name)
                                    && self.changes@[pre[x].domain_name] == m;
                                assert(next[x] == pre[x]);
                            } else {
                                assert(self.changes@.contains_key(next[j as int].domain_name));
                            }
                        },
                        None => {},
                    }
                }
                j += 1;
            }
            assert(crate::model::snapshots_view(env.vms@).take(env.vms@.len() as int) =~= crate::model::snapshots_view(env.vms@));
            env.newest_started_at = latest;
            assert(EnvironmentView { newest_started_at: None, ..env@ } == ev);
            envs.push(env);
            k += 1;
        }
        envs
    }
}

/// The LAST-CHG tracker records a change only on an actual transition: the
/// first sight of a domain records its state and no change; the same state
/// again changes nothing; a different state records the change at `now`.
pub proof fn changes_only_on_transitions(c: Caches, vm: VmInfoView, stats: Option<DomStats>, start: Option<u64>, now: u64)
    ensures
        ({
            let (c2, _) = observe_vm(c, vm, stats, start, now);
            let d = vm.domain_name;
            let eff = effective_state(vm.state, stats);
            &&& c2.states.contains_key(d) && c2.states[d] == eff
            &&& !c.states.contains_key(d) ==> c2.changes == c.changes
            &&& c.states.contains_key(d) && c.states[d] == eff ==> c2.changes == c.changes
            &&& c.states.contains_key(d) && c.states[d] != eff ==> c2.changes == c.changes.insert(d, now)
        }),
{
}

/// CPU usage is measured between two readings of the same domain: the
/// first reading yields 0, and every reading is kept for the next poll.
pub proof fn cpu_measured_between_readings(c: Caches, vm: VmInfoView, s: DomStats, start: Option<u64>, now: u64)
    ensures
        ({
            let (c2, snap) = observe_vm(c, vm, Some(s), start, now);
            &&& c2.cpu == c.cpu.insert(vm.domain_name, (s.cpu_time, now))
            &&& !c.cpu.contains_key(vm.domain_name) ==> snap.cpu_percent_e9 == 0
        }),
{
}

/// A VM that is not running has no start time.
pub proof fn only_running_vms_have_start(c: Caches, vm: VmInfoView, stats: Option<DomStats>, start: Option<u64>, now: u64)
    ensures
        observe_vm(c, vm, stats, start, now).1.started_at is Some ==> observe_vm(c, vm, stats, start, now).1.running,
{
}

/// The snapshots, in index order, of those of the first `n` VMs whose
/// Vagrantfile is at `path`.
pub open spec fn snaps_with_path(vms: Seq<VmInfoView>, snaps: Seq<VmSnapshotView>, path: Seq<char>, n: nat) -> Seq<VmSnapshotView>
    decreases n,
{
    if n == 0 {
        Seq::empty()
    } else {
        let p = snaps_with_path(vms, snaps, path, (n - 1) as nat);
        if vms[n - 1].vagrantfile_path == path {
            p.push(snaps[n - 1])
        } else {
            p
        }
    }
}

proof fn lemma_group_index_props(gs: Seq<Group>, path: Seq<char>)
    ensures
        group_index(gs, path) <= gs.len(),
        group_index(gs, path) < gs.len() ==> gs[group_index(gs, path) as int].path == path,
        forall|j: int| 0 <= j < group_index(gs, path) ==> #[trigger] gs[j].path != path,
    decreases gs.len(),
{
    if gs.len() > 0 && gs[0].path != path {
        let t = gs.drop_first();
        lemma_group_index_props(t, path);
        assert forall|j: int| 0 <= j < group_index(gs, path) implies #[trigger] gs[j].path != path by {
            if j > 0 {
                assert(gs[j] == t[j - 1]);
            }
        }
    }
}

proof fn lemma_no_snaps_with_path(vms: Seq<VmInfoView>, snaps: Seq<VmSnapshotView>, path: Seq<char>, m: nat)
    requires
        forall|i: int| 0 <= i < m ==> #[trigger] vms[i].vagrantfile_path != path,
    ensures
        snaps_with_path(vms, snaps, path, m) == Seq::<VmSnapshotView>::empty(),
    decreases m,
{
    if m > 0 {
        lemma_no_snaps_with_path(vms, snaps, path, (m - 1) as nat);
    }
}

/// One environment per Vagrantfile: after grouping the first `n` VMs, no
/// two groups share a Vagrantfile path, every VM's Vagrantfile has a group,
/// each group holds exactly the snapshots of the VMs of its Vagrantfile, in
/// index order, and is named by the environment of one of them.
pub proof fn one_group_per_vagrantfile(vms: Seq<VmInfoView>, snaps: Seq<VmSnapshotView>, n: nat)
    requires
        n <= vms.len(),
        n <= snaps.len(),
    ensures
        ({
            let gs = group_prefix(vms, snaps, n);
            &&& forall|j: int, k: int| 0 <= j < k < gs.len() ==> #[trigger] gs[j].path != #[trigger] gs[k].path
            &&& forall|i: int| 0 <= i < n ==> #[trigger] group_index(gs, vms[i].vagrantfile_path) < gs.len()
            &&& forall|k: int| 0 <= k < gs.len() ==> #[trigger] gs[k].vms == snaps_with_path(vms, snaps, gs[k].path, n)
            &&& forall|k: int| #![trigger gs[k]] 0 <= k < gs.len() ==> exists|i: int| 0 <= i < n && #[trigger] vms[i].vagrantfile_path == gs[k].path
                && gs[k].name == vms[i].environment
        }),
    decreases n,
{
    if n > 0 {
        let m = (n - 1) as nat;
        one_group_per_vagrantfile(vms, snaps, m);
        let g0 = group_prefix(vms, snaps, m);
        let gs = group_prefix(vms, snaps, n);
        let p = vms[m as int].vagrantfile_path;
        let k = group_index(g0, p);
        lemma_group_index_props(g0, p);
        if k < g0.len() {
            assert(gs.len() == g0.len());
            assert forall|j: int| 0 <= j < gs.len() implies #[trigger] gs[j].path == g0[j].path by {}
            assert forall|i: int| 0 <= i < n implies #[trigger] group_index(gs, vms[i].vagrantfile_path) < gs.len() by {
                assert(gs =~= g0.update(k as int, Group { vms: g0[k as int].vms.push(snaps[m as int]), ..g0[k as int] }));
                if i < m {
                    let q = vms[i].vagrantfile_path;
                    lemma_group_index_props(g0, q);
                    lemma_group_index_props(gs, q);
                    let gi = group_index(g0, q);
                    if group_index(gs, q) >= gs.len() {
                        assert(gs[gi as int].path == q);
                    }
                } else {
                    lemma_group_index_props(gs, p);
                    if group_index(gs, p) >= gs.len() {
                        assert(gs[k as int].path == p);
                    }
                }
            }
            assert forall|j: int| 0 <= j < gs.len() implies #[trigger] gs[j].vms == snaps_with_path(vms, snaps, gs[j].path, n) by {
                if j == k {
                    assert(gs[j].vms == g0[j].vms.push(snaps[m as int]));
                } else {
                    assert(gs[j] == g0[j]);
                    assert(g0[j].path != g0[k as int].path);
                }
            }
            assert forall|j: int| #![trigger gs[j]] 0 <= j < gs.len() implies exists|i: int| 0 <= i < n && #[trigger] vms[i].vagrantfile_path == gs[j].path
                && gs[j].name == vms[i].environment by {
                let i = choose|i: int| 0 <= i < m && #[trigger] vms[i].vagrantfile_path == g0[j].path
                    && g0[j].name == vms[i].environment;
                assert(vms[i].vagrantfile_path == gs[j].path && gs[j].name == vms[i].environment);
            }
        } else {
            assert forall|i: int| 0 <= i < m implies #[trigger] vms[i].vagrantfile_path != p by {
                let q = vms[i].vagrantfile_path;
                if q == p {
                    assert(group_index(g0, q) < g0.len());
                }
            }
            lemma_no_snaps_with_path(vms, snaps, p, m);
            let o = vms[first_with_domain(vms, snaps[m as int].domain_name) as int];
            let ng = Group { name: vms[m as int].environment, path: p, provider: o.provider, vms: seq![snaps[m as int]] };
            assert(gs == g0.push(ng));
            assert forall|j: int, l: int| 0 <= j < l < gs.len() implies #[trigger] gs[j].path != #[trigger] gs[l].path by {
                if l == g0.len() {
                    assert(gs[j] == g0[j]);
                } else {
                    assert(gs[j] == g0[j] && gs[l] == g0[l]);
                }
            }
            assert forall|i: int| 0 <= i < n implies #[trigger] group_index(gs, vms[i].vagrantfile_path) < gs.len() by {
                let q = vms[i].vagrantfile_path;
                lemma_group_index_props(gs, q);
                if i < m {
                    lemma_group_index_props(g0, q);
                    let gi = group_index(g0, q);
                    if group_index(gs, q) >= gs.len() {
                        assert(gs[gi as int].path == q);
                    }
                } else {
                    if group_index(gs, q) >= gs.len() {
                        assert(gs[g0.len() as int].path == q);
                    }
                }
            }
            assert forall|j: int| 0 <= j < gs.len() implies #[trigger] gs[j].vms == snaps_with_path(vms, snaps, gs[j].path, n) by {
                if j < g0.len() {
                    assert(gs[j] == g0[j]);
                    assert(g0[j].path != p) by {
                        if g0[j].path == p {
                            let i = choose|i: int| 0 <= i < m && #[trigger] vms[i].vagrantfile_path == g0[j].path
                                && g0[j].name == vms[i].environment;
                            assert(vms[i].vagrantfile_path == p);
                        }
                    }
                } else {
                    assert(snaps_with_path(vms, snaps, p, n) =~= seq![snaps[m as int]]);
                }
            }
            assert forall|j: int| #![trigger gs[j]] 0 <= j < gs.len() implies exists|i: int| 0 <= i < n && #[trigger] vms[i].vagrantfile_path == gs[j].path
                && gs[j].name == vms[i].environment by {
                if j < g0.len() {
                    let i = choose|i: int| 0 <= i < m && #[trigger] vms[i].vagrantfile_path == g0[j].path
                        && g0[j].name == vms[i].environment;
                    assert(gs[j] == g0[j]);
                    assert(vms[i].vagrantfile_path == gs[j].path && gs[j].name == vms[i].environment);
                } else {
                    assert(vms[m as int].vagrantfile_path == gs[j].path && gs[j].name == vms[m as int].environment);
                }
            }
        }
    }
}

/// Whether no two of `vms` share a domain name.
pub open spec fn distinct_domains(vms: Seq<VmInfoView>) -> bool {
    forall|i: int, j: int| 0 <= i < j < vms.len() ==> #[trigger] vms[i].domain_name != #[trigger] vms[j].domain_name
}

proof fn lemma_prefix_untouched(
    c: Caches,
    vms: Seq<VmInfoView>,
    stats: Map<Seq<char>, DomStats>,
    starts: Seq<Option<u64>>,
    now: u64,
    n: nat,
    x: Seq<char>,
)
    requires
        n <= vms.len(),
        forall|j: int| 0 <= j < n ==> #[trigger] vms[j].domain_name != x,
    ensures
        observe_prefix(c, vms, stats, starts, now, n).0.states.get(x) == c.states.get(x),
        observe_prefix(c, vms, stats, starts, now, n).0.changes.get(x) == c.changes.get(x),
    decreases n,
{
    if n > 0 {
        lemma_prefix_untouched(c, vms, stats, starts, now, (n - 1) as nat, x);
        assert(vms[n - 1].domain_name != x);
    }
}

proof fn lemma_prefix_at(
    c: Caches,
    vms: Seq<VmInfoView>,
    stats: Map<Seq<char>, DomStats>,
    starts: Seq<Option<u64>>,
    now: u64,
    n: nat,
    i: int,
)
    requires
        distinct_domains(vms),
        0 <= i < n <= vms.len(),
    ensures
        ({
            let o = observe_prefix(c, vms, stats, starts, now, n).0;
            let x = vms[i].domain_name;
            let st = effective_state(vms[i].state, stats.get(x));
            &&& o.states.contains_key(x) && o.states[x] == st
            &&& (!c.states.contains_key(x) || c.states[x] == st) ==> o.changes.get(x) == c.changes.get(x)
            &&& (c.states.contains_key(x) && c.states[x] != st) ==> o.changes.contains_key(x) && o.changes[x] == now
        }),
    decreases n,
{
    let x = vms[i].domain_name;
    if n == i + 1 {
        assert forall|j: int| 0 <= j < i implies #[trigger] vms[j].domain_name != x by {
            assert(vms[j].domain_name != vms[i].domain_name);
        }
        lemma_prefix_untouched(c, vms, stats, starts, now, i as nat, x);
    } else {
        lemma_prefix_at(c, vms, stats, starts, now, (n - 1) as nat, i);
        assert(vms[i].domain_name != vms[n - 1].domain_name);
    }
}

/// One poll keeps the state and change trackers right for every VM of
/// the index (domains being distinct): the state tracker holds the VM's
/// effective state; the change time stays as it was when the domain is
/// seen for the first time or in the same state as before, and becomes
/// `now` when it was last seen in another state. The trackers of domains
/// not in the index are left as they were.
pub proof fn poll_updates_state_caches(
    c: Caches,
    vms: Seq<VmInfoView>,
    stats: Map<Seq<char>, DomStats>,
    starts: Seq<Option<u64>>,
    now: u64,
    x: Seq<char>,
)
    requires
        distinct_domains(vms),
    ensures
        ({
            let o = observe_prefix(c, vms, stats, starts, now, vms.len()).0;
            &&& forall|i: int| 0 <= i < vms.len() && #[trigger] vms[i].domain_name == x ==> {
                let st = effective_state(vms[i].state, stats.get(x));
                &&& o.states.contains_key(x) && o.states[x] == st
                &&& (!c.states.contains_key(x) || c.states[x] == st) ==> o.changes.get(x) == c.changes.get(x)
                &&& (c.states.contains_key(x) && c.states[x] != st) ==> o.changes.contains_key(x) && o.changes[x] == now
            }
            &&& (forall|i: int| 0 <= i < vms.len() ==> #[trigger] vms[i].domain_name != x) ==> {
                &&& o.states.get(x) == c.states.get(x)
                &&& o.changes.get(x) == c.changes.get(x)
            }
        }),
{
    assert forall|i: int| 0 <= i < vms.len() && #[trigger] vms[i].domain_name == x implies ({
        let o = observe_prefix(c, vms, stats, starts, now, vms.len()).0;
        let st = effective_state(vms[i].state, stats.get(x));
        &&& o.states.contains_key(x) && o.states[x] == st
        &&& (!c.states.contains_key(x) || c.states[x] == st) ==> o.changes.get(x) == c.changes.get(x)
        &&& (c.states.contains_key(x) && c.states[x] != st) ==> o.changes.contains_key(x) && o.changes[x] == now
    }) by {
        lemma_prefix_at(c, vms, stats, starts, now, vms.len(), i);
    }
    if forall|i: int| 0 <= i < vms.len() ==> #[trigger] vms[i].domain_name != x {
        lemma_prefix_untouched(c, vms, stats, starts, now, vms.len(), x);
    }
}

proof fn lemma_prefix_cpu_untouched(
    c: Caches,
    vms: Seq<VmInfoView>,
    stats: Map<Seq<char>, DomStats>,
    starts: Seq<Option<u64>>,
    now: u64,
    n: nat,
    x: Seq<char>,
)
    requires
        n <= vms.len(),
        forall|j: int| 0 <= j < n ==> #[trigger] vms[j].domain_name != x,
    ensures
        observe_prefix(c, vms, stats, starts, now, n).0.cpu.get(x) == c.cpu.get(x),
    decreases n,
{
    if n > 0 {
        lemma_prefix_cpu_untouched(c, vms, stats, starts, now, (n - 1) as nat, x);
        assert(vms[n - 1].domain_name != x);
    }
}

/// The state a VM is shown in: the live state where `virsh` reports
/// running (1), paused (3), shutoff (5) or crashed (6), else the index's.
pub open spec fn shown_state(index_state: Seq<char>, s: Option<DomStats>) -> Seq<char> {
    match s {
        Some(d) => if d.state == 1 {
            "running"@
        } else if d.state == 3 {
            "paused"@
        } else if d.state == 5 {
            "shutoff"@
        } else if d.state == 6 {
            "crashed"@
        } else {
            index_state
        },
        None => index_state,
    }
}

/// A poll shows each VM of the index, in index order, with its counters as
/// `virsh` reported them for its domain (all zero when it reported none):
/// its name, domain, provider and box; its live state, and running exactly
/// when that state is `running`; its vCPUs; memory in use from the balloon
/// RSS, or the balloon's current size when there is no RSS, and the
/// balloon's maximum as the limit (KiB to bytes, wrapping at 64 bits);
/// bytes received, sent, read and written as reported; and the start time
/// read for it, kept only while it runs. When no two VMs share a domain,
/// its CPU usage is the CPU time used since the last reading of its domain
/// over the wall time passed, in billionths of a percent rounded down
/// (capped), and 0 without an earlier reading or when no time passed.
pub proof fn poll_snapshots_follow_counters(
    c: Caches,
    vms: Seq<VmInfoView>,
    stats: Map<Seq<char>, DomStats>,
    starts: Seq<Option<u64>>,
    now: u64,
    i: int,
)
    requires
        0 <= i < vms.len(),
    ensures
        ({
            let o = observe_prefix(c, vms, stats, starts, now, vms.len());
            let vm = vms[i];
            let snap = o.1[i];
            let st = stats.get(vm.domain_name);
            let state = shown_state(vm.state, st);
            &&& o.1.len() == vms.len()
            &&& snap.name == vm.name && snap.domain_name == vm.domain_name
            &&& snap.provider == vm.provider && snap.box_name == vm.box_name
            &&& snap.state == state
            &&& snap.running == (state == "running"@)
            &&& snap.started_at == (if state == "running"@ && i < starts.len() { starts[i] } else { None })
            &&& match st {
                Some(s) => {
                    &&& snap.cpus == s.vcpu_current
                    &&& snap.mem_bytes == (match s.balloon_rss {
                        Some(rss) => wrapped(rss as nat * 1024),
                        None => wrapped(s.balloon_current as nat * 1024),
                    })
                    &&& snap.mem_limit == wrapped(s.balloon_maximum as nat * 1024)
                    &&& snap.net_rx == s.net_rx_bytes && snap.net_tx == s.net_tx_bytes
                    &&& snap.blk_read == s.blk_rd_bytes && snap.blk_write == s.blk_wr_bytes
                    &&& distinct_domains(vms) ==> snap.cpu_percent_e9 == (match c.cpu.get(vm.domain_name) {
                        Some(prev) => if now > prev.1 {
                            capped(
                                ((if s.cpu_time >= prev.0 { s.cpu_time - prev.0 } else { 0 }) as nat
                                    * 100_000_000_000) / ((now - prev.1) as nat),
                            )
                        } else {
                            0
                        },
                        None => 0,
                    })
                },
                None => {
                    &&& snap.cpus == 0 && snap.mem_bytes == 0 && snap.mem_limit == 0
                    &&& snap.net_rx == 0 && snap.net_tx == 0 && snap.blk_read == 0 && snap.blk_write == 0
                    &&& snap.cpu_percent_e9 == 0
                },
            }
        }),
{
    lemma_snapshot_at(c, vms, stats, starts, now, vms.len(), i);
}

proof fn lemma_snapshot_at(
    c: Caches,
    vms: Seq<VmInfoView>,
    stats: Map<Seq<char>, DomStats>,
    starts: Seq<Option<u64>>,
    now: u64,
    n: nat,
    i: int,
)
    requires
        0 <= i < n <= vms.len(),
    ensures
        ({
            let o = observe_prefix(c, vms, stats, starts, now, n);
            let prev = observe_prefix(c, vms, stats, starts, now, i as nat);
            &&& o.1.len() == n
            &&& o.1[i] == observe_vm(prev.0, vms[i], stats.get(vms[i].domain_name), start_at(starts, i), now).1
            &&& distinct_domains(vms) ==> prev.0.cpu.get(vms[i].domain_name) == c.cpu.get(vms[i].domain_name)
        }),
    decreases n,
{
    lemma_observe_prefix_shape(c, vms, stats, starts, now, n);
    if n > i + 1 {
        lemma_snapshot_at(c, vms, stats, starts, now, (n - 1) as nat, i);
    }
    if distinct_domains(vms) {
        assert forall|j: int| 0 <= j < i implies #[trigger] vms[j].domain_name != vms[i].domain_name by {
            assert(vms[j].domain_name != vms[i].domain_name);
        }
        lemma_prefix_cpu_untouched(c, vms, stats, starts, now, i as nat, vms[i].domain_name);
    }
}

} // verus!
