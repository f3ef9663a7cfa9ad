//! Vagrant's machine index as the library sees it, the names derived from
//! it, and the state of the libvirt connection.

use vstd::prelude::*;

use crate::paths::{file_name, file_name_of, join_path, join_rel};
use crate::text::{push_str, string_of};

verus! {

/// Three-state connection model.
#[derive(Debug, Clone, Copy, PartialEq, Eq, Structural)]
pub enum ConnectionState {
    /// Index readable + virsh works.
    Connected,
    /// Index readable + virsh fails.
    IndexOnly,
    /// Index not found / unreadable.
    Disconnected,
}

/// What the machine offers for querying VMs.
#[derive(Debug, Clone)]
pub struct ProviderSupport {
    pub has_virsh: bool,
    /// Resolved libvirt connection URI (e.g. "qemu:///system"), passed as
    /// `--connect <uri>` to every virsh call.
    pub virsh_uri: Option<String>,
}

/// One machine of the machine index, as read from its JSON.
#[derive(Debug, Clone)]
pub struct MachineEntry {
    pub name: String,
    pub provider: String,
    pub state: Option<String>,
    pub vagrantfile_path: Option<String>,
    /// `extra_data.box.name`, where present.
    pub box_name: Option<String>,
}

/// A VM known from the machine index.
#[derive(Debug, Clone)]
pub struct VmInfo {
    pub name: String,
    pub domain_name: String,
    pub provider: String,
    pub state: String,
    pub environment: String,
    pub vagrantfile_path: String,
    pub box_name: String,
}

/// A VM of the machine index as plain values.
pub struct VmInfoView {
    pub name: Seq<char>,
    pub domain_name: Seq<char>,
    pub provider: Seq<char>,
    pub state: Seq<char>,
    pub environment: Seq<char>,
    pub vagrantfile_path: Seq<char>,
    pub box_name: Seq<char>,
}

impl View for VmInfo {
    type V = VmInfoView;

    open spec fn view(&self) -> VmInfoView {
        VmInfoView {
            name: self.name@,
            domain_name: self.domain_name@,
            provider: self.provider@,
            state: self.state@,
            environment: self.environment@,
            vagrantfile_path: self.vagrantfile_path@,
            box_name: self.box_name@,
        }
    }
}

/// The libvirt domain name of VM `vm_name` of the Vagrantfile at
/// `vagrantfile_path`: `<dir_name>_<vm_name>`.
pub open spec fn domain_name_of(vagrantfile_path: Seq<char>, vm_name: Seq<char>) -> Seq<char> {
    let dir = match file_name_of(vagrantfile_path) {
        Some(d) => d,
        None => Seq::empty(),
    };
    dir + seq!['_'] + vm_name
}

/// Derives the libvirt domain name: `<dir_name>_<vm_name>`, where the
/// directory name is the last component of the Vagrantfile path (empty if
/// it has none).
pub fn derive_domain_name(vagrantfile_path: &str, vm_name: &str) -> (r: String)
    ensures
        r@ == domain_name_of(vagrantfile_path@, vm_name@),
{
    let mut r = match file_name(vagrantfile_path) {
        Some(d) => d,
        None => String::new(),
    };
    push_str(&mut r, "_");
    proof {
        reveal_strlit("_");
    }
    assert("_"@ =~= seq!['_']);
    push_str(&mut r, vm_name);
    r
}

/// The VM that a machine-index entry describes.
pub open spec fn vm_info_of(e_name: Seq<char>, e_provider: Seq<char>, e_state: Option<Seq<char>>,
    e_path: Option<Seq<char>>, e_box: Option<Seq<char>>) -> VmInfoView {
    let path = match e_path {
        Some(p) => p,
        None => Seq::empty(),
    };
    VmInfoView {
        name: e_name,
        domain_name: domain_name_of(path, e_name),
        provider: e_provider,
        state: match e_state {
            Some(s) => s,
            None => "unknown"@,
        },
        environment: match file_name_of(path) {
            Some(f) => f,
            None => path,
        },
        vagrantfile_path: path,
        box_name: match e_box {
            Some(b) => b,
            None => Seq::empty(),
        },
    }
}

/// The plain values of an optional string.
pub open spec fn opt_view(s: Option<String>) -> Option<Seq<char>> {
    match s {
        Some(x) => Some(x@),
        None => None,
    }
}

impl MachineEntry {
    /// The entry's VM: a missing Vagrantfile path is empty, the environment
    /// is the path's last component (the whole path if it has none), a
    /// missing state is `unknown`, a missing box name empty.
    pub fn to_vm_info(self) -> (r: VmInfo)
        ensures
            r@ == vm_info_of(self.name@, self.provider@, opt_view(self.state), opt_view(self.vagrantfile_path),
                opt_view(self.box_name)),
    {
        let vagrantfile_path = match self.vagrantfile_path {
            Some(p) => p,
            None => String::new(),
        };
        let environment = match file_name(vagrantfile_path.as_str()) {
            Some(f) => f,
            None => vagrantfile_path.clone(),
        };
        let domain_name = derive_domain_name(vagrantfile_path.as_str(), self.name.as_str());
        let box_name = match self.box_name {
            Some(b) => b,
            None => String::new(),
        };
        let state = match self.state {
            Some(s) => s,
            None => string_of("unknown"),
        };
        VmInfo {
            name: self.name,
            domain_name,
            provider: self.provider,
            state,
            environment,
            vagrantfile_path,
            box_name,
        }
    }
}

/// The VMs of a machine index, one per entry, in the entries' order.
pub fn vm_infos_from_entries(entries: Vec<MachineEntry>) -> (r: Vec<VmInfo>)
    ensures
        r@.len() == entries@.len(),
        forall|i: int| 0 <= i < r@.len() ==> #[trigger] r@[i]@ == vm_info_of(entries@[i].name@,
            entries@[i].provider@, opt_view(entries@[i].state), opt_view(entries@[i].vagrantfile_path),
            opt_view(entries@[i].box_name)),
{
    let mut entries = entries;
    let ghost orig = entries@;
    let mut rev: Vec<VmInfo> = Vec::new();
    while entries.len() > 0
        invariant
            entries@ == orig.subrange(0, entries@.len() as int),
            rev@.len() + entries@.len() == orig.len(),
            forall|i: int| 0 <= i < rev@.len() ==> #[trigger] rev@[i]@ == vm_info_of(
                orig[orig.len() - 1 - i].name@, orig[orig.len() - 1 - i].provider@,
                opt_view(orig[orig.len() - 1 - i].state), opt_view(orig[orig.len() - 1 - i].vagrantfile_path),
                opt_view(orig[orig.len() - 1 - i].box_name)),
        decreases entries@.len(),
    {
        let e = entries.pop().unwrap();
        assert(entries@ =~= orig.subrange(0, entries@.len() as int));
        rev.push(e.to_vm_info());
    }
    let mut r: Vec<VmInfo> = Vec::new();
    while rev.len() > 0
        invariant
            r@.len() + rev@.len() == orig.len(),
            forall|i: int| 0 <= i < rev@.len() ==> #[trigger] rev@[i]@ == vm_info_of(
                orig[orig.len() - 1 - i].name@, orig[orig.len() - 1 - i].provider@,
                opt_view(orig[orig.len() - 1 - i].state), opt_view(orig[orig.len() - 1 - i].vagrantfile_path),
                opt_view(orig[orig.len() - 1 - i].box_name)),
            forall|i: int| 0 <= i < r@.len() ==> #[trigger] r@[i]@ == vm_info_of(orig[i].name@,
                orig[i].provider@, opt_view(orig[i].state), opt_view(orig[i].vagrantfile_path),
                opt_view(orig[i].box_name)),
        decreases rev@.len(),
    {
        let v = rev.pop().unwrap();
        r.push(v);
    }
    r
}

/// Where the machine index lives: under `$VAGRANT_HOME` when it is set,
/// else under `.vagrant.d` in the home directory, at `data/machine-index/index`.
pub open spec fn machine_index_path_of(vagrant_home: Option<Seq<char>>, home: Option<Seq<char>>) -> Option<Seq<char>> {
    match vagrant_home {
        Some(vh) => Some(join_rel(vh, "data/machine-index/index"@)),
        None => match home {
            Some(h) => Some(join_rel(join_rel(h, ".vagrant.d"@), "data/machine-index/index"@)),
            None => None,
        },
    }
}

/// The path of the machine-index file, given `$VAGRANT_HOME` and the home
/// directory; none when neither is known.
pub fn machine_index_path(vagrant_home: Option<String>, home: Option<String>) -> (r: Option<String>)
    ensures
        opt_view(r) == machine_index_path_of(opt_view(vagrant_home), opt_view(home)),
{
    match vagrant_home {
        Some(vh) => Some(join_path(vh.as_str(), "data/machine-index/index")),
        None => match home {
            Some(h) => {
                let base = join_path(h.as_str(), ".vagrant.d");
                Some(join_path(base.as_str(), "data/machine-index/index"))
            },
            None => None,
        },
    }
}

} // verus!
