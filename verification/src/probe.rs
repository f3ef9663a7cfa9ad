//! Choosing the libvirt connection URI: the decisions between the probes
//! that the front end runs (reading the environment, running `virsh`).

use vstd::prelude::*;

use crate::text::{chars_of, contains_chars, contains_seq, string_from, trim_bounds, trimmed};

verus! {

/// The URI of the system libvirt daemon, where vagrant-libvirt VMs live.
pub const SYSTEM_URI: &'static str = "qemu:///system";

/// Where the URI search stands; each state but the last names the probe to
/// run next.
#[derive(Debug, Clone)]
pub enum UriProbe {
    /// Read `$LIBVIRT_DEFAULT_URI`.
    CheckEnv,
    /// Ask whether `virsh --connect qemu:///system domstats` lists a domain.
    CheckSystemDomains,
    /// Ask whether `virsh --connect qemu:///system version` succeeds.
    CheckSystemVersion,
    /// Run `virsh uri` for virsh's default.
    AskDefault,
    /// The search is over.
    Resolved(Option<String>),
}

/// What a probe found.
pub enum ProbeReply {
    /// The environment variable, when it is set and valid Unicode.
    EnvVar(Option<String>),
    /// Whether the `virsh` check succeeded.
    Succeeded(bool),
    /// The output of `virsh uri` when it ran successfully.
    DefaultUri(Option<String>),
}

/// The state after `reply` to the probe that `state` names: a non-empty
/// environment URI is taken as it is; else the system daemon, if it has
/// domains or at least answers; else virsh's default URI (trimmed), if it
/// is not empty; else none. A reply that does not fit the probe, or one
/// after the search is over, changes nothing.
pub open spec fn probe_next(state: UriProbe, reply: ProbeReply) -> Option<Option<Seq<char>>> {
    match (state, reply) {
        (UriProbe::CheckEnv, ProbeReply::EnvVar(Some(u))) => if u@.len() > 0 {
            Some(Some(u@))
        } else {
            None
        },
        (UriProbe::CheckSystemDomains, ProbeReply::Succeeded(true)) => Some(Some(SYSTEM_URI@)),
        (UriProbe::CheckSystemVersion, ProbeReply::Succeeded(true)) => Some(Some(SYSTEM_URI@)),
        (UriProbe::AskDefault, ProbeReply::DefaultUri(Some(out))) => if trimmed(out@).len() > 0 {
            Some(Some(trimmed(out@)))
        } else {
            Some(None)
        },
        (UriProbe::AskDefault, _) => Some(None),
        _ => None,
    }
}

/// The probe that comes after `state` when it found nothing.
pub open spec fn probe_after(state: UriProbe) -> UriProbe {
    match state {
        UriProbe::CheckEnv => UriProbe::CheckSystemDomains,
        UriProbe::CheckSystemDomains => UriProbe::CheckSystemVersion,
        UriProbe::CheckSystemVersion => UriProbe::AskDefault,
        _ => state,
    }
}

/// Whether `reply` answers the probe `state` names.
pub open spec fn reply_fits(state: UriProbe, reply: ProbeReply) -> bool {
    match (state, reply) {
        (UriProbe::CheckEnv, ProbeReply::EnvVar(_)) => true,
        (UriProbe::CheckSystemDomains, ProbeReply::Succeeded(_)) => true,
        (UriProbe::CheckSystemVersion, ProbeReply::Succeeded(_)) => true,
        (UriProbe::AskDefault, ProbeReply::DefaultUri(_)) => true,
        _ => false,
    }
}

/// The plain values of a probe state's result.
pub open spec fn resolved_view(s: UriProbe) -> Option<Option<Seq<char>>> {
    match s {
        UriProbe::Resolved(Some(u)) => Some(Some(u@)),
        UriProbe::Resolved(None) => Some(None),
        _ => None,
    }
}

/// Advances the URI search by one probe's reply.
pub fn advance_probe(state: UriProbe, reply: ProbeReply) -> (r: UriProbe)
    ensures
        reply_fits(state, reply) && !(state is Resolved) ==> match probe_next(state, reply) {
            Some(res) => resolved_view(r) == Some(res),
            None => r == probe_after(state),
        },
        !reply_fits(state, reply) || state is Resolved ==> r == state,
{
    match (state, reply) {
        (UriProbe::CheckEnv, ProbeReply::EnvVar(Some(u))) => {
            let v = chars_of(u.as_str());
            if v.len() > 0 {
                UriProbe::Resolved(Some(u))
            } else {
                UriProbe::CheckSystemDomains
            }
        },
        (UriProbe::CheckEnv, ProbeReply::EnvVar(None)) => UriProbe::CheckSystemDomains,
        (UriProbe::CheckSystemDomains, ProbeReply::Succeeded(found)) => {
            if found {
                UriProbe::Resolved(Some(system_uri()))
            } else {
                UriProbe::CheckSystemVersion
            }
        },
        (UriProbe::CheckSystemVersion, ProbeReply::Succeeded(ok)) => {
            if ok {
                UriProbe::Resolved(Some(system_uri()))
            } else {
                UriProbe::AskDefault
            }
        },
        (UriProbe::AskDefault, ProbeReply::DefaultUri(Some(out))) => UriProbe::Resolved(trimmed_nonempty(out.as_str())),
        (UriProbe::AskDefault, ProbeReply::DefaultUri(None)) => UriProbe::Resolved(None),
        (s, _) => s,
    }
}

fn system_uri() -> (r: String)
    ensures
        r@ == SYSTEM_URI@,
{
    crate::text::string_of(SYSTEM_URI)
}

/// `text` trimmed of whitespace, unless nothing is left.
pub fn trimmed_nonempty(text: &str) -> (r: Option<String>)
    ensures
        match r {
            Some(s) => trimmed(text@).len() > 0 && s@ == trimmed(text@),
            None => trimmed(text@).len() == 0,
        },
{
    let v = chars_of(text);
    assert(v@.subrange(0, v@.len() as int) =~= v@);
    let (a, b) = trim_bounds(v.as_slice(), 0, v.len());
    if a == b {
        None
    } else {
        Some(string_from(v.as_slice(), a, b))
    }
}

/// Whether `virsh domstats` output lists at least one domain.
pub fn has_domain_lines(stdout: &str) -> (r: bool)
    ensures
        r == contains_seq(stdout@, "Domain: '"@),
{
    let v = chars_of(stdout);
    let p = chars_of("Domain: '");
    contains_chars(v.as_slice(), p.as_slice())
}

/// The arguments that select the libvirt connection for a `virsh` call:
/// `--connect <uri>` when a URI is known, none otherwise.
pub fn connect_args(uri: &Option<String>) -> (r: Vec<String>)
    ensures
        match uri {
            Some(u) => r@.len() == 2 && r@[0]@ == "--connect"@ && r@[1]@ == u@,
            None => r@.len() == 0,
        },
{
    let mut r: Vec<String> = Vec::new();
    match uri {
        Some(u) => {
            r.push(crate::text::string_of("--connect"));
            r.push(u.clone());
        },
        None => {},
    }
    r
}

/// The URI search ends after at most four replies that fit: three probes
/// that find nothing lead from the start to asking virsh's default, and
/// every answer to that ends the search.
pub proof fn probe_ends_within_four_steps()
    ensures
        probe_after(probe_after(probe_after(UriProbe::CheckEnv))) == UriProbe::AskDefault,
        forall|reply: ProbeReply| reply_fits(UriProbe::AskDefault, reply) ==> #[trigger] probe_next(
            UriProbe::AskDefault,
            reply,
        ) is Some,
{
}

/// A set, non-empty `$LIBVIRT_DEFAULT_URI` is used as it is.
pub proof fn env_uri_wins(u: String)
    requires
        u@.len() > 0,
    ensures
        probe_next(UriProbe::CheckEnv, ProbeReply::EnvVar(Some(u))) == Some(Some(u@)),
{
}

} // verus!
