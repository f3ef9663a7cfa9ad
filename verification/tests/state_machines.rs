use vagrant_top::app_state::{App, AppEvent, Key, KeyPress};
use vagrant_top::config::{ColumnVisibility, SortColumn, SortConfig};
use vagrant_top::domstats::parse_domstats_output;
use vagrant_top::model::{VagrantEnvironment, ViewMode};
use vagrant_top::probe::{advance_probe, connect_args, has_domain_lines, trimmed_nonempty, ProbeReply, UriProbe};
use vagrant_top::sorting::{stable_sort, stable_sort_by_names};
use vagrant_top::tracker::{cpu_usage, Tracker};
use vagrant_top::vagrant::{vm_infos_from_entries, ConnectionState, MachineEntry};

fn entry(name: &str, path: &str, state: &str) -> MachineEntry {
    MachineEntry {
        name: name.to_string(),
        provider: "libvirt".to_string(),
        state: Some(state.to_string()),
        vagrantfile_path: Some(path.to_string()),
        box_name: None,
    }
}

fn env(name: &str, vms: usize, cpu: u64) -> VagrantEnvironment {
    let mut e = VagrantEnvironment::aggregate(name.to_string(), String::new(), String::new(), Vec::new());
    e.total_cpu_e9 = cpu;
    for _ in 0..vms {
        e.vms.push(vagrant_top::model::VmSnapshot {
            name: String::new(),
            domain_name: String::new(),
            provider: String::new(),
            box_name: String::new(),
            state: String::new(),
            running: false,
            cpu_percent_e9: 0,
            cpus: 0,
            mem_bytes: 0,
            mem_limit: 0,
            net_rx: 0,
            net_tx: 0,
            blk_read: 0,
            blk_write: 0,
            started_at: None,
        });
    }
    e
}

fn key(c: char) -> AppEvent {
    AppEvent::Key(KeyPress { key: Key::Char(c), ctrl: false })
}

fn names(app: &App) -> Vec<String> {
    app.environments.iter().map(|e| e.name.clone()).collect()
}

#[test]
fn column_toggles() {
    let mut c = ColumnVisibility::default();
    assert!(c.vms && c.cpu && c.mem && !c.net && !c.io && c.time_up && c.last_chg);
    c.toggle(4);
    assert!(c.net);
    c.toggle(4);
    assert_eq!(c, ColumnVisibility::default());
    c.toggle(0);
    c.toggle(8);
    assert_eq!(c, ColumnVisibility::default());
    c.toggle(1);
    assert!(!c.vms);
}

#[test]
fn sort_column_cycle() {
    let mut c = SortColumn::Name;
    for _ in 0..8 {
        c = c.next();
    }
    assert_eq!(c, SortColumn::Name);
    assert_eq!(SortColumn::Name.prev(), SortColumn::LastChg);
    assert_eq!(SortColumn::LastChg.next(), SortColumn::Name);
    assert_eq!(SortColumn::Cpu.next().prev(), SortColumn::Cpu);
    assert_eq!(SortColumn::TimeUp.label(), "TIME-UP");
    assert_eq!(SortColumn::Name.label(), "ENVIRONMENT");
    assert_eq!(SortConfig::default(), SortConfig { column: SortColumn::Name, ascending: true });
}

#[test]
fn cpu_usage_between_readings() {
    assert_eq!(cpu_usage(None, 5, 10), 0);
    assert_eq!(cpu_usage(Some((1_000_000_000, 0)), 2_000_000_000, 2_000_000_000), 50_000_000_000);
    assert_eq!(cpu_usage(Some((0, 10)), 100, 10), 0);
    assert_eq!(cpu_usage(Some((500, 0)), 100, 10), 0);
    assert_eq!(cpu_usage(Some((0, 0)), 19, 100_000), 19_000_000);
    assert_eq!(cpu_usage(Some((0, 0)), u64::MAX, 1), u64::MAX);
}

#[test]
fn tracker_polls() {
    let mut t = Tracker::new();
    assert!(t.needs_index(false));
    let vms = vm_infos_from_entries(vec![
        entry("default", "/home/u/proj", "running"),
        entry("db", "/home/u/proj", "poweroff"),
        entry("web", "/srv/site", "running"),
    ]);
    t.install_index(vms);
    assert!(!t.needs_index(false));
    assert!(t.needs_index(true));
    assert!(t.has_vms());

    let out1 = "Domain: 'proj_default'\n state.state=1\n cpu.time=1000000000\n balloon.current=1024\n balloon.maximum=2048\nDomain: 'site_web'\n state.state=5\n";
    let stats1 = parse_domstats_output(out1);
    assert_eq!(t.start_time_queries(&stats1), vec![Some("proj_default".to_string()), None, None]);
    let envs = t.observe(&stats1, &vec![Some(1000), Some(2000), Some(3000)], 1_000_000_000);
    assert_eq!(envs.len(), 2);
    assert_eq!(envs[0].name, "proj");
    assert_eq!(envs[0].path, "/home/u/proj");
    assert_eq!(envs[0].vms.len(), 2);
    assert_eq!(envs[0].vms[0].state, "running");
    assert_eq!(envs[0].vms[0].started_at, Some(1000));
    assert_eq!(envs[0].vms[0].mem_bytes, 1024 * 1024);
    assert_eq!(envs[0].vms[0].mem_limit, 2048 * 1024);
    assert_eq!(envs[0].vms[0].cpu_percent_e9, 0);
    assert_eq!(envs[0].vms[1].state, "poweroff");
    assert_eq!(envs[0].vms[1].started_at, None);
    assert_eq!(envs[0].oldest_started_at, Some(1000));
    assert_eq!(envs[0].newest_started_at, None);
    assert_eq!(envs[1].name, "site");
    assert_eq!(envs[1].vms[0].state, "shutoff");
    assert_eq!(envs[1].vms[0].running, false);

    // Second poll: web starts, default used half a CPU.
    let out2 = "Domain: 'proj_default'\n state.state=1\n cpu.time=2000000000\nDomain: 'site_web'\n state.state=1\n";
    let stats2 = parse_domstats_output(out2);
    let envs = t.observe(&stats2, &vec![Some(1000), None, Some(4000)], 3_000_000_000);
    assert_eq!(envs[0].vms[0].cpu_percent_e9, 50_000_000_000);
    assert_eq!(envs[0].newest_started_at, None);
    assert_eq!(envs[1].vms[0].state, "running");
    assert_eq!(envs[1].newest_started_at, Some(3_000_000_000));
    assert_eq!(envs[1].oldest_started_at, Some(4000));
}

#[test]
fn tracker_prunes_vanished_domains() {
    let mut t = Tracker::new();
    t.install_index(vm_infos_from_entries(vec![entry("a", "/p/x", "running")]));
    let s1 = parse_domstats_output("Domain: 'x_a'\n state.state=1\n");
    t.observe(&s1, &vec![], 1);
    let s2 = parse_domstats_output("Domain: 'x_a'\n state.state=5\n");
    let envs = t.observe(&s2, &vec![], 2);
    assert_eq!(envs[0].newest_started_at, Some(2));
    t.install_index(vm_infos_from_entries(vec![entry("b", "/p/x", "running")]));
    t.install_index(vm_infos_from_entries(vec![entry("a", "/p/x", "running")]));
    let envs = t.observe(&s2, &vec![], 3);
    assert_eq!(envs[0].newest_started_at, None);
}

#[test]
fn tracker_groups_by_vagrantfile() {
    let mut t = Tracker::new();
    t.install_index(vm_infos_from_entries(vec![
        entry("web", "/a/proj", "running"),
        entry("db", "/b/proj", "running"),
        entry("cache", "/a/proj", "poweroff"),
    ]));
    let stats = parse_domstats_output("");
    let envs = t.observe(&stats, &vec![], 0);
    assert_eq!(envs.len(), 2);
    assert_eq!(envs[0].name, "proj");
    assert_eq!(envs[0].path, "/a/proj");
    let names: Vec<&str> = envs[0].vms.iter().map(|v| v.name.as_str()).collect();
    assert_eq!(names, vec!["web", "cache"]);
    assert_eq!(envs[1].name, "proj");
    assert_eq!(envs[1].path, "/b/proj");
    assert_eq!(envs[1].vms.len(), 1);
    assert_eq!(envs[1].vms[0].name, "db");
}

#[test]
fn tracker_without_index() {
    let mut t = Tracker::new();
    assert!(!t.has_vms());
    let stats = parse_domstats_output("");
    assert_eq!(t.observe(&stats, &vec![], 0).len(), 0);
}

#[test]
fn stable_sort_by_name_ignores_case() {
    let envs = vec![env("Gamma", 1, 0), env("alpha", 1, 0), env("Beta", 1, 0)];
    let sorted = stable_sort(envs, SortConfig { column: SortColumn::Name, ascending: true });
    let n: Vec<&str> = sorted.iter().map(|e| e.name.as_str()).collect();
    assert_eq!(n, vec!["alpha", "Beta", "Gamma"]);
}

#[test]
fn stable_sort_by_given_lowercase_names() {
    let envs = vec![env("Gamma", 1, 0), env("alpha", 1, 0), env("Beta", 1, 0)];
    let lowered = vec!["gamma".to_string(), "alpha".to_string(), "beta".to_string()];
    let sorted = stable_sort_by_names(envs, lowered, SortConfig { column: SortColumn::Name, ascending: true });
    let n: Vec<&str> = sorted.iter().map(|e| e.name.as_str()).collect();
    assert_eq!(n, vec!["alpha", "Beta", "Gamma"]);
    let envs = vec![env("x", 1, 0), env("y", 1, 0), env("z", 1, 0)];
    let lowered = vec!["b".to_string(), "a".to_string(), "b".to_string()];
    let sorted = stable_sort_by_names(envs, lowered, SortConfig { column: SortColumn::Name, ascending: false });
    let n: Vec<&str> = sorted.iter().map(|e| e.name.as_str()).collect();
    assert_eq!(n, vec!["x", "z", "y"]);
}

#[test]
fn stable_sort_keeps_ties_in_order() {
    let envs = vec![env("a", 2, 0), env("b", 1, 0), env("c", 2, 0), env("d", 1, 0)];
    let asc = stable_sort(envs, SortConfig { column: SortColumn::Vms, ascending: true });
    let n: Vec<&str> = asc.iter().map(|e| e.name.as_str()).collect();
    assert_eq!(n, vec!["b", "d", "a", "c"]);
    let desc = stable_sort(asc, SortConfig { column: SortColumn::Vms, ascending: false });
    let n: Vec<&str> = desc.iter().map(|e| e.name.as_str()).collect();
    assert_eq!(n, vec!["a", "c", "b", "d"]);
    let again = stable_sort(desc, SortConfig { column: SortColumn::Vms, ascending: false });
    let n: Vec<&str> = again.iter().map(|e| e.name.as_str()).collect();
    assert_eq!(n, vec!["a", "c", "b", "d"]);
}

#[test]
fn app_navigation_and_views() {
    let mut app = App::new(false, 0);
    assert_eq!(app.selected(), 0);
    app.handle_event(key('j'), 0);
    assert_eq!(app.selected(), 0);
    app.handle_event(AppEvent::VagrantUpdate(vec![env("b", 1, 0), env("a", 1, 0), env("c", 1, 0)]), 10);
    assert_eq!(names(&app), vec!["a", "b", "c"]);
    assert_eq!(app.connection, ConnectionState::Connected);
    app.handle_event(key('j'), 10);
    app.handle_event(AppEvent::Key(KeyPress { key: Key::Down, ctrl: false }), 10);
    app.handle_event(key('j'), 10);
    assert_eq!(app.selected(), 2);
    app.handle_event(key('k'), 10);
    assert_eq!(app.selected(), 1);
    app.handle_event(key('g'), 10);
    assert_eq!(app.selected(), 0);
    app.handle_event(AppEvent::Key(KeyPress { key: Key::Up, ctrl: false }), 10);
    assert_eq!(app.selected(), 0);
    app.handle_event(key('G'), 10);
    assert_eq!(app.selected(), 2);
    app.handle_event(AppEvent::VagrantUpdate(vec![env("z", 1, 0)]), 20);
    assert_eq!(app.selected(), 0);
    app.handle_event(AppEvent::Key(KeyPress { key: Key::Tab, ctrl: false }), 20);
    assert_eq!(app.view, ViewMode::Chart);
    app.handle_event(AppEvent::Key(KeyPress { key: Key::Tab, ctrl: false }), 20);
    assert_eq!(app.view, ViewMode::Table);
    app.handle_event(key('?'), 20);
    assert!(app.show_help);
    app.handle_event(key('5'), 20);
    assert!(app.columns.io);
    app.handle_event(key('9'), 20);
    assert_eq!(app.columns.io, true);
    assert!(!app.should_quit);
    app.handle_event(AppEvent::Key(KeyPress { key: Key::Char('c'), ctrl: true }), 20);
    assert!(app.should_quit);
}

#[test]
fn app_sort_keys() {
    let mut app = App::new(true, 0);
    app.handle_event(AppEvent::VagrantUpdate(vec![env("a", 1, 300), env("b", 3, 100), env("c", 2, 200)]), 0);
    app.handle_event(key('s'), 0);
    assert_eq!(app.sort.column, SortColumn::Vms);
    assert_eq!(names(&app), vec!["a", "c", "b"]);
    app.handle_event(key('r'), 0);
    assert!(!app.sort.ascending);
    assert_eq!(names(&app), vec!["b", "c", "a"]);
    app.handle_event(key('s'), 0);
    assert_eq!(app.sort.column, SortColumn::Cpu);
    assert_eq!(names(&app), vec!["a", "c", "b"]);
    app.handle_event(key('S'), 0);
    app.handle_event(key('S'), 0);
    assert_eq!(app.sort.column, SortColumn::Name);
    assert_eq!(names(&app), vec!["c", "b", "a"]);
    app.handle_event(key('q'), 0);
    assert!(app.should_quit);
}

#[test]
fn app_ticks_errors_and_drawing() {
    let mut app = App::new(false, 1_000_000_000);
    assert!(app.take_dirty());
    assert!(!app.take_dirty());
    app.handle_event(AppEvent::Tick, 1_500_000_000);
    assert!(!app.take_dirty());
    app.handle_event(AppEvent::Tick, 3_200_000_000);
    assert_eq!(app.last_poll_secs(3_200_000_000), 2);
    assert!(app.take_dirty());
    app.handle_event(AppEvent::Tick, 3_300_000_000);
    assert!(!app.take_dirty());
    app.handle_event(AppEvent::Resize(80, 24), 0);
    assert!(app.take_dirty());
    app.handle_event(AppEvent::VagrantError { message: "virsh failed".to_string(), index_available: true }, 0);
    assert_eq!(app.connection, ConnectionState::IndexOnly);
    assert_eq!(app.error_msg.as_deref(), Some("virsh failed"));
    app.handle_event(AppEvent::VagrantError { message: "no index".to_string(), index_available: false }, 0);
    assert_eq!(app.connection, ConnectionState::Disconnected);
    app.handle_event(AppEvent::VagrantUpdate(vec![]), 4_000_000_000);
    assert_eq!(app.error_msg, None);
    assert_eq!(app.last_poll_secs(4_000_000_000), 0);
    assert_eq!(app.last_poll_secs(0), 0);
}

#[test]
fn uri_probe() {
    let s = advance_probe(UriProbe::CheckEnv, ProbeReply::EnvVar(Some("qemu:///session".to_string())));
    assert!(matches!(s, UriProbe::Resolved(Some(ref u)) if u == "qemu:///session"));
    let s = advance_probe(UriProbe::CheckEnv, ProbeReply::EnvVar(Some(String::new())));
    assert!(matches!(s, UriProbe::CheckSystemDomains));
    let s = advance_probe(s, ProbeReply::Succeeded(false));
    assert!(matches!(s, UriProbe::CheckSystemVersion));
    let s2 = advance_probe(UriProbe::CheckSystemDomains, ProbeReply::Succeeded(true));
    assert!(matches!(s2, UriProbe::Resolved(Some(ref u)) if u == "qemu:///system"));
    let s = advance_probe(s, ProbeReply::Succeeded(false));
    assert!(matches!(s, UriProbe::AskDefault));
    let s3 = advance_probe(UriProbe::AskDefault, ProbeReply::DefaultUri(Some(" qemu:///session\n".to_string())));
    assert!(matches!(s3, UriProbe::Resolved(Some(ref u)) if u == "qemu:///session"));
    let s4 = advance_probe(s, ProbeReply::DefaultUri(Some("  \n".to_string())));
    assert!(matches!(s4, UriProbe::Resolved(None)));
    let s5 = advance_probe(UriProbe::CheckEnv, ProbeReply::Succeeded(true));
    assert!(matches!(s5, UriProbe::CheckEnv));
    assert_eq!(trimmed_nonempty("  x y \n"), Some("x y".to_string()));
    assert!(has_domain_lines("foo\nDomain: 'a'\n"));
    assert!(!has_domain_lines("Domain: a"));
    assert_eq!(connect_args(&Some("u".to_string())), vec!["--connect".to_string(), "u".to_string()]);
    assert!(connect_args(&None).is_empty());
}
