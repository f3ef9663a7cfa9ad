use vagrant_top::config::{ColumnVisibility, SortColumn, SortConfig};
use vagrant_top::display::{
    build_header_cells, build_row, build_widths, connection_label, cpu_bars, cpu_level, fmt_bytes, fmt_cpu,
    footer_bindings, help_entries, help_key, mem_bars, mem_level, poll_text, sort_header, status_icon, status_tone,
    truncate_name, CellColour, Level, Tone, Width, ICON_DEAD, ICON_RUNNING, ICON_SAVED, ICON_SORT_ASC, ICON_SORT_DESC,
    ICON_STOPPED,
};
use vagrant_top::model::{
    format_duration_secs, uptime_str_from_epoch, uptime_str_from_instant, uptime_text, EnvironmentStatus,
    VagrantEnvironment, VmSnapshot,
};
use vagrant_top::vagrant::ConnectionState;

fn vm(name: &str, state: &str, running: bool) -> VmSnapshot {
    VmSnapshot {
        name: name.to_string(),
        domain_name: format!("env_{}", name),
        provider: "libvirt".to_string(),
        box_name: String::new(),
        state: state.to_string(),
        running,
        cpu_percent_e9: 0,
        cpus: 1,
        mem_bytes: 0,
        mem_limit: 0,
        net_rx: 0,
        net_tx: 0,
        blk_read: 0,
        blk_write: 0,
        started_at: None,
    }
}

fn env_of(vms: Vec<VmSnapshot>) -> VagrantEnvironment {
    VagrantEnvironment::aggregate("env".to_string(), "/p/env".to_string(), "libvirt".to_string(), vms)
}

#[test]
fn status_from_vms() {
    assert_eq!(env_of(vec![]).status, EnvironmentStatus::Stopped);
    assert_eq!(env_of(vec![vm("a", "running", true), vm("b", "running", true)]).status, EnvironmentStatus::Running);
    assert_eq!(env_of(vec![vm("a", "running", true), vm("b", "shutoff", false)]).status, EnvironmentStatus::Partial);
    assert_eq!(env_of(vec![vm("a", "shutoff", false), vm("b", "poweroff", false)]).status, EnvironmentStatus::Stopped);
    assert_eq!(env_of(vec![vm("a", "running", true), vm("b", "paused", false)]).status, EnvironmentStatus::Saved);
    assert_eq!(env_of(vec![vm("a", "saved", false)]).status, EnvironmentStatus::Saved);
    assert_eq!(env_of(vec![vm("a", "paused", false), vm("b", "crashed", false)]).status, EnvironmentStatus::Crashed);
}

#[test]
fn aggregate_sums_and_oldest_start() {
    let mut a = vm("a", "running", true);
    a.cpu_percent_e9 = 12_500_000_000;
    a.mem_bytes = 100;
    a.mem_limit = 1000;
    a.net_rx = 1;
    a.net_tx = 2;
    a.blk_read = 3;
    a.blk_write = 4;
    a.started_at = Some(500);
    let mut b = vm("b", "running", true);
    b.cpu_percent_e9 = 2_500_000_000;
    b.mem_bytes = 200;
    b.mem_limit = 1000;
    b.net_rx = 10;
    b.net_tx = 20;
    b.blk_read = 30;
    b.blk_write = 40;
    b.started_at = Some(300);
    let mut c = vm("c", "shutoff", false);
    c.started_at = Some(100);
    let e = env_of(vec![a, b, c]);
    assert_eq!(e.vm_count(), 3);
    assert_eq!(e.total_cpu_e9, 15_000_000_000);
    assert_eq!(e.total_mem, 300);
    assert_eq!(e.mem_limit, 2000);
    assert_eq!(e.total_net_rx, 11);
    assert_eq!(e.total_net_tx, 22);
    assert_eq!(e.total_blk_read, 33);
    assert_eq!(e.total_blk_write, 44);
    assert_eq!(e.oldest_started_at, Some(300));
    assert_eq!(e.newest_started_at, None);
    assert_eq!(e.mem_percent(), 1500);
    assert_eq!(env_of(vec![]).mem_percent(), 0);
}

#[test]
fn aggregate_wraps_and_caps() {
    let mut a = vm("a", "running", true);
    a.mem_bytes = u64::MAX;
    a.cpu_percent_e9 = u64::MAX;
    let mut b = vm("b", "running", true);
    b.mem_bytes = 2;
    b.cpu_percent_e9 = 5;
    let e = env_of(vec![a, b]);
    assert_eq!(e.total_mem, 1);
    assert_eq!(e.total_cpu_e9, u64::MAX);
}

#[test]
fn durations() {
    assert_eq!(format_duration_secs(0), "0m");
    assert_eq!(format_duration_secs(59), "0m");
    assert_eq!(format_duration_secs(61), "1m");
    assert_eq!(format_duration_secs(3600), "1h 0m");
    assert_eq!(format_duration_secs(3 * 3600 + 25 * 60), "3h 25m");
    assert_eq!(format_duration_secs(86400 + 3600 + 1), "1d 1h");
    assert_eq!(uptime_text(100, 3700), "1h 0m");
    assert_eq!(uptime_text(5000, 100), "0m");
}

#[test]
fn clock_based_uptimes() {
    assert_eq!(uptime_str_from_instant(std::time::Instant::now()), "0m");
    let now = std::time::SystemTime::now().duration_since(std::time::UNIX_EPOCH).unwrap().as_secs();
    assert_eq!(uptime_str_from_epoch(now), "0m");
    assert!(uptime_str_from_epoch(0).contains('d'));
}

#[test]
fn icons_tones_levels() {
    assert_eq!(status_icon(EnvironmentStatus::Running), ICON_RUNNING);
    assert_eq!(status_icon(EnvironmentStatus::Partial), ICON_RUNNING);
    assert_eq!(status_icon(EnvironmentStatus::Stopped), ICON_STOPPED);
    assert_eq!(status_icon(EnvironmentStatus::Saved), ICON_SAVED);
    assert_eq!(status_icon(EnvironmentStatus::Crashed), ICON_DEAD);
    assert_eq!(status_tone(EnvironmentStatus::Running), Tone::Success);
    assert_eq!(status_tone(EnvironmentStatus::Stopped), Tone::Muted);
    assert_eq!(status_tone(EnvironmentStatus::Crashed), Tone::Danger);
    assert_eq!(cpu_level(80_000_000_001), Level::Danger);
    assert_eq!(cpu_level(80_000_000_000), Level::Warning);
    assert_eq!(cpu_level(50_000_000_001), Level::Warning);
    assert_eq!(cpu_level(50_000_000_000), Level::Normal);
    assert_eq!(mem_level(91, 100), Level::Danger);
    assert_eq!(mem_level(90, 100), Level::Warning);
    assert_eq!(mem_level(70, 100), Level::Normal);
    assert_eq!(mem_level(5, 0), Level::Normal);
}

#[test]
fn byte_sizes() {
    assert_eq!(fmt_bytes(0), "0 B");
    assert_eq!(fmt_bytes(512), "512 B");
    assert_eq!(fmt_bytes(1023), "1023 B");
    assert_eq!(fmt_bytes(1024), "1.0 KiB");
    assert_eq!(fmt_bytes(2 * 1024 * 1024 * 1024), "2.0 GiB");
}

#[test]
fn cpu_text() {
    assert_eq!(fmt_cpu(0), "0.0%");
    assert_eq!(fmt_cpu(12_340_000_000), "12.3%");
    assert_eq!(fmt_cpu(12_350_000_000), "12.4%");
    assert_eq!(fmt_cpu(12_250_000_000), "12.2%");
    assert_eq!(fmt_cpu(12_250_000_001), "12.3%");
    assert_eq!(fmt_cpu(250_000_000), "0.2%");
    assert_eq!(fmt_cpu(100_000_000_000), "100.0%");
    assert_eq!(fmt_cpu(990_000_000), "1.0%");
    assert_eq!(fmt_cpu(49_999_999), "0.0%");
}

#[test]
fn small_cpu_usages_add_up() {
    let mut vms = Vec::new();
    for name in ["a", "b", "c"] {
        let mut v = vm(name, "running", true);
        v.cpu_percent_e9 = 19_000_000;
        vms.push(v);
    }
    let e = env_of(vms);
    assert_eq!(e.total_cpu_e9, 57_000_000);
    assert_eq!(fmt_cpu(e.total_cpu_e9), "0.1%");
}

#[test]
fn table_header_cells() {
    let cols = ColumnVisibility::default();
    let sort = SortConfig::default();
    let cells = build_header_cells(&cols, &sort);
    assert_eq!(cells.len(), 6);
    assert_eq!(cells[0], format!("ENVIRONMENT {}", ICON_SORT_ASC));
    assert_eq!(cells[1], "VMS");
    assert!(cells[2].ends_with(" CPU"));
    assert!(cells[5].ends_with(" LAST-CHG"));
    let desc = SortConfig { column: SortColumn::Vms, ascending: false };
    assert_eq!(sort_header("VMS", SortColumn::Vms, desc), format!("VMS {}", ICON_SORT_DESC));
    assert_eq!(sort_header("VMS", SortColumn::Cpu, desc), "VMS");
    let all = ColumnVisibility { vms: true, cpu: true, mem: true, net: true, io: true, time_up: true, last_chg: true };
    assert_eq!(build_header_cells(&all, &sort).len(), 8);
}

#[test]
fn table_rows_and_widths() {
    let mut a = vm("a", "running", true);
    a.cpu_percent_e9 = 12_340_000_000;
    a.mem_bytes = 512;
    a.mem_limit = 1000;
    a.started_at = Some(1000);
    let mut e = env_of(vec![a]);
    e.newest_started_at = Some(5_000_000_000);
    let cols = ColumnVisibility { vms: true, cpu: true, mem: true, net: true, io: false, time_up: true, last_chg: true };
    let row = build_row(&e, &cols, 1000 + 7200, 5_000_000_000 + 120_000_000_000);
    let texts: Vec<String> = row.iter().map(|c| c.text.clone()).collect();
    let first = format!("{} env", ICON_RUNNING);
    assert_eq!(texts, vec![first.as_str(), "1", "12.3%", "512 B / 1000 B", "0 B / 0 B", "2h 0m", "2m"]);
    let colours: Vec<CellColour> = row.iter().map(|c| c.colour).collect();
    let plain = CellColour::Level(Level::Normal);
    assert_eq!(
        colours,
        vec![CellColour::Status { tone: Tone::Success, chars: 2 }, plain, plain, plain, plain, plain, plain]
    );
    let mut none = env_of(vec![]);
    none.newest_started_at = None;
    let row = build_row(&none, &ColumnVisibility::default(), 0, 0);
    let texts: Vec<String> = row.iter().map(|c| c.text.clone()).collect();
    let first = format!("{} env", ICON_STOPPED);
    assert_eq!(texts, vec![first.as_str(), "0", "0.0%", "0 B / 0 B", "-", "-"]);
    assert_eq!(row[0].colour, CellColour::Status { tone: Tone::Muted, chars: 2 });
    assert_eq!(
        build_widths(&cols),
        vec![Width::Fill(1), Width::Length(6), Width::Length(9), Width::Length(17), Width::Length(21), Width::Length(10), Width::Length(10)]
    );
}

#[test]
fn row_colours_follow_levels() {
    let mut a = vm("a", "running", true);
    a.cpu_percent_e9 = 60_000_000_000;
    a.mem_bytes = 950;
    a.mem_limit = 1000;
    let mut b = vm("b", "crashed", false);
    b.cpu_percent_e9 = 30_000_000_000;
    let e = env_of(vec![a, b]);
    let cols = ColumnVisibility { vms: false, cpu: true, mem: true, net: false, io: false, time_up: false, last_chg: false };
    let row = build_row(&e, &cols, 0, 0);
    assert_eq!(row.len(), 3);
    assert_eq!(row[0].text, format!("{} env", ICON_DEAD));
    assert_eq!(row[0].colour, CellColour::Status { tone: Tone::Danger, chars: 2 });
    assert_eq!(row[1].text, "90.0%");
    assert_eq!(row[1].colour, CellColour::Level(Level::Danger));
    assert_eq!(row[2].colour, CellColour::Level(Level::Danger));
}

#[test]
fn truncation_and_charts() {
    assert_eq!(truncate_name("short", 12), "short");
    assert_eq!(truncate_name("exactly12chr", 12), "exactly12chr");
    assert_eq!(truncate_name("abcdefghijklmnop", 12), "abcdefghijk\u{2026}");
    assert_eq!(truncate_name("", 0), "");
    let mut a = vm("a", "running", true);
    a.cpu_percent_e9 = 12_590_000_000;
    a.mem_bytes = 3 * 1024 * 1024 + 5;
    let mut e = env_of(vec![a]);
    e.name = "a-very-long-environment".to_string();
    let envs = vec![e];
    assert_eq!(cpu_bars(&envs), vec![("a-very-long\u{2026}".to_string(), 125)]);
    assert_eq!(mem_bars(&envs), vec![("a-very-long\u{2026}".to_string(), 3)]);
}

#[test]
fn header_footer_help_texts() {
    assert_eq!(connection_label(ConnectionState::Connected), ("Connected", Tone::Success));
    assert_eq!(connection_label(ConnectionState::IndexOnly), ("Index Only", Tone::Warning));
    assert_eq!(connection_label(ConnectionState::Disconnected), ("Disconnected", Tone::Warning));
    assert_eq!(poll_text(5), "  Last poll: 5s ago");
    assert_eq!(footer_bindings(true), vec![("q", "quit"), ("?", "close help")]);
    assert_eq!(footer_bindings(false).len(), 7);
    assert_eq!(help_entries().len(), 11);
    assert_eq!(help_key("g"), format!(" {:>12}  ", "g"));
    assert_eq!(help_key("q / Ctrl+C"), format!(" {:>12}  ", "q / Ctrl+C"));
    assert_eq!(help_key("a-key-longer-than-twelve"), format!(" {:>12}  ", "a-key-longer-than-twelve"));
}
