use vagrant_top::domstats::parse_domstats_output;
use vagrant_top::paths::{file_name, join_path};
use vagrant_top::text::{chars_of, decimal_string, parse_u64};
use vagrant_top::vagrant::{derive_domain_name, machine_index_path, vm_infos_from_entries, MachineEntry};

const SAMPLE: &str = "Domain: 'proj_default'
  state.state=1
  state.reason=1
  cpu.time=123456789
  vcpu.current=2
  balloon.current=1048576
  balloon.maximum=2097152
  balloon.rss=524288
  net.count=1
  net.0.name=vnet0
  net.0.rx.bytes=1000
  net.0.tx.bytes=2000
  net.1.rx.bytes=999
  block.count=2
  block.0.rd.bytes=10
  block.0.wr.bytes=20
  block.1.rd.bytes=30
  block.1.wr.bytes=40

Domain: 'other_web'
  state.state=5
";

#[test]
fn domstats_reads_counters_per_domain() {
    let stats = parse_domstats_output(SAMPLE);
    assert_eq!(stats.len(), 2);
    let a = *stats.get(&"proj_default".to_string()).unwrap();
    assert_eq!(a.state, 1);
    assert_eq!(a.cpu_time, 123456789);
    assert_eq!(a.vcpu_current, 2);
    assert_eq!(a.balloon_current, 1048576);
    assert_eq!(a.balloon_maximum, 2097152);
    assert_eq!(a.balloon_rss, Some(524288));
    assert_eq!(a.net_rx_bytes, 1000);
    assert_eq!(a.net_tx_bytes, 2000);
    assert_eq!(a.blk_rd_bytes, 40);
    assert_eq!(a.blk_wr_bytes, 60);
    let b = *stats.get(&"other_web".to_string()).unwrap();
    assert_eq!(b.state, 5);
    assert_eq!(b.cpu_time, 0);
    assert_eq!(b.balloon_rss, None);
}

#[test]
fn domstats_ignores_index_beyond_count() {
    let out = "Domain: 'd'\n  net.count=1\n  net.1.rx.bytes=5\n  net.01.rx.bytes=7\n  net.0.rx.bytes=3\n";
    let stats = parse_domstats_output(out);
    assert_eq!(stats.get(&"d".to_string()).unwrap().net_rx_bytes, 3);
}

#[test]
fn domstats_skips_lines_without_numbers() {
    let out = "garbage before\nDomain: 'd'\r\n  cpu.time=abc\r\n  vcpu.current=+4\r\n  novalue\r\n  balloon.maximum=18446744073709551616\r\n";
    let stats = parse_domstats_output(out);
    let d = *stats.get(&"d".to_string()).unwrap();
    assert_eq!(d.cpu_time, 0);
    assert_eq!(d.vcpu_current, 4);
    assert_eq!(d.balloon_maximum, 0);
}

#[test]
fn domstats_ignored_lines_change_nothing() {
    let plain = "Domain: 'd'\n  cpu.time=7\n  net.count=1\n  net.0.rx.bytes=5\nDomain: 'e'\n  state.state=1\n";
    let padded = "Domain: 'd'\n\n  net.0.name=vnet0\n  cpu.time=7\n  state.reason=x\n  net.count=1\n   \n  just text\n  net.0.rx.bytes=5\nDomain: 'e'\n  state.state=1\n  trailing=\n";
    let a = parse_domstats_output(plain);
    let b = parse_domstats_output(padded);
    assert_eq!(a.len(), b.len());
    for name in ["d", "e"] {
        let key = name.to_string();
        assert_eq!(format!("{:?}", a.get(&key).unwrap()), format!("{:?}", b.get(&key).unwrap()));
    }
    assert_eq!(b.get(&"d".to_string()).unwrap().net_rx_bytes, 5);
}

#[test]
fn domstats_later_block_replaces_earlier() {
    let out = "Domain: 'd'\n cpu.time=1\nDomain: 'd'\n cpu.time=2\n";
    let stats = parse_domstats_output(out);
    assert_eq!(stats.len(), 1);
    assert_eq!(stats.get(&"d".to_string()).unwrap().cpu_time, 2);
}

#[test]
fn domstats_empty_output() {
    assert_eq!(parse_domstats_output("").len(), 0);
    assert_eq!(parse_domstats_output("Domain: '").len(), 0);
}

#[test]
fn domstats_wraps_counter_sums() {
    let out = "Domain: 'd'\n net.count=2\n net.0.rx.bytes=18446744073709551615\n net.1.rx.bytes=2\n";
    let stats = parse_domstats_output(out);
    assert_eq!(stats.get(&"d".to_string()).unwrap().net_rx_bytes, 1);
}

#[test]
fn decimal_and_u64_parsing() {
    assert_eq!(decimal_string(0), "0");
    assert_eq!(decimal_string(1234567890), "1234567890");
    assert_eq!(decimal_string(u64::MAX), "18446744073709551615");
    let v = chars_of("+42");
    assert_eq!(parse_u64(&v, 0, v.len()), Some(42));
    let v = chars_of("-1");
    assert_eq!(parse_u64(&v, 0, v.len()), None);
    let v = chars_of("+");
    assert_eq!(parse_u64(&v, 0, v.len()), None);
    let v = chars_of("18446744073709551615");
    assert_eq!(parse_u64(&v, 0, v.len()), Some(u64::MAX));
}

#[test]
fn file_names_of_paths() {
    assert_eq!(file_name("/home/u/proj"), Some("proj".to_string()));
    assert_eq!(file_name("/home/u/proj/"), Some("proj".to_string()));
    assert_eq!(file_name("/home/u/proj/."), Some("proj".to_string()));
    assert_eq!(file_name("proj"), Some("proj".to_string()));
    assert_eq!(file_name("/home/.."), None);
    assert_eq!(file_name("/"), None);
    assert_eq!(file_name(""), None);
    assert_eq!(file_name("."), None);
    assert_eq!(file_name("a/...").as_deref(), Some("..."));
}

#[test]
fn file_name_agrees_with_std_path() {
    for p in ["/a/b", "a//b//", "./x", "x/./", "/", "..", "a/..", "a/.../", "", "//", "./", "a/./."] {
        let expected = std::path::Path::new(p).file_name().map(|f| f.to_string_lossy().to_string());
        assert_eq!(file_name(p), expected, "path {:?}", p);
    }
}

#[test]
fn domain_names() {
    assert_eq!(derive_domain_name("/home/u/proj", "default"), "proj_default");
    assert_eq!(derive_domain_name("", "web"), "_web");
    assert_eq!(derive_domain_name("/", "web"), "_web");
}

#[test]
fn paths_join() {
    assert_eq!(join_path("/home/u", ".vagrant.d"), "/home/u/.vagrant.d");
    assert_eq!(join_path("/home/u/", ".vagrant.d"), "/home/u/.vagrant.d");
    assert_eq!(join_path("", "x"), "x");
}

#[test]
fn machine_index_location() {
    assert_eq!(
        machine_index_path(Some("/vh".to_string()), Some("/home/u".to_string())),
        Some("/vh/data/machine-index/index".to_string())
    );
    assert_eq!(
        machine_index_path(None, Some("/home/u".to_string())),
        Some("/home/u/.vagrant.d/data/machine-index/index".to_string())
    );
    assert_eq!(machine_index_path(None, None), None);
    assert_eq!(
        machine_index_path(Some(String::new()), None),
        Some("data/machine-index/index".to_string())
    );
}

#[test]
fn machine_entries_become_vms() {
    let entries = vec![
        MachineEntry {
            name: "default".to_string(),
            provider: "libvirt".to_string(),
            state: Some("running".to_string()),
            vagrantfile_path: Some("/home/u/proj".to_string()),
            box_name: Some("generic/debian12".to_string()),
        },
        MachineEntry {
            name: "web".to_string(),
            provider: "libvirt".to_string(),
            state: None,
            vagrantfile_path: None,
            box_name: None,
        },
    ];
    let vms = vm_infos_from_entries(entries);
    assert_eq!(vms.len(), 2);
    assert_eq!(vms[0].domain_name, "proj_default");
    assert_eq!(vms[0].environment, "proj");
    assert_eq!(vms[0].vagrantfile_path, "/home/u/proj");
    assert_eq!(vms[0].box_name, "generic/debian12");
    assert_eq!(vms[0].state, "running");
    assert_eq!(vms[1].domain_name, "_web");
    assert_eq!(vms[1].environment, "");
    assert_eq!(vms[1].state, "unknown");
    assert_eq!(vms[1].box_name, "");
}
