use lighthouse::scanner::{
    check_single_port, parse_address_port, parse_lsof_output, parse_process_info,
    parse_ss_output, scan_docker_ports, scan_live_ports, ss_output_parsable, ScanTool,
};
use lighthouse::{PortInfo, PortSource};

fn live(port: u16, bind: &str, pid: Option<u32>, name: &str) -> PortInfo {
    PortInfo {
        port,
        protocol: "TCP".to_string(),
        bind_address: bind.to_string(),
        pid,
        process_name: name.to_string(),
        service_name: None,
        managed_by: None,
        project: None,
        source: PortSource::Live,
    }
}

#[test]
fn lsof_records_are_grouped_by_process_and_sorted() {
    let out = "p123\ncnode\nn*:3000\nn127.0.0.1:8080\np77\ncpostgres\nn[::1]:5432\n";
    let ports = parse_lsof_output(out);
    assert_eq!(
        ports,
        vec![
            live(3000, "0.0.0.0", Some(123), "node"),
            live(5432, "::1", Some(77), "postgres"),
            live(8080, "127.0.0.1", Some(123), "node"),
        ]
    );
}

#[test]
fn lsof_duplicates_are_dropped() {
    let out = "p1\ncnode\nn*:3000\nn*:3000\nn[::]:3000\n";
    let ports = parse_lsof_output(out);
    assert_eq!(
        ports,
        vec![live(3000, "0.0.0.0", Some(1), "node"), live(3000, "::", Some(1), "node")]
    );
}

#[test]
fn lsof_bad_ports_and_pids_are_skipped() {
    let out = "px\ncweb\nn*:http\nn*:70000\nn*:+81\n";
    assert_eq!(parse_lsof_output(out), vec![live(81, "0.0.0.0", None, "web")]);
}

#[test]
fn address_port_splits() {
    assert_eq!(parse_address_port("[::1]:631"), ("::1".to_string(), "631".to_string()));
    assert_eq!(parse_address_port("0.0.0.0:22"), ("0.0.0.0".to_string(), "22".to_string()));
    assert_eq!(parse_address_port("*"), ("*".to_string(), String::new()));
}

#[test]
fn process_info_reads_pid_and_name() {
    let (pid, name) = parse_process_info("users:((\"node\",pid=4242,fd=20))");
    assert_eq!(pid, Some(4242));
    assert_eq!(name, "node");
    let (pid, name) = parse_process_info("-");
    assert_eq!(pid, None);
    assert_eq!(name, "-");
}

#[test]
fn ss_lines_become_sockets() {
    let out = "LISTEN 0 511 0.0.0.0:3000 0.0.0.0:* users:((\"node\",pid=10,fd=3))\nLISTEN 0 128 [::]:22 [::]:*\n";
    assert!(ss_output_parsable(out));
    let ports = parse_ss_output(out);
    assert_eq!(ports, vec![live(22, "::", None, "-"), live(3000, "0.0.0.0", Some(10), "node")]);
}

#[test]
fn netstat_listing_is_parsed() {
    let out = "  TCP    0.0.0.0:135            0.0.0.0:0              LISTENING       1044\n  TCP    127.0.0.1:9000         0.0.0.0:0              ESTABLISHED     4\n";
    let ports = scan_live_ports(ScanTool::Netstat, out).unwrap();
    assert_eq!(ports, vec![live(135, "0.0.0.0", Some(1044), "")]);
}

#[test]
fn docker_mappings_are_read() {
    let out = "web\t0.0.0.0:8080->80/tcp, [::]:8080->80/tcp\ndb\t\ncache\t127.0.0.1:6379->6379/tcp\n";
    let maps = scan_docker_ports(out);
    assert_eq!(
        maps,
        vec![
            ("web".to_string(), 8080, "0.0.0.0".to_string()),
            ("web".to_string(), 8080, "0.0.0.0".to_string()),
            ("cache".to_string(), 6379, "127.0.0.1".to_string()),
        ]
    );
}

#[test]
fn single_port_check_suggests_next_free() {
    let ports = vec![live(3000, "0.0.0.0", Some(5), "node"), live(3001, "0.0.0.0", None, "x")];
    let r = check_single_port(3000, &ports);
    assert!(r.in_use);
    assert_eq!(r.process, Some("node".to_string()));
    assert_eq!(r.pid, Some(5));
    assert_eq!(r.suggestion, Some(3002));
    let r = check_single_port(4000, &ports);
    assert!(!r.in_use);
    assert_eq!(r.suggestion, None);
}

#[test]
fn port_check_names_the_first_listener() {
    let ports = vec![
        live(4000, "10.0.0.1", Some(7), "first"),
        live(4000, "10.0.0.2", Some(8), "second"),
        live(4001, "0.0.0.0", Some(9), "next"),
    ];
    let r = check_single_port(4000, &ports);
    assert_eq!(r.port, 4000);
    assert!(r.in_use);
    assert_eq!(r.process, Some("first".to_string()));
    assert_eq!(r.pid, Some(7));
    assert_eq!(r.suggestion, Some(4002));
    assert_eq!(r.portmaster_entry, None);
}

#[test]
fn port_check_searches_past_3999() {
    let ports = vec![live(3999, "0.0.0.0", Some(1), "a")];
    assert_eq!(check_single_port(3999, &ports).suggestion, Some(4000));
    let top = vec![live(65535, "0.0.0.0", Some(2), "b")];
    assert_eq!(check_single_port(65535, &top).suggestion, None);
}
