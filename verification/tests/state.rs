use lighthouse::merge::merge_ports;
use lighthouse::resolver::detect_conflicts;
use lighthouse::listing::{push_unique, sort_ports_by_port, sort_settings_for_display};
use lighthouse::number::{decimal_string, parse_unsigned};
use lighthouse::state::{new_conflicts_among, parse_project_port_id};
use lighthouse::text::{chars_of, split_lines, split_words, trimmed};
use lighthouse::{AppState, PortInfo, PortSource, ProjectPort};

fn live(port: u16, bind: &str, name: &str) -> PortInfo {
    PortInfo {
        port,
        protocol: "TCP".to_string(),
        bind_address: bind.to_string(),
        pid: None,
        process_name: name.to_string(),
        service_name: None,
        managed_by: None,
        project: None,
        source: PortSource::Live,
    }
}

#[test]
fn fresh_state() {
    let s = AppState::default();
    assert!(s.ports.is_empty());
    assert!(s.conflicts.is_empty());
    assert_eq!(s.last_scan, "Never");
    assert_eq!(s.status, "ok");
}

#[test]
fn a_scan_with_conflicts_warns() {
    let mut s = AppState::default();
    let ports = vec![live(3000, "0.0.0.0", "a"), live(3000, "0.0.0.0", "b")];
    let conflicts = detect_conflicts(&ports, &[], &[]);
    let merged = merge_ports(&ports, &[], &[], &[]);
    s.record_scan(merged.clone(), conflicts.clone(), Vec::new(), Vec::new(), "12:00:00".to_string());
    assert_eq!(s.status, "warning");
    assert_eq!(s.conflicts, conflicts);
    assert_eq!(s.conflicts.len(), 1);
    assert_eq!(s.ports, merged);
    assert_eq!(s.last_scan, "12:00:00");
    let mut t = AppState::default();
    t.record_scan(vec![live(80, "0.0.0.0", "a")], Vec::new(), Vec::new(), Vec::new(), "1".to_string());
    assert_eq!(t.status, "ok");
}

#[test]
fn polls_report_only_new_conflict_ports() {
    let mut s = AppState::default();
    let ports = vec![live(3000, "0.0.0.0", "a"), live(3000, "0.0.0.0", "b")];
    let conflicts = detect_conflicts(&ports, &[], &[]);
    let merged = merge_ports(&ports, &[], &[], &[]);
    let first = s.record_poll(&[], merged.clone(), conflicts.clone(), "t1".to_string());
    assert_eq!(first, conflicts);
    assert_eq!(s.ports, merged);
    let previous = s.conflicts.clone();
    let second = s.record_poll(&previous, merged.clone(), conflicts.clone(), "t2".to_string());
    assert!(second.is_empty());
    assert_eq!(s.status, "warning");
    assert_eq!(s.last_scan, "t2");
    assert!(new_conflicts_among(&previous, &previous).is_empty());
}

#[test]
fn project_port_ids() {
    assert_eq!(parse_project_port_id("/p/.env:12"), Ok(("/p/.env".to_string(), 12)));
    assert_eq!(parse_project_port_id("C:/x:3"), Err("Invalid line number".to_string()));
    assert_eq!(parse_project_port_id("nofile"), Err("Invalid project_port_id format".to_string()));
    assert_eq!(parse_project_port_id("f:x"), Err("Invalid line number".to_string()));
}

#[test]
fn decimal_text_and_parsing() {
    assert_eq!(decimal_string(0), "0");
    assert_eq!(decimal_string(65535), "65535");
    assert_eq!(parse_unsigned(&chars_of("+42"), 65535), Some(42));
    assert_eq!(parse_unsigned(&chars_of("65536"), 65535), None);
    assert_eq!(parse_unsigned(&chars_of("00080"), 65535), Some(80));
    assert_eq!(parse_unsigned(&chars_of("+"), 65535), None);
    assert_eq!(parse_unsigned(&chars_of(""), 65535), None);
    assert_eq!(parse_unsigned(&chars_of("-1"), 65535), None);
    assert_eq!(parse_unsigned(&chars_of("4294967295"), 4294967295), Some(4294967295));
}

#[test]
fn lines_words_and_trimming() {
    let ls = split_lines(&chars_of("a\r\nb\n\nc\r"));
    let ls: Vec<String> = ls.iter().map(|l| l.iter().collect()).collect();
    assert_eq!(ls, vec!["a", "b", "", "c\r"]);
    assert!(split_lines(&chars_of("")).is_empty());
    let ws = split_words(&chars_of("  LISTEN \t 0  x "));
    assert_eq!(ws.len(), 3);
    let t: String = trimmed(&chars_of("\u{a0} hi there\n")).iter().collect();
    assert_eq!(t, "hi there");
}

#[test]
fn listing_orders() {
    let ports = vec![live(8080, "a", "x"), live(22, "b", "y"), live(8080, "0", "z")];
    let sorted = sort_ports_by_port(&ports);
    let names: Vec<&str> = sorted.iter().map(|p| p.process_name.as_str()).collect();
    assert_eq!(names, vec!["y", "x", "z"]);
    let mk = |port: u16, name: &str| ProjectPort {
        port,
        project_path: String::new(),
        project_name: name.to_string(),
        file_path: String::new(),
        line_number: 1,
        line_content: String::new(),
        config_key: String::new(),
    };
    let settings = vec![mk(3000, "zeta"), mk(3000, "alpha"), mk(80, "mid")];
    let sorted = sort_settings_for_display(&settings);
    let names: Vec<&str> = sorted.iter().map(|p| p.project_name.as_str()).collect();
    assert_eq!(names, vec!["mid", "alpha", "zeta"]);
}

#[test]
fn discovered_files_are_listed_once() {
    let mut files = Vec::new();
    push_unique(&mut files, "/a".to_string());
    push_unique(&mut files, "/b".to_string());
    push_unique(&mut files, "/a".to_string());
    assert_eq!(files, vec!["/a".to_string(), "/b".to_string()]);
}
