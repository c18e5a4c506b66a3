use lighthouse::config_editor::{
    apply_fix, apply_with_matches, has_last_port_in, preview_fix, previews_from_matches,
};
use lighthouse::portmaster::{entries_from_rows, ranges_from_matches, simple_entry_from};
use lighthouse::projects::{project_site, setting_from_captures, ConfigKind};
use lighthouse::scanner::{name_from_captures, netstat_socket_from, parse_address_port, pid_from_captures};
use lighthouse::PortSource;

fn groups(items: &[Option<&str>]) -> Vec<Option<(usize, String)>> {
    items.iter().map(|g| g.map(|s| (0, s.to_string()))).collect()
}

fn groups_at(items: &[Option<(usize, &str)>]) -> Vec<Option<(usize, String)>> {
    items.iter().map(|g| g.map(|(at, s)| (at, s.to_string()))).collect()
}

#[test]
fn rows_become_entries_only_with_a_valid_port() {
    let rows = vec![
        groups(&[Some("| 80 | web |"), Some(" 8080 "), Some("web"), Some("TCP"), Some("*"), Some("me"), Some(" x ")]),
        groups(&[Some("| 99999 |"), Some("99999"), Some("a"), Some("b"), Some("c"), Some("d"), Some("e")]),
        groups(&[Some("| 1 |"), Some("1"), None, Some("b"), Some("c"), Some("d"), Some("e")]),
    ];
    let entries = entries_from_rows("r.md", &rows);
    assert_eq!(entries.len(), 1);
    assert_eq!(entries[0].port, 8080);
    assert_eq!(entries[0].notes, "x");
    assert_eq!(entries[0].source_file, "r.md");
}

#[test]
fn a_plain_line_match_becomes_an_entry() {
    let caps = Some(groups(&[Some("3000: web  "), Some("3000"), Some("web  ")]));
    let e = simple_entry_from("p.md", &caps).unwrap();
    assert_eq!(e.port, 3000);
    assert_eq!(e.service, "web");
    assert_eq!(e.managed_by, "unknown");
    assert_eq!(simple_entry_from("p.md", &None), None);
    let too_big = Some(groups(&[Some("70000: x"), Some("70000"), Some("x")]));
    assert_eq!(simple_entry_from("p.md", &too_big), None);
}

#[test]
fn range_matches_become_ranges() {
    let ms = vec![
        groups(&[Some("3000-3999 | web"), Some("3000"), Some("3999"), Some(" web ")]),
        groups(&[Some("1-99999 | x"), Some("10"), Some("99999"), Some("x")]),
    ];
    assert_eq!(ranges_from_matches(&ms), vec![(3000, 3999, "web".to_string())]);
}

#[test]
fn a_setting_comes_from_its_captures() {
    let line: Vec<char> = "  API_PORT=4000 ".chars().collect();
    let caps = Some(groups(&[Some("API_PORT=4000"), Some("API_PORT"), Some("4000")]));
    let pp = setting_from_captures(ConfigKind::Env, "/p/a/.env", "/p/a", "a", 3, &line, &caps).unwrap();
    assert_eq!(pp.port, 4000);
    assert_eq!(pp.config_key, "API_PORT");
    assert_eq!(pp.line_number, 3);
    assert_eq!(pp.line_content, "API_PORT=4000");
    let caps = Some(groups(&[Some("8080:80"), Some("8080")]));
    let pp = setting_from_captures(ConfigKind::DockerCompose, "c.yml", "/p", "p", 1, &line, &caps).unwrap();
    assert_eq!(pp.port, 8080);
    assert_eq!(pp.config_key, "ports");
    assert_eq!(setting_from_captures(ConfigKind::ViteConfig, "v", "/p", "p", 1, &line, &None), None);
}

#[test]
fn process_details_come_from_their_captures() {
    assert_eq!(pid_from_captures(&Some(groups(&[Some("pid=42"), Some("42")]))), Some(42));
    assert_eq!(pid_from_captures(&Some(groups(&[Some("pid=99999999999"), Some("99999999999")]))), None);
    assert_eq!(pid_from_captures(&None), None);
    let info = "users:((\"node\",pid=1,fd=2))";
    assert_eq!(name_from_captures(info, &Some(groups(&[Some("\"node\""), Some("node")]))), "node");
    assert_eq!(name_from_captures("users:((x,pid=1))", &None), "x");
    assert_eq!(name_from_captures("", &None), "");
}

#[test]
fn a_netstat_match_becomes_a_live_socket() {
    let caps = Some(groups(&[Some("TCP 0.0.0.0:135 ..."), Some("0.0.0.0"), Some("135"), Some("1012")]));
    let p = netstat_socket_from(&caps).unwrap();
    assert_eq!(p.port, 135);
    assert_eq!(p.bind_address, "0.0.0.0");
    assert_eq!(p.pid, Some(1012));
    assert_eq!(p.process_name, "");
    assert_eq!(p.source, PortSource::Live);
    let empty_addr = Some(groups(&[Some("x"), Some(""), Some("80"), Some("9")]));
    assert_eq!(netstat_socket_from(&empty_addr).unwrap().bind_address, "0.0.0.0");
    assert_eq!(netstat_socket_from(&None), None);
}

#[test]
fn previews_and_fixes_from_port_matches() {
    // "PORT=3000 # 80": 3000 starts at 5, 80 at 12.
    let ms = vec![
        groups_at(&[Some((5, "3000")), Some((5, "3000"))]),
        groups_at(&[Some((12, "80")), Some((12, "80"))]),
    ];
    assert!(!has_last_port_in(&ms));
    assert!(has_last_port_in(&vec![groups(&[Some("65535"), Some("65535")])]));
    let v = previews_from_matches("f", 1, "PORT=3000 # 80", &ms);
    assert_eq!(v.len(), 1);
    assert_eq!(v[0].new_line, "PORT=3001 # 80");
    assert_eq!(v[0].old_port, 3000);
    let (content, msg) = apply_with_matches("f", 2, 5000, "a\r\nPORT=3000 # 80\r\nb\n", &ms).unwrap();
    assert_eq!(content, "a\r\nPORT=5000 # 80\r\nb\n");
    assert_eq!(msg, "Updated f line 2: PORT=3000 # 80 -> PORT=5000 # 80");
    let none = apply_with_matches("f", 1, 5000, "x=80", &vec![groups_at(&[Some((2, "80")), Some((2, "80"))])]);
    assert_eq!(none, Err("No port number found on line 1 of f".to_string()));
}

#[test]
fn address_and_port_round_trip() {
    assert_eq!(parse_address_port("10.0.0.1:8080"), ("10.0.0.1".to_string(), "8080".to_string()));
    assert_eq!(parse_address_port("[::1]:8080"), ("::1".to_string(), "8080".to_string()));
    assert_eq!(parse_address_port("[fe80::1%eth0]:22"), ("fe80::1%eth0".to_string(), "22".to_string()));
}

#[test]
fn applying_a_preview_writes_the_previewed_line() {
    let content = "# app\nPORT=3000\n";
    let v = preview_fix("f", 2, content).unwrap();
    let (new_content, _) = apply_fix("f", 2, v[0].new_port, content).unwrap();
    assert_eq!(new_content, format!("# app\n{}\n", v[0].new_line));
}

#[test]
fn project_directory_and_name_of_a_file() {
    assert_eq!(project_site("/home/u/projects/app/.env", '/'), ("/home/u/projects/app".to_string(), "app".to_string()));
    assert_eq!(project_site("/.env", '/'), ("/".to_string(), "unknown".to_string()));
    assert_eq!(project_site(".env", '/'), ("".to_string(), "unknown".to_string()));
    assert_eq!(project_site("app/.env", '/'), ("app".to_string(), "app".to_string()));
    assert_eq!(project_site("C:\\code\\web\\package.json", '\\'), ("C:\\code\\web".to_string(), "web".to_string()));
}
