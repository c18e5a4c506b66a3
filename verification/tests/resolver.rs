use lighthouse::merge::merge_ports;
use lighthouse::resolver::{
    detect_conflicts, detect_range_for_port, get_project_path_from_process, ports_overlap,
    suggest_port, suggest_port_for_conflict,
};
use lighthouse::{PortInfo, PortSource, PortmasterEntry, ProjectPort};

fn live(port: u16, bind: &str, pid: Option<u32>, name: &str) -> PortInfo {
    PortInfo {
        port,
        protocol: "TCP".to_string(),
        bind_address: bind.to_string(),
        pid,
        process_name: name.to_string(),
        service_name: None,
        managed_by: None,
        project: None,
        source: PortSource::Live,
    }
}

fn entry(port: u16, service: &str, owner: &str) -> PortmasterEntry {
    PortmasterEntry {
        port,
        service: service.to_string(),
        protocol: "TCP".to_string(),
        bind: "127.0.0.1".to_string(),
        managed_by: owner.to_string(),
        notes: String::new(),
        source_file: "/x/PORTMASTER.md".to_string(),
    }
}

fn setting(port: u16, dir: &str, name: &str) -> ProjectPort {
    ProjectPort {
        port,
        project_path: dir.to_string(),
        project_name: name.to_string(),
        file_path: format!("{}/.env", dir),
        line_number: 1,
        line_content: format!("PORT={}", port),
        config_key: "PORT".to_string(),
    }
}

#[test]
fn overlap_rules() {
    assert!(ports_overlap("0.0.0.0", "10.0.0.1"));
    assert!(ports_overlap("10.0.0.1", "0.0.0.0"));
    assert!(ports_overlap("::1", "::1"));
    assert!(ports_overlap("127.0.0.1", "localhost"));
    assert!(ports_overlap("::1", "127.0.0.1"));
    assert!(!ports_overlap("10.0.0.1", "10.0.0.2"));
    assert!(!ports_overlap("127.0.0.1", "10.0.0.2"));
}

#[test]
fn no_process_has_a_project_path() {
    assert_eq!(get_project_path_from_process("node"), "");
    assert_eq!(get_project_path_from_process("next-dev"), "");
    assert_eq!(get_project_path_from_process("python"), "");
}

#[test]
fn default_ranges() {
    assert_eq!(detect_range_for_port(3000), Some((3000, 3999)));
    assert_eq!(detect_range_for_port(2999), Some((1024, 2999)));
    assert_eq!(detect_range_for_port(7000), Some((6000, 7999)));
    assert_eq!(detect_range_for_port(9999), Some((9000, 9999)));
    assert_eq!(detect_range_for_port(80), None);
    assert_eq!(detect_range_for_port(10000), None);
}

#[test]
fn suggest_first_free_in_range() {
    let ports = vec![live(3000, "0.0.0.0", None, "a"), live(3001, "0.0.0.0", None, "b")];
    assert_eq!(suggest_port(3000, 3999, &ports, &[]), Ok(3002));
    assert_eq!(suggest_port(4000, 4001, &ports, &[]), Ok(4000));
    assert_eq!(
        suggest_port(3000, 3001, &ports, &[]),
        Err("No free ports in range 3000-3001".to_string())
    );
    assert_eq!(suggest_port(5, 4, &ports, &[]), Err("No free ports in range 5-4".to_string()));
    assert_eq!(suggest_port(65535, 65535, &ports, &[]), Ok(65535));
}

#[test]
fn conflict_suggestion_alternates_around_the_port() {
    let ports = vec![
        live(3000, "0.0.0.0", None, "a"),
        live(3001, "0.0.0.0", None, "b"),
        live(2999, "0.0.0.0", None, "c"),
    ];
    assert_eq!(suggest_port_for_conflict(3000, &[], &ports), Some(3002));
    let ports = vec![live(3001, "0.0.0.0", None, "b")];
    assert_eq!(suggest_port_for_conflict(3000, &[], &ports), Some(2999));
    assert_eq!(suggest_port_for_conflict(65535, &[], &[]), Some(65534));
    assert_eq!(suggest_port_for_conflict(0, &[], &[]), Some(1));
}

#[test]
fn live_sockets_on_one_port_conflict() {
    let ports = vec![
        live(3000, "0.0.0.0", Some(1), "node"),
        live(3000, "127.0.0.1", Some(2), "python"),
        live(4000, "10.0.0.1", Some(3), "x"),
        live(4000, "10.0.0.2", Some(4), "y"),
    ];
    let conflicts = detect_conflicts(&ports, &[], &[]);
    assert_eq!(conflicts.len(), 1);
    let c = &conflicts[0];
    assert_eq!(c.port, 3000);
    assert_eq!(c.bind_a, "0.0.0.0");
    assert_eq!(c.bind_b, "127.0.0.1");
    assert_eq!(c.process_a, "node");
    assert_eq!(c.process_b, "python");
    assert_eq!(c.pid_a, Some(1));
    assert_eq!(c.pid_b, Some(2));
    assert_eq!(c.suggestion, Some(3001));
    assert_eq!(c.explanation, "Both 'node' and 'python' are listening on port 3000");
}

#[test]
fn project_settings_conflict_with_sockets_on_their_port() {
    let ports = vec![live(8080, "127.0.0.1", Some(9), "java"), live(3000, "::1", Some(4), "ruby")];
    let settings = vec![setting(3000, "/p/web", "web")];
    let conflicts = detect_conflicts(&ports, &[], &settings);
    assert_eq!(conflicts.len(), 1);
    let c = &conflicts[0];
    assert_eq!(c.port, 3000);
    assert_eq!(c.bind_a, "::1");
    assert_eq!(c.bind_b, "0.0.0.0");
    assert_eq!(c.process_a, "ruby");
    assert_eq!(c.process_b, "web (config)");
    assert_eq!(c.pid_a, Some(4));
    assert_eq!(c.pid_b, None);
    assert_eq!(c.suggestion, Some(3001));
    assert_eq!(c.explanation, "Project 'web' wants port 3000 but 'ruby' is already using it");
    let other_port = detect_conflicts(&[live(8080, "127.0.0.1", Some(9), "java")], &[], &settings);
    assert!(other_port.is_empty());
    let none = detect_conflicts(&ports, &[], &[setting(3000, "", "bare")]);
    assert!(none.is_empty());
}

#[test]
fn a_setting_and_a_listener_on_different_ports_do_not_conflict() {
    let ports = vec![PortInfo {
        port: 5432,
        protocol: "TCP".to_string(),
        bind_address: "127.0.0.1".to_string(),
        pid: Some(7),
        process_name: "postgres".to_string(),
        service_name: None,
        managed_by: None,
        project: None,
        source: PortSource::Live,
    }];
    let settings = vec![ProjectPort {
        port: 3000,
        project_path: "/h/app".to_string(),
        project_name: "app".to_string(),
        file_path: "/h/app/.env".to_string(),
        line_number: 1,
        line_content: "PORT=3000".to_string(),
        config_key: "PORT".to_string(),
    }];
    assert!(detect_conflicts(&ports, &[], &settings).is_empty());
}

#[test]
fn project_settings_from_two_directories_conflict() {
    let settings = vec![
        setting(5173, "/p/a", "a"),
        setting(5173, "/p/b", "b"),
        setting(5173, "/p/a", "a2"),
    ];
    let conflicts = detect_conflicts(&[], &[], &settings);
    assert_eq!(conflicts.len(), 2);
    assert_eq!(conflicts[0].process_a, "a");
    assert_eq!(conflicts[0].process_b, "b");
    assert_eq!(conflicts[0].bind_a, "configured");
    assert_eq!(conflicts[0].explanation, "Both 'a' and 'b' are configured to use port 5173");
    assert_eq!(conflicts[1].process_a, "b");
    assert_eq!(conflicts[1].process_b, "a2");
    assert_eq!(conflicts[1].suggestion, Some(5174));
}

#[test]
fn merged_view_enriches_and_adds_missing_ports() {
    let ports = vec![live(8080, "0.0.0.0", Some(7), "java"), live(3000, "0.0.0.0", Some(1), "node")];
    let pm = vec![entry(3000, "web", "me"), entry(5432, "db", "ops"), entry(5432, "db2", "ops2")];
    let settings = vec![setting(3000, "/p/web", "web"), setting(6379, "/p/cache", "cache")];
    let docker = vec![("api".to_string(), 8080u16, "0.0.0.0".to_string())];
    let merged = merge_ports(&ports, &pm, &settings, &docker);
    assert_eq!(merged.len(), 4);
    assert_eq!(merged[0].port, 3000);
    assert_eq!(merged[0].service_name, Some("web".to_string()));
    assert_eq!(merged[0].managed_by, Some("me".to_string()));
    assert_eq!(merged[0].project, Some("web".to_string()));
    assert_eq!(merged[0].source, PortSource::Live);
    assert_eq!(merged[1].port, 5432);
    assert_eq!(merged[1].service_name, Some("db".to_string()));
    assert_eq!(merged[1].bind_address, "127.0.0.1");
    assert_eq!(merged[1].source, PortSource::Portmaster);
    assert_eq!(merged[1].process_name, "");
    assert_eq!(merged[2].port, 6379);
    assert_eq!(merged[2].protocol, "TCP");
    assert_eq!(merged[2].bind_address, "*");
    assert_eq!(merged[2].project, Some("cache".to_string()));
    assert_eq!(merged[2].source, PortSource::ProjectConfig);
    assert_eq!(merged[3].port, 8080);
    assert_eq!(merged[3].managed_by, Some("Docker (api)".to_string()));
    assert_eq!(merged[3].source, PortSource::Docker);
}

#[test]
fn merged_view_keeps_order_of_equal_ports() {
    let ports = vec![live(3000, "b", Some(2), "second"), live(3000, "a", Some(1), "first")];
    let merged = merge_ports(&ports, &[], &[], &[]);
    assert_eq!(merged[0].process_name, "second");
    assert_eq!(merged[1].process_name, "first");
}

#[test]
fn every_clashing_pair_is_reported_earlier_socket_first() {
    let ports = vec![
        live(5000, "127.0.0.1", Some(1), "a"),
        live(6000, "0.0.0.0", Some(2), "b"),
        live(5000, "::1", Some(3), "c"),
        live(5000, "localhost", Some(4), "d"),
    ];
    let conflicts = detect_conflicts(&ports, &[], &[]);
    let pairs: Vec<(String, String)> = conflicts
        .iter()
        .map(|c| (c.process_a.clone(), c.process_b.clone()))
        .collect();
    assert_eq!(
        pairs,
        vec![
            ("a".to_string(), "c".to_string()),
            ("a".to_string(), "d".to_string()),
            ("c".to_string(), "d".to_string()),
        ]
    );
    assert!(conflicts.iter().all(|c| c.port == 5000));
    assert_eq!(conflicts[0].suggestion, Some(5001));
}

#[test]
fn suggestions_skip_declared_ports() {
    let declared = vec![entry(3000, "web", "me"), entry(3001, "api", "me")];
    assert_eq!(suggest_port(3000, 3999, &[], &declared), Ok(3002));
    let ports = vec![live(3002, "0.0.0.0", Some(1), "x")];
    assert_eq!(suggest_port(3000, 3003, &ports, &declared), Ok(3003));
    assert_eq!(
        suggest_port(3000, 3002, &ports, &declared),
        Err("No free ports in range 3000-3002".to_string())
    );
}

#[test]
fn one_port_declared_twice_in_a_file_conflicts() {
    let mut other = entry(8000, "api", "ops");
    other.bind = "0.0.0.0".to_string();
    let pm = vec![entry(8000, "web", "me"), entry(9000, "x", "y"), other];
    let conflicts = detect_conflicts(&[], &pm, &[]);
    assert_eq!(conflicts.len(), 1);
    let c = &conflicts[0];
    assert_eq!(c.port, 8000);
    assert_eq!(c.process_a, "me");
    assert_eq!(c.process_b, "ops");
    assert_eq!(c.bind_a, "127.0.0.1");
    assert_eq!(c.bind_b, "0.0.0.0");
    assert_eq!(c.pid_a, None);
    assert_eq!(c.suggestion, Some(8001));
    assert_eq!(c.explanation, "Port 8000 is declared for both 'me' and 'ops'");
    let mut later = entry(8000, "api", "ops");
    later.source_file = "/y/PORTMASTER.md".to_string();
    assert!(detect_conflicts(&[], &[entry(8000, "web", "me"), later], &[]).is_empty());
    assert!(detect_conflicts(&[], &[entry(8000, "web", "me"), entry(8000, "w", "me")], &[]).is_empty());
}

#[test]
fn a_live_process_that_is_not_the_declared_owner_conflicts() {
    let pm = vec![entry(5432, "db", "Postgres Team")];
    let ports = vec![live(5432, "127.0.0.1", Some(3), "node")];
    let conflicts = detect_conflicts(&ports, &pm, &[]);
    assert_eq!(conflicts.len(), 1);
    let c = &conflicts[0];
    assert_eq!(c.port, 5432);
    assert_eq!(c.process_a, "node");
    assert_eq!(c.process_b, "Postgres Team");
    assert_eq!(c.pid_a, Some(3));
    assert_eq!(c.bind_a, "127.0.0.1");
    assert_eq!(c.bind_b, "127.0.0.1");
    assert_eq!(c.suggestion, Some(5433));
    assert_eq!(c.explanation, "'node' is listening on port 5432, which PORTMASTER.md assigns to 'Postgres Team'");
    let owned = vec![live(5432, "127.0.0.1", Some(3), "postgres")];
    assert!(detect_conflicts(&owned, &pm, &[]).is_empty());
    let docker = vec![entry(2375, "engine", "Docker Desktop")];
    let backend = vec![live(2375, "127.0.0.1", Some(4), "com.docker.backend")];
    assert!(detect_conflicts(&backend, &docker, &[]).is_empty());
    let unnamed = vec![live(5432, "0.0.0.0", Some(5), "")];
    assert!(detect_conflicts(&unnamed, &pm, &[]).is_empty());
    let elsewhere = vec![live(5433, "0.0.0.0", Some(5), "node")];
    assert!(detect_conflicts(&elsewhere, &pm, &[]).is_empty());
}
