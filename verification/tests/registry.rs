use lighthouse::portmaster::{load_all_portmasters, parse_allocation_ranges, parse_portmaster_file};
use lighthouse::PortmasterEntry;

#[test]
fn table_rows_become_entries() {
    let content = "# Ports\n\n| Port | Service | Protocol | Bind | Managed By | Notes |\n|------|---------|----------|------|------------|-------|\n| 3000 | web app | TCP | 127.0.0.1 | me | dev server |\n| 5432 | postgres | TCP | 0.0.0.0 | docker | |\n";
    let entries = parse_portmaster_file("/h/PORTMASTER.md", content).unwrap();
    assert_eq!(entries.len(), 2);
    assert_eq!(entries[1].port, 5432);
    assert_eq!(entries[1].service, "postgres");
    assert_eq!(entries[1].managed_by, "docker");
    assert_eq!(entries[1].notes, "");
    assert_eq!(
        entries[0],
        PortmasterEntry {
            port: 3000,
            service: "web app".to_string(),
            protocol: "TCP".to_string(),
            bind: "127.0.0.1".to_string(),
            managed_by: "me".to_string(),
            notes: "dev server".to_string(),
            source_file: "/h/PORTMASTER.md".to_string(),
        }
    );
}

#[test]
fn plain_lines_are_read_when_there_is_no_table() {
    let content = "3000: web\n  8080 = api server  \n1: too short\nnot a port\n";
    let entries = parse_portmaster_file("p.md", content).unwrap();
    assert_eq!(entries.len(), 2);
    assert_eq!(entries[0].port, 3000);
    assert_eq!(entries[0].service, "web");
    assert_eq!(entries[0].protocol, "TCP");
    assert_eq!(entries[0].bind, "*");
    assert_eq!(entries[0].managed_by, "unknown");
    assert_eq!(entries[0].notes, "");
    assert_eq!(entries[1].port, 8080);
    assert_eq!(entries[1].service, "api server");
    assert_eq!(entries[1].source_file, "p.md");
}

#[test]
fn allocation_ranges() {
    let ranges = parse_allocation_ranges("3000 - 3999 | App servers\n8000-8999|APIs \n").unwrap();
    assert_eq!(
        ranges,
        vec![(3000, 3999, "App servers".to_string()), (8000, 8999, "APIs".to_string())]
    );
}

fn entry(port: u16, service: &str, file: &str) -> PortmasterEntry {
    PortmasterEntry {
        port,
        service: service.to_string(),
        protocol: "TCP".to_string(),
        bind: "*".to_string(),
        managed_by: "me".to_string(),
        notes: String::new(),
        source_file: file.to_string(),
    }
}

#[test]
fn later_files_override_earlier_ones() {
    let global = vec![entry(8000, "global api", "g"), entry(3000, "global web", "g")];
    let project = vec![entry(3000, "project web", "p"), entry(3000, "project web 2", "p")];
    let all = load_all_portmasters(&[global, project]);
    assert_eq!(all.len(), 2);
    assert_eq!(all[0].port, 3000);
    assert_eq!(all[0].service, "project web 2");
    assert_eq!(all[1].port, 8000);
    assert_eq!(all[1].service, "global api");
}

#[test]
fn no_files_no_entries() {
    assert!(load_all_portmasters(&[]).is_empty());
}
