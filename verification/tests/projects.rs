use lighthouse::projects::{
    config_kind, scan_cargo_toml, scan_docker_compose, scan_env_file, scan_next_config,
    scan_package_json, scan_project_ports, scan_vite_config, ConfigFile, ConfigKind,
};
use lighthouse::ProjectPort;

#[test]
fn file_names_select_the_kind() {
    assert_eq!(config_kind(".env.local"), Some(ConfigKind::Env));
    assert_eq!(config_kind("docker-compose.yaml"), Some(ConfigKind::DockerCompose));
    assert_eq!(config_kind("package.json"), Some(ConfigKind::PackageJson));
    assert_eq!(config_kind("vite.config.ts"), Some(ConfigKind::ViteConfig));
    assert_eq!(config_kind("next.config.mjs"), Some(ConfigKind::NextConfig));
    assert_eq!(config_kind("Cargo.toml"), Some(ConfigKind::CargoToml));
    assert_eq!(config_kind("README.md"), None);
}

#[test]
fn env_files() {
    let content = "NAME=web\n  API_PORT = 4000\nport=5000\nPORT=1\n";
    let found = scan_env_file("/p/web/.env", "/p/web", "web", content).unwrap();
    assert_eq!(
        found,
        vec![
            ProjectPort {
                port: 4000,
                project_path: "/p/web".to_string(),
                project_name: "web".to_string(),
                file_path: "/p/web/.env".to_string(),
                line_number: 2,
                line_content: "API_PORT = 4000".to_string(),
                config_key: "API_PORT".to_string(),
            },
            ProjectPort {
                port: 5000,
                project_path: "/p/web".to_string(),
                project_name: "web".to_string(),
                file_path: "/p/web/.env".to_string(),
                line_number: 3,
                line_content: "port=5000".to_string(),
                config_key: "port".to_string(),
            },
        ]
    );
}

#[test]
fn compose_files() {
    let content = "services:\n  db:\n    ports:\n      - \"5432:5432\"\n      - 99999:80\n";
    let found = scan_docker_compose("/p/c/docker-compose.yml", "/p/c", "c", content).unwrap();
    assert_eq!(found.len(), 1);
    assert_eq!(found[0].port, 5432);
    assert_eq!(found[0].line_number, 4);
    assert_eq!(found[0].line_content, "- \"5432:5432\"");
    assert_eq!(found[0].config_key, "ports");
}

#[test]
fn package_json_scripts() {
    let content = "{\n  \"scripts\": {\n    \"dev\": \"vite --port 5173\",\n    \"start\": \"next start -p 3000\"\n  }\n}\n";
    let found = scan_package_json("/p/w/package.json", "/p/w", "w", content).unwrap();
    assert_eq!(found.len(), 2);
    assert_eq!(found[0].port, 5173);
    assert_eq!(found[1].port, 3000);
    assert_eq!(found[1].config_key, "scripts");
}

#[test]
fn vite_next_and_cargo() {
    let v = scan_vite_config("/p/v/vite.config.ts", "/p/v", "v", "server: {\n  port: 5188,\n}\n").unwrap();
    assert_eq!(v.len(), 1);
    assert_eq!(v[0].port, 5188);
    assert_eq!(v[0].config_key, "server.port");
    let n = scan_next_config("/p/n/next.config.js", "/p/n", "n", "env: { PORT: '3100' }\n").unwrap();
    assert_eq!(n[0].port, 3100);
    assert_eq!(n[0].config_key, "env.PORT");
    let c = scan_cargo_toml("/p/r/Cargo.toml", "/p/r", "r", "[server]\nport = \"8088\"\n").unwrap();
    assert_eq!(c[0].port, 8088);
    assert_eq!(c[0].line_number, 2);
    assert_eq!(c[0].config_key, "port");
}

#[test]
fn project_scan_sorts_and_drops_duplicates() {
    let files = vec![
        ConfigFile {
            kind: ConfigKind::Env,
            path: "/p/b/.env".to_string(),
            project_dir: "/p/b".to_string(),
            project_name: "b".to_string(),
            content: "PORT=3000\n".to_string(),
        },
        ConfigFile {
            kind: ConfigKind::Env,
            path: "/p/a/.env".to_string(),
            project_dir: "/p/a".to_string(),
            project_name: "a".to_string(),
            content: "PORT=3000\nADMIN_PORT=2000\n".to_string(),
        },
        ConfigFile {
            kind: ConfigKind::Env,
            path: "/p/a/.env".to_string(),
            project_dir: "/p/a".to_string(),
            project_name: "a".to_string(),
            content: "PORT=3000\n".to_string(),
        },
    ];
    let found = scan_project_ports(&files).unwrap();
    let summary: Vec<(u16, String, usize)> =
        found.iter().map(|p| (p.port, p.file_path.clone(), p.line_number)).collect();
    assert_eq!(
        summary,
        vec![
            (2000, "/p/a/.env".to_string(), 2),
            (3000, "/p/a/.env".to_string(), 1),
            (3000, "/p/b/.env".to_string(), 1),
        ]
    );
}
