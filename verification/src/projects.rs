//! Ports that projects ask for in their configuration files.
use vstd::prelude::*;
use crate::model::{ParseError, ProjectPort};
use crate::number::{parse_u16_spec, parse_unsigned};
use crate::pattern::{first_captures, group, group_chars, pattern_accepted, regex_accepts, regex_captures, Groups};
use crate::sorting::{is_stable_order, is_stable_sort_of, key_views, stable_order, SortKey};
use crate::text::{last_index_of, rfind_char, slice_chars, lines, same_chars, split_lines, str_is, string_from, string_from_str, trim, trimmed, views};

verus! {

/// The kinds of configuration file that are searched for ports.
#[derive(Debug, Clone, Copy, PartialEq, Eq)]
pub enum ConfigKind {
    /// `.env`, `.env.local`, `.env.development`, `.env.production`.
    Env,
    /// `docker-compose.yml`, `docker-compose.yaml`.
    DockerCompose,
    /// `package.json`.
    PackageJson,
    /// `vite.config.js`, `vite.config.ts`.
    ViteConfig,
    /// `next.config.js`, `next.config.ts`, `next.config.mjs`.
    NextConfig,
    /// `Cargo.toml`.
    CargoToml,
}

/// The kind of configuration file a file name denotes, if any.
pub open spec fn kind_of(name: Seq<char>) -> Option<ConfigKind> {
    if name == ".env"@ || name == ".env.local"@ || name == ".env.development"@ || name
        == ".env.production"@ {
        Some(ConfigKind::Env)
    } else if name == "docker-compose.yml"@ || name == "docker-compose.yaml"@ {
        Some(ConfigKind::DockerCompose)
    } else if name == "package.json"@ {
        Some(ConfigKind::PackageJson)
    } else if name == "vite.config.js"@ || name == "vite.config.ts"@ {
        Some(ConfigKind::ViteConfig)
    } else if name == "next.config.js"@ || name == "next.config.ts"@ || name
        == "next.config.mjs"@ {
        Some(ConfigKind::NextConfig)
    } else if name == "Cargo.toml"@ {
        Some(ConfigKind::CargoToml)
    } else {
        None
    }
}

/// The file names that are scanned and the kind each denotes: `.env`,
/// `.env.local`, `.env.development` and `.env.production` are environment
/// files; `docker-compose.yml` and `docker-compose.yaml` compose files;
/// `package.json`; `vite.config.js` and `vite.config.ts`; `next.config.js`,
/// `next.config.ts` and `next.config.mjs`; `Cargo.toml`. No other name is scanned.
pub proof fn config_file_names_and_kinds(name: Seq<char>)
    ensures
        kind_of(".env"@) == Some(ConfigKind::Env),
        kind_of(".env.local"@) == Some(ConfigKind::Env),
        kind_of(".env.development"@) == Some(ConfigKind::Env),
        kind_of(".env.production"@) == Some(ConfigKind::Env),
        kind_of("docker-compose.yml"@) == Some(ConfigKind::DockerCompose),
        kind_of("docker-compose.yaml"@) == Some(ConfigKind::DockerCompose),
        kind_of("package.json"@) == Some(ConfigKind::PackageJson),
        kind_of("vite.config.js"@) == Some(ConfigKind::ViteConfig),
        kind_of("vite.config.ts"@) == Some(ConfigKind::ViteConfig),
        kind_of("next.config.js"@) == Some(ConfigKind::NextConfig),
        kind_of("next.config.ts"@) == Some(ConfigKind::NextConfig),
        kind_of("next.config.mjs"@) == Some(ConfigKind::NextConfig),
        kind_of("Cargo.toml"@) == Some(ConfigKind::CargoToml),
        kind_of(name) is Some ==> name == ".env"@ || name == ".env.local"@ || name
            == ".env.development"@ || name == ".env.production"@ || name == "docker-compose.yml"@
            || name == "docker-compose.yaml"@ || name == "package.json"@ || name
            == "vite.config.js"@ || name == "vite.config.ts"@ || name == "next.config.js"@ || name
            == "next.config.ts"@ || name == "next.config.mjs"@ || name == "Cargo.toml"@,
{
    reveal_strlit(".env");
    reveal_strlit(".env.local");
    reveal_strlit(".env.development");
    reveal_strlit(".env.production");
    reveal_strlit("docker-compose.yml");
    reveal_strlit("docker-compose.yaml");
    reveal_strlit("package.json");
    reveal_strlit("vite.config.js");
    reveal_strlit("vite.config.ts");
    reveal_strlit("next.config.js");
    reveal_strlit("next.config.ts");
    reveal_strlit("next.config.mjs");
    reveal_strlit("Cargo.toml");
    assert(".env.local"@.len() != ".env"@.len());
    assert(".env.development"@.len() != ".env"@.len());
    assert(".env.development"@.len() != ".env.local"@.len());
    assert(".env.production"@.len() != ".env"@.len());
    assert(".env.production"@.len() != ".env.local"@.len());
    assert(".env.production"@.len() != ".env.development"@.len());
    assert("docker-compose.yml"@.len() != ".env"@.len());
    assert("docker-compose.yml"@.len() != ".env.local"@.len());
    assert("docker-compose.yml"@.len() != ".env.development"@.len());
    assert("docker-compose.yml"@.len() != ".env.production"@.len());
    assert("docker-compose.yaml"@.len() != ".env"@.len());
    assert("docker-compose.yaml"@.len() != ".env.local"@.len());
    assert("docker-compose.yaml"@.len() != ".env.development"@.len());
    assert("docker-compose.yaml"@.len() != ".env.production"@.len());
    assert("docker-compose.yaml"@.len() != "docker-compose.yml"@.len());
    assert("package.json"@.len() != ".env"@.len());
    assert("package.json"@.len() != ".env.local"@.len());
    assert("package.json"@.len() != ".env.development"@.len());
    assert("package.json"@.len() != ".env.production"@.len());
    assert("package.json"@.len() != "docker-compose.yml"@.len());
    assert("package.json"@.len() != "docker-compose.yaml"@.len());
    assert("vite.config.js"@.len() != ".env"@.len());
    assert("vite.config.js"@.len() != ".env.local"@.len());
    assert("vite.config.js"@.len() != ".env.development"@.len());
    assert("vite.config.js"@.len() != ".env.production"@.len());
    assert("vite.config.js"@.len() != "docker-compose.yml"@.len());
    assert("vite.config.js"@.len() != "docker-compose.yaml"@.len());
    assert("vite.config.js"@.len() != "package.json"@.len());
    assert("vite.config.ts"@.len() != ".env"@.len());
    assert("vite.config.ts"@.len() != ".env.local"@.len());
    assert("vite.config.ts"@.len() != ".env.development"@.len());
    assert("vite.config.ts"@.len() != ".env.production"@.len());
    assert("vite.config.ts"@.len() != "docker-compose.yml"@.len());
    assert("vite.config.ts"@.len() != "docker-compose.yaml"@.len());
    assert("vite.config.ts"@.len() != "package.json"@.len());
    assert("vite.config.ts"@[12] != "vite.config.js"@[12]);
    assert("next.config.js"@.len() != ".env"@.len());
    assert("next.config.js"@.len() != ".env.local"@.len());
    assert("next.config.js"@.len() != ".env.development"@.len());
    assert("next.config.js"@.len() != ".env.production"@.len());
    assert("next.config.js"@.len() != "docker-compose.yml"@.len());
    assert("next.config.js"@.len() != "docker-compose.yaml"@.len());
    assert("next.config.js"@.len() != "package.json"@.len());
    assert("next.config.js"@[0] != "vite.config.js"@[0]);
    assert("next.config.js"@[0] != "vite.config.ts"@[0]);
    assert("next.config.ts"@.len() != ".env"@.len());
    assert("next.config.ts"@.len() != ".env.local"@.len());
    assert("next.config.ts"@.len() != ".env.development"@.len());
    assert("next.config.ts"@.len() != ".env.production"@.len());
    assert("next.config.ts"@.len() != "docker-compose.yml"@.len());
    assert("next.config.ts"@.len() != "docker-compose.yaml"@.len());
    assert("next.config.ts"@.len() != "package.json"@.len());
    assert("next.config.ts"@[0] != "vite.config.js"@[0]);
    assert("next.config.ts"@[0] != "vite.config.ts"@[0]);
    assert("next.config.ts"@[12] != "next.config.js"@[12]);
    assert("next.config.mjs"@.len() != ".env"@.len());
    assert("next.config.mjs"@.len() != ".env.local"@.len());
    assert("next.config.mjs"@.len() != ".env.development"@.len());
    assert("next.config.mjs"@[0] != ".env.production"@[0]);
    assert("next.config.mjs"@.len() != "docker-compose.yml"@.len());
    assert("next.config.mjs"@.len() != "docker-compose.yaml"@.len());
    assert("next.config.mjs"@.len() != "package.json"@.len());
    assert("next.config.mjs"@.len() != "vite.config.js"@.len());
    assert("next.config.mjs"@.len() != "vite.config.ts"@.len());
    assert("next.config.mjs"@.len() != "next.config.js"@.len());
    assert("next.config.mjs"@.len() != "next.config.ts"@.len());
    assert("Cargo.toml"@.len() != ".env"@.len());
    assert("Cargo.toml"@[0] != ".env.local"@[0]);
    assert("Cargo.toml"@.len() != ".env.development"@.len());
    assert("Cargo.toml"@.len() != ".env.production"@.len());
    assert("Cargo.toml"@.len() != "docker-compose.yml"@.len());
    assert("Cargo.toml"@.len() != "docker-compose.yaml"@.len());
    assert("Cargo.toml"@.len() != "package.json"@.len());
    assert("Cargo.toml"@.len() != "vite.config.js"@.len());
    assert("Cargo.toml"@.len() != "vite.config.ts"@.len());
    assert("Cargo.toml"@.len() != "next.config.js"@.len());
    assert("Cargo.toml"@.len() != "next.config.ts"@.len());
    assert("Cargo.toml"@.len() != "next.config.mjs"@.len());
}

/// The kind of configuration file a file name denotes, if any.
pub fn config_kind(file_name: &str) -> (res: Option<ConfigKind>)
    ensures
        res == kind_of(file_name@),
{
    if str_is(file_name, ".env") || str_is(file_name, ".env.local") || str_is(
        file_name,
        ".env.development",
    ) || str_is(file_name, ".env.production") {
        Some(ConfigKind::Env)
    } else if str_is(file_name, "docker-compose.yml") || str_is(file_name, "docker-compose.yaml") {
        Some(ConfigKind::DockerCompose)
    } else if str_is(file_name, "package.json") {
        Some(ConfigKind::PackageJson)
    } else if str_is(file_name, "vite.config.js") || str_is(file_name, "vite.config.ts") {
        Some(ConfigKind::ViteConfig)
    } else if str_is(file_name, "next.config.js") || str_is(file_name, "next.config.ts") || str_is(
        file_name,
        "next.config.mjs",
    ) {
        Some(ConfigKind::NextConfig)
    } else if str_is(file_name, "Cargo.toml") {
        Some(ConfigKind::CargoToml)
    } else {
        None
    }
}

/// `KEY=port` lines of `.env` files (matched on the trimmed line).
pub const ENV_PATTERN: &'static str = "(?i)^([A-Z_]*PORT[A-Z_]*)\\s*=\\s*(\\d{2,5})";

/// `host:container` port mappings of compose files.
pub const COMPOSE_PATTERN: &'static str = "(\\d{2,5}):\\d{2,5}";

/// Port settings in `package.json` scripts.
pub const PACKAGE_PATTERN: &'static str = "(?i)(?:\"PORT\"\\s*=|port\\s*[=:\\s]+|-p\\s+|--port\\s+)(\\d{2,5})";

/// `port: n` in Vite configurations.
pub const VITE_PATTERN: &'static str = "(?i)port\\s*:\\s*(\\d{2,5})";

/// `PORT: n` or `PORT = 'n'` in Next.js configurations.
pub const NEXT_PATTERN: &'static str = "(?i)(?:PORT|port)\\s*[:=]\\s*['\"]?(\\d{2,5})['\"]?";

/// `port = n` in `Cargo.toml`.
pub const CARGO_PATTERN: &'static str = "(?i)(?:port|PORT)\\s*=\\s*['\"]?(\\d{2,5})['\"]?";

/// The pattern searched for in a kind of file.
pub open spec fn kind_pattern(k: ConfigKind) -> Seq<char> {
    match k {
        ConfigKind::Env => ENV_PATTERN@,
        ConfigKind::DockerCompose => COMPOSE_PATTERN@,
        ConfigKind::PackageJson => PACKAGE_PATTERN@,
        ConfigKind::ViteConfig => VITE_PATTERN@,
        ConfigKind::NextConfig => NEXT_PATTERN@,
        ConfigKind::CargoToml => CARGO_PATTERN@,
    }
}

/// The configuration key recorded for a kind whose key is fixed.
pub open spec fn fixed_key(k: ConfigKind) -> Seq<char> {
    match k {
        ConfigKind::Env => Seq::empty(),
        ConfigKind::DockerCompose => "ports"@,
        ConfigKind::PackageJson => "scripts"@,
        ConfigKind::ViteConfig => "server.port"@,
        ConfigKind::NextConfig => "env.PORT"@,
        ConfigKind::CargoToml => "port"@,
    }
}

/// A project setting as text: port, project path, project name, file path,
/// line number, line content, configuration key.
pub type SettingText = (u16, Seq<char>, Seq<char>, Seq<char>, usize, Seq<char>, Seq<char>);

/// The text of a project setting.
pub open spec fn setting_text(p: ProjectPort) -> SettingText {
    (
        p.port,
        p.project_path@,
        p.project_name@,
        p.file_path@,
        p.line_number,
        p.line_content@,
        p.config_key@,
    )
}

/// The texts of project settings.
pub open spec fn setting_texts(v: Seq<ProjectPort>) -> Seq<SettingText> {
    v.map_values(|p: ProjectPort| setting_text(p))
}

/// Where a configuration file stands: its kind, path, project directory and
/// project name.
pub struct FileSite {
    pub kind: ConfigKind,
    pub path: Seq<char>,
    pub dir: Seq<char>,
    pub name: Seq<char>,
}

/// The setting on line `number` (counting from 1) of a file: the kind's pattern
/// is matched against the line (trimmed first for `.env` files); the port is the
/// last group for `.env` files and the first otherwise; the key is the first
/// group for `.env` files and fixed otherwise.
pub open spec fn line_setting(site: FileSite, line: Seq<char>, number: int) -> Option<SettingText> {
    let hay = if site.kind == ConfigKind::Env {
        trim(line)
    } else {
        line
    };
    setting_of(site, line, number, regex_captures(kind_pattern(site.kind), hay))
}

/// The setting on line `number` of a file, given the capture groups of the
/// kind's pattern matched against the line (`None` when it did not match).
pub open spec fn setting_of(
    site: FileSite,
    line: Seq<char>,
    number: int,
    caps: Option<Groups>,
) -> Option<SettingText> {
    let env = site.kind == ConfigKind::Env;
    match caps {
        Some(g) => {
            let key = if env {
                group(g, 1)
            } else {
                Some(fixed_key(site.kind))
            };
            match (group(g, if env { 2 } else { 1 }), key) {
                (Some(d), Some(key)) => match parse_u16_spec(d) {
                    Some(p) => Some(
                        (p, site.dir, site.name, site.path, number as usize, trim(line), key),
                    ),
                    None => None,
                },
                _ => None,
            }
        },
        None => None,
    }
}

/// The settings on the given lines of a file, in order.
pub open spec fn line_settings(site: FileSite, ls: Seq<Seq<char>>) -> Seq<SettingText>
    decreases ls.len(),
{
    if ls.len() == 0 {
        seq![]
    } else {
        match line_setting(site, ls.last(), ls.len() as int) {
            Some(t) => line_settings(site, ls.drop_last()).push(t),
            None => line_settings(site, ls.drop_last()),
        }
    }
}

/// The settings of a file, or `None` when the pattern engine refuses its pattern.
pub open spec fn file_settings(site: FileSite, content: Seq<char>) -> Option<Seq<SettingText>> {
    if regex_accepts(kind_pattern(site.kind)) {
        Some(line_settings(site, lines(content)))
    } else {
        None
    }
}

/// `res` is the outcome of scanning a file: its settings, or the refusal of
/// the kind's pattern.
pub open spec fn is_scan_of(
    res: Result<Vec<ProjectPort>, ParseError>,
    kind: ConfigKind,
    path: Seq<char>,
    dir: Seq<char>,
    name: Seq<char>,
    content: Seq<char>,
) -> bool {
    let site = FileSite { kind, path, dir, name };
    match res {
        Ok(v) => file_settings(site, content) == Some(setting_texts(v@)),
        Err(e) => file_settings(site, content) == None::<Seq<SettingText>> && e
            == ParseError::PatternRejected,
    }
}

fn kind_pattern_text(kind: ConfigKind) -> (res: &'static str)
    ensures
        res@ == kind_pattern(kind),
{
    match kind {
        ConfigKind::Env => ENV_PATTERN,
        ConfigKind::DockerCompose => COMPOSE_PATTERN,
        ConfigKind::PackageJson => PACKAGE_PATTERN,
        ConfigKind::ViteConfig => VITE_PATTERN,
        ConfigKind::NextConfig => NEXT_PATTERN,
        ConfigKind::CargoToml => CARGO_PATTERN,
    }
}

fn fixed_key_text(kind: ConfigKind) -> (res: String)
    ensures
        res@ == fixed_key(kind),
{
    match kind {
        ConfigKind::Env => String::new(),
        ConfigKind::DockerCompose => string_from_str("ports"),
        ConfigKind::PackageJson => string_from_str("scripts"),
        ConfigKind::ViteConfig => string_from_str("server.port"),
        ConfigKind::NextConfig => string_from_str("env.PORT"),
        ConfigKind::CargoToml => string_from_str("port"),
    }
}

/// The setting on line `number` (counting from 1) of the configuration file at
/// `path`, given the capture groups of the kind's pattern matched against the
/// line (trimmed first for `.env` files), or `None` when it did not match.
pub fn setting_from_captures(
    kind: ConfigKind,
    path: &str,
    project_dir: &str,
    project_name: &str,
    number: usize,
    line: &Vec<char>,
    caps: &Option<Vec<Option<(usize, String)>>>,
) -> (res: Option<ProjectPort>)
    ensures
        match setting_of(
            (FileSite { kind, path: path@, dir: project_dir@, name: project_name@ }),
            line@,
            number as int,
            caps.deep_view(),
        ) {
            Some(t) => res matches Some(pp) && setting_text(pp) == t,
            None => res is None,
        },
{
    let env = match kind {
        ConfigKind::Env => true,
        _ => false,
    };
    match caps {
        Some(g) => {
            let key = if env {
                match group_chars(g, 1) {
                    Some(k) => Some(string_from(&k)),
                    None => None,
                }
            } else {
                Some(fixed_key_text(kind))
            };
            match (group_chars(g, if env { 2 } else { 1 }), key) {
                (Some(d), Some(key)) => match parse_unsigned(&d, 65535) {
                    Some(p) => Some(
                        ProjectPort {
                            port: p as u16,
                            project_path: string_from_str(project_dir),
                            project_name: string_from_str(project_name),
                            file_path: string_from_str(path),
                            line_number: number,
                            line_content: string_from(&trimmed(line)),
                            config_key: key,
                        },
                    ),
                    None => None,
                },
                _ => None,
            }
        },
        None => None,
    }
}

/// The ports that a configuration file of the given kind asks for. Fails only
/// when the pattern engine refuses the kind's pattern.
pub fn scan_config_file(
    kind: ConfigKind,
    path: &str,
    project_dir: &str,
    project_name: &str,
    content: &str,
) -> (res: Result<Vec<ProjectPort>, ParseError>)
    ensures
        is_scan_of(res, kind, path@, project_dir@, project_name@, content@),
{
    let ghost site = FileSite { kind, path: path@, dir: project_dir@, name: project_name@ };
    let pattern = kind_pattern_text(kind);
    if !pattern_accepted(pattern) {
        return Err(ParseError::PatternRejected);
    }
    let env = match kind {
        ConfigKind::Env => true,
        _ => false,
    };
    let chars = crate::text::chars_of(content);
    let ls = split_lines(&chars);
    let ghost lv = views(ls@);
    let mut found: Vec<ProjectPort> = Vec::new();
    let mut i: usize = 0;
    while i < ls.len()
        invariant
            lv == views(ls@),
            lv == lines(content@),
            site == (FileSite { kind, path: path@, dir: project_dir@, name: project_name@ }),
            pattern@ == kind_pattern(kind),
            env == (kind == ConfigKind::Env),
            regex_accepts(kind_pattern(kind)),
            0 <= i <= ls@.len(),
            setting_texts(found@) == line_settings(site, lv.take(i as int)),
        decreases ls.len() - i,
    {
        let line = &ls[i];
        assert(lv.take(i + 1).drop_last() == lv.take(i as int));
        assert(lv.take(i + 1).last() == line@);
        let hay = if env {
            string_from(&trimmed(line))
        } else {
            string_from(line)
        };
        let caps = match first_captures(pattern, hay.as_str()) {
            Ok(c) => c,
            Err(_) => None,
        };
        match setting_from_captures(kind, path, project_dir, project_name, i + 1, line, &caps) {
            Some(pp) => {
                let ghost before = found@;
                found.push(pp);
                assert(setting_texts(found@) == setting_texts(before).push(setting_text(pp)));
            },
            None => {},
        }
        i = i + 1;
    }
    assert(lv.take(ls@.len() as int) == lv);
    Ok(found)
}

/// The ports that an environment file asks for (`NAME_PORT=3000`).
pub fn scan_env_file(path: &str, project_dir: &str, project_name: &str, content: &str) -> (res: Result<
    Vec<ProjectPort>,
    ParseError,
>)
    ensures
        is_scan_of(res, ConfigKind::Env, path@, project_dir@, project_name@, content@),
{
    scan_config_file(ConfigKind::Env, path, project_dir, project_name, content)
}

/// The ports that a compose file maps (`"3000:3000"`).
pub fn scan_docker_compose(path: &str, project_dir: &str, project_name: &str, content: &str) -> (res: Result<
    Vec<ProjectPort>,
    ParseError,
>)
    ensures
        is_scan_of(res, ConfigKind::DockerCompose, path@, project_dir@, project_name@, content@),
{
    scan_config_file(ConfigKind::DockerCompose, path, project_dir, project_name, content)
}

/// The ports that the scripts of a `package.json` pass (`--port 3000`, `PORT=3000`).
pub fn scan_package_json(path: &str, project_dir: &str, project_name: &str, content: &str) -> (res: Result<
    Vec<ProjectPort>,
    ParseError,
>)
    ensures
        is_scan_of(res, ConfigKind::PackageJson, path@, project_dir@, project_name@, content@),
{
    scan_config_file(ConfigKind::PackageJson, path, project_dir, project_name, content)
}

/// The ports that a Vite configuration sets (`port: 5173`).
pub fn scan_vite_config(path: &str, project_dir: &str, project_name: &str, content: &str) -> (res: Result<
    Vec<ProjectPort>,
    ParseError,
>)
    ensures
        is_scan_of(res, ConfigKind::ViteConfig, path@, project_dir@, project_name@, content@),
{
    scan_config_file(ConfigKind::ViteConfig, path, project_dir, project_name, content)
}

/// The ports that a Next.js configuration sets (`PORT: 3000`).
pub fn scan_next_config(path: &str, project_dir: &str, project_name: &str, content: &str) -> (res: Result<
    Vec<ProjectPort>,
    ParseError,
>)
    ensures
        is_scan_of(res, ConfigKind::NextConfig, path@, project_dir@, project_name@, content@),
{
    scan_config_file(ConfigKind::NextConfig, path, project_dir, project_name, content)
}

/// The ports that a `Cargo.toml` sets (`port = 8080`).
pub fn scan_cargo_toml(path: &str, project_dir: &str, project_name: &str, content: &str) -> (res: Result<
    Vec<ProjectPort>,
    ParseError,
>)
    ensures
        is_scan_of(res, ConfigKind::CargoToml, path@, project_dir@, project_name@, content@),
{
    scan_config_file(ConfigKind::CargoToml, path, project_dir, project_name, content)
}

/// The directory of the file at `path`: the text before its last separator
/// (the root itself when that separator opens the path), or nothing when the
/// path has no separator. For paths without repeated or trailing separators
/// this is `Path::parent`.
pub open spec fn site_dir(path: Seq<char>, sep: char) -> Seq<char> {
    match last_index_of(path, sep) {
        Some(i) => if i == 0 {
            path.take(1)
        } else {
            path.take(i)
        },
        None => Seq::empty(),
    }
}

/// The project name of the file at `path`: the last component of its
/// directory, or `unknown` when the directory has none (it is empty or the root).
pub open spec fn site_name(path: Seq<char>, sep: char) -> Seq<char> {
    let d = site_dir(path, sep);
    let tail = match last_index_of(d, sep) {
        Some(i) => d.skip(i + 1),
        None => d,
    };
    if tail.len() == 0 {
        "unknown"@
    } else {
        tail
    }
}

/// The project directory and project name of the configuration file at `path`,
/// whose components are separated by `sep`.
pub fn project_site(path: &str, sep: char) -> (res: (String, String))
    ensures
        res.0@ == site_dir(path@, sep),
        res.1@ == site_name(path@, sep),
{
    let p = crate::text::chars_of(path);
    let dir = match rfind_char(&p, sep) {
        Some(i) => if i == 0 {
            slice_chars(&p, 0, 1)
        } else {
            slice_chars(&p, 0, i)
        },
        None => Vec::new(),
    };
    assert(dir@ == site_dir(path@, sep));
    let tail = match rfind_char(&dir, sep) {
        Some(i) => slice_chars(&dir, i + 1, dir.len()),
        None => slice_chars(&dir, 0, dir.len()),
    };
    assert(dir@.subrange(0, dir@.len() as int) == dir@);
    let name = if tail.len() == 0 {
        string_from_str("unknown")
    } else {
        string_from(&tail)
    };
    (string_from(&dir), name)
}

/// A configuration file found while walking the project directories.
pub struct ConfigFile {
    pub kind: ConfigKind,
    pub path: String,
    pub project_dir: String,
    pub project_name: String,
    pub content: String,
}

/// The site of a found configuration file.
pub open spec fn site_of(f: ConfigFile) -> FileSite {
    FileSite { kind: f.kind, path: f.path@, dir: f.project_dir@, name: f.project_name@ }
}

/// The settings of all files, file after file; `None` when a needed pattern is refused.
pub open spec fn all_settings(files: Seq<ConfigFile>) -> Option<Seq<SettingText>>
    decreases files.len(),
{
    if files.len() == 0 {
        Some(seq![])
    } else {
        match (all_settings(files.drop_last()), file_settings(site_of(files.last()), files.last().content@)) {
            (Some(a), Some(b)) => Some(a + b),
            _ => None,
        }
    }
}

/// The sort keys of settings: port, then file path.
pub open spec fn setting_keys(s: Seq<SettingText>) -> Seq<SortKey> {
    s.map_values(|t: SettingText| (t.0, t.3))
}

/// Two settings are duplicates when port, file and line agree.
pub open spec fn same_setting(a: SettingText, b: SettingText) -> bool {
    a.0 == b.0 && a.3 == b.3 && a.4 == b.4
}

/// `Vec::dedup_by`: each setting that duplicates the last one kept is dropped.
pub open spec fn dedup_settings(s: Seq<SettingText>) -> Seq<SettingText>
    decreases s.len(),
{
    if s.len() == 0 {
        s
    } else {
        let d = dedup_settings(s.drop_last());
        if d.len() > 0 && same_setting(d.last(), s.last()) {
            d
        } else {
            d.push(s.last())
        }
    }
}

/// `res` lists the settings `raw` stably sorted by port and file, with
/// consecutive duplicates removed.
pub open spec fn is_settings_listing(res: Seq<ProjectPort>, raw: Seq<SettingText>) -> bool {
    exists|sorted: Seq<SettingText>|
        #![trigger is_stable_sort_of(sorted, raw, setting_keys(raw))]
        {
            &&& is_stable_sort_of(sorted, raw, setting_keys(raw))
            &&& setting_texts(res) == dedup_settings(sorted)
        }
}

/// The ports that the found configuration files ask for, sorted by port and
/// file, without duplicates of port, file and line. Fails only when the pattern
/// engine refuses the pattern of a kind of file that was found.
pub fn scan_project_ports(files: &[ConfigFile]) -> (res: Result<Vec<ProjectPort>, ParseError>)
    ensures
        match res {
            Ok(v) => all_settings(files@) matches Some(raw) && is_settings_listing(v@, raw),
            Err(e) => all_settings(files@) == None::<Seq<SettingText>> && e
                == ParseError::PatternRejected,
        },
{
    let mut results: Vec<ProjectPort> = Vec::new();
    let mut f: usize = 0;
    while f < files.len()
        invariant
            0 <= f <= files@.len(),
            all_settings(files@.take(f as int)) == Some(setting_texts(results@)),
        decreases files.len() - f,
    {
        assert(files@.take(f + 1).drop_last() == files@.take(f as int));
        let file = &files[f];
        let found = scan_config_file(
            file.kind,
            file.path.as_str(),
            file.project_dir.as_str(),
            file.project_name.as_str(),
            file.content.as_str(),
        );
        match found {
            Ok(mut v) => {
                let ghost before = results@;
                let ghost add = v@;
                results.append(&mut v);
                assert(results@ == before + add);
                assert(setting_texts(results@) == setting_texts(before) + setting_texts(add));
            },
            Err(e) => {
                proof {
                    lemma_one_file_refused(files@, f as int + 1);
                }
                return Err(e);
            },
        }
        f = f + 1;
    }
    assert(files@.take(files@.len() as int) == files@);
    let ghost raw = setting_texts(results@);
    let mut keys: Vec<(u16, Vec<char>)> = Vec::new();
    let mut k: usize = 0;
    while k < results.len()
        invariant
            raw == setting_texts(results@),
            0 <= k <= results@.len(),
            keys@.len() == k,
            forall|t: int| 0 <= t < k ==> #[trigger] key_views(keys@)[t] == setting_keys(raw)[t],
        decreases results.len() - k,
    {
        let ghost before = keys@;
        keys.push((results[k].port, crate::text::chars_of(results[k].file_path.as_str())));
        assert forall|t: int| 0 <= t < k + 1 implies #[trigger] key_views(keys@)[t]
            == setting_keys(raw)[t] by {
            if t < k {
                assert(keys@[t] == before[t]);
                assert(key_views(before)[t] == setting_keys(raw)[t]);
            }
        }
        k = k + 1;
    }
    assert(key_views(keys@) =~= setting_keys(raw));
    let p = stable_order(&keys);
    let ghost sorted = Seq::new(results@.len(), |t: int| raw[p@[t] as int]);
    assert(is_stable_sort_of(sorted, raw, setting_keys(raw)));
    let mut kept: Vec<ProjectPort> = Vec::new();
    let mut k: usize = 0;
    while k < p.len()
        invariant
            raw == setting_texts(results@),
            is_stable_order(setting_keys(raw), p@),
            sorted == Seq::new(results@.len(), |t: int| raw[p@[t] as int]),
            p@.len() == results@.len(),
            0 <= k <= p@.len(),
            setting_texts(kept@) == dedup_settings(sorted.take(k as int)),
        decreases p.len() - k,
    {
        let r = &results[p[k]];
        assert(sorted.take(k + 1).drop_last() == sorted.take(k as int));
        assert(sorted[k as int] == setting_text(*r));
        let n = kept.len();
        let dup = n > 0 && kept[n - 1].port == r.port && str_is(
            kept[n - 1].file_path.as_str(),
            r.file_path.as_str(),
        ) && kept[n - 1].line_number == r.line_number;
        if !dup {
            let ghost before = kept@;
            kept.push(r.copy());
            assert(setting_texts(kept@) == setting_texts(before).push(setting_text(*r)));
        }
        k = k + 1;
    }
    assert(sorted.take(p@.len() as int) == sorted);
    Ok(kept)
}

proof fn lemma_one_file_refused(files: Seq<ConfigFile>, n: int)
    requires
        0 < n <= files.len(),
        file_settings(site_of(files[n - 1]), files[n - 1].content@) == None::<Seq<SettingText>>,
    ensures
        all_settings(files) == None::<Seq<SettingText>>,
    decreases files.len(),
{
    if files.len() > n {
        lemma_one_file_refused(files.drop_last(), n);
    } else {
        assert(files.last() == files[n - 1]);
    }
}

} // verus!
