//! The records that the scanners produce and the resolver combines.
use vstd::prelude::*;

verus! {

/// Where a port in the merged view comes from.
#[derive(Debug, Clone, Copy, PartialEq, Eq)]
pub enum PortSource {
    Live,
    Portmaster,
    ProjectConfig,
    Docker,
}

/// One port in the merged view: a live socket, a declaration or a project setting.
#[derive(Debug, Clone, PartialEq, Eq)]
pub struct PortInfo {
    pub port: u16,
    pub protocol: String,
    pub bind_address: String,
    pub pid: Option<u32>,
    pub process_name: String,
    pub service_name: Option<String>,
    pub managed_by: Option<String>,
    pub project: Option<String>,
    pub source: PortSource,
}

/// Two claims on one port that cannot both be honoured.
#[derive(Debug, Clone, PartialEq, Eq)]
pub struct Conflict {
    pub port: u16,
    pub bind_a: String,
    pub bind_b: String,
    pub process_a: String,
    pub process_b: String,
    pub pid_a: Option<u32>,
    pub pid_b: Option<u32>,
    pub suggestion: Option<u16>,
    pub explanation: String,
}

/// One row of a PORTMASTER.md registry.
#[derive(Debug, Clone, PartialEq, Eq)]
pub struct PortmasterEntry {
    pub port: u16,
    pub service: String,
    pub protocol: String,
    pub bind: String,
    pub managed_by: String,
    pub notes: String,
    pub source_file: String,
}

/// A port that a project's configuration file asks for.
#[derive(Debug, Clone, PartialEq, Eq)]
pub struct ProjectPort {
    pub port: u16,
    pub project_path: String,
    pub project_name: String,
    pub file_path: String,
    pub line_number: usize,
    pub line_content: String,
    pub config_key: String,
}

/// A proposed edit of one configuration line.
#[derive(Debug, Clone, PartialEq, Eq)]
pub struct FixPreview {
    pub file_path: String,
    pub line_number: usize,
    pub old_line: String,
    pub new_line: String,
    pub old_port: u16,
    pub new_port: u16,
}

/// The answer to "is this port free?".
#[derive(Debug, Clone, PartialEq, Eq)]
pub struct PortCheckResult {
    pub port: u16,
    pub in_use: bool,
    pub process: Option<String>,
    pub pid: Option<u32>,
    pub portmaster_entry: Option<PortmasterEntry>,
    pub suggestion: Option<u16>,
}

/// Everything the last scan found.
#[derive(Debug, Clone, PartialEq, Eq)]
pub struct AppState {
    pub ports: Vec<PortInfo>,
    pub conflicts: Vec<Conflict>,
    pub portmaster_entries: Vec<PortmasterEntry>,
    pub project_ports: Vec<ProjectPort>,
    pub last_scan: String,
    pub status: String,
}

/// Why a parse could not be carried out.
#[derive(Debug, Clone, Copy, PartialEq, Eq)]
pub enum ParseError {
    /// The regex engine refused one of the library's patterns.
    PatternRejected,
}

/// A copy of an optional string.
pub fn copy_opt(o: &Option<String>) -> (res: Option<String>)
    ensures
        res == *o,
{
    match o {
        Some(s) => Some(s.clone()),
        None => None,
    }
}

impl PortInfo {
    /// A copy of this record.
    pub fn copy(&self) -> (res: PortInfo)
        ensures
            res == *self,
    {
        PortInfo {
            port: self.port,
            protocol: self.protocol.clone(),
            bind_address: self.bind_address.clone(),
            pid: self.pid,
            process_name: self.process_name.clone(),
            service_name: copy_opt(&self.service_name),
            managed_by: copy_opt(&self.managed_by),
            project: copy_opt(&self.project),
            source: self.source,
        }
    }
}

impl PortmasterEntry {
    /// A copy of this record.
    pub fn copy(&self) -> (res: PortmasterEntry)
        ensures
            res == *self,
    {
        PortmasterEntry {
            port: self.port,
            service: self.service.clone(),
            protocol: self.protocol.clone(),
            bind: self.bind.clone(),
            managed_by: self.managed_by.clone(),
            notes: self.notes.clone(),
            source_file: self.source_file.clone(),
        }
    }
}

impl ProjectPort {
    /// A copy of this record.
    pub fn copy(&self) -> (res: ProjectPort)
        ensures
            res == *self,
    {
        ProjectPort {
            port: self.port,
            project_path: self.project_path.clone(),
            project_name: self.project_name.clone(),
            file_path: self.file_path.clone(),
            line_number: self.line_number,
            line_content: self.line_content.clone(),
            config_key: self.config_key.clone(),
        }
    }
}

impl Conflict {
    /// A copy of this record.
    pub fn copy(&self) -> (res: Conflict)
        ensures
            res == *self,
    {
        Conflict {
            port: self.port,
            bind_a: self.bind_a.clone(),
            bind_b: self.bind_b.clone(),
            process_a: self.process_a.clone(),
            process_b: self.process_b.clone(),
            pid_a: self.pid_a,
            pid_b: self.pid_b,
            suggestion: self.suggestion,
            explanation: self.explanation.clone(),
        }
    }
}

} // verus!
