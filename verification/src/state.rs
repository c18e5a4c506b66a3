//! The application state that a scan fills and the monitor refreshes.
use vstd::prelude::*;
use crate::model::{AppState, Conflict, PortInfo, PortmasterEntry, ProjectPort};
use crate::number::{parse_usize_spec, parse_unsigned};
use crate::text::{find_chars, find_from, slice_chars, string_from, string_from_str};

verus! {

impl Default for AppState {
    /// An empty state that has never been scanned.
    fn default() -> (res: AppState)
        ensures
            res.ports@.len() == 0,
            res.conflicts@.len() == 0,
            res.portmaster_entries@.len() == 0,
            res.project_ports@.len() == 0,
            res.last_scan@ == "Never"@,
            res.status@ == "ok"@,
    {
        AppState {
            ports: Vec::new(),
            conflicts: Vec::new(),
            portmaster_entries: Vec::new(),
            project_ports: Vec::new(),
            last_scan: string_from_str("Never"),
            status: string_from_str("ok"),
        }
    }
}

/// The status shown for a set of conflicts: `ok` when there are none,
/// `warning` otherwise.
pub open spec fn status_for(conflicts: Seq<Conflict>) -> Seq<char> {
    if conflicts.len() == 0 {
        "ok"@
    } else {
        "warning"@
    }
}

fn status_text(conflicts: &Vec<Conflict>) -> (res: String)
    ensures
        res@ == status_for(conflicts@),
{
    if conflicts.len() == 0 {
        string_from_str("ok")
    } else {
        string_from_str("warning")
    }
}

impl AppState {
    /// Records a full scan: the merged view (`merge_ports`), its conflicts
    /// (`detect_conflicts`), the registry entries and the project settings, the
    /// time of the scan (`last_scan`, as `HH:MM:SS`) and the status.
    pub fn record_scan(
        &mut self,
        ports: Vec<PortInfo>,
        conflicts: Vec<Conflict>,
        pm_entries: Vec<PortmasterEntry>,
        project_ports: Vec<ProjectPort>,
        last_scan: String,
    )
        ensures
            final(self).ports@ == ports@,
            final(self).conflicts@ == conflicts@,
            final(self).portmaster_entries@ == pm_entries@,
            final(self).project_ports@ == project_ports@,
            final(self).last_scan == last_scan,
            final(self).status@ == status_for(conflicts@),
    {
        self.status = status_text(&conflicts);
        self.ports = ports;
        self.conflicts = conflicts;
        self.portmaster_entries = pm_entries;
        self.project_ports = project_ports;
        self.last_scan = last_scan;
    }

    /// Records one round of the monitor: the merged view, its conflicts, the time
    /// and the status (the registry entries and project settings are kept).
    /// Gives the conflicts on ports that no conflict of `previous` was on, in
    /// order.
    pub fn record_poll(
        &mut self,
        previous: &[Conflict],
        ports: Vec<PortInfo>,
        conflicts: Vec<Conflict>,
        last_scan: String,
    ) -> (new_conflicts: Vec<Conflict>)
        ensures
            final(self).ports@ == ports@,
            final(self).conflicts@ == conflicts@,
            final(self).portmaster_entries == old(self).portmaster_entries,
            final(self).project_ports == old(self).project_ports,
            final(self).last_scan == last_scan,
            final(self).status@ == status_for(conflicts@),
            new_conflicts@ == conflicts@.filter(|c: Conflict| !on_port(previous@, c.port)),
    {
        let fresh = new_conflicts_among(&conflicts, previous);
        self.status = status_text(&conflicts);
        self.ports = ports;
        self.conflicts = conflicts;
        self.last_scan = last_scan;
        fresh
    }
}

/// Whether some conflict of `cs` is on `port`.
pub open spec fn on_port(cs: Seq<Conflict>, port: u16) -> bool {
    exists|i: int| 0 <= i < cs.len() && cs[i].port == port
}

fn conflict_on(cs: &[Conflict], port: u16) -> (res: bool)
    ensures
        res == on_port(cs@, port),
{
    let mut i: usize = 0;
    while i < cs.len()
        invariant
            0 <= i <= cs@.len(),
            forall|k: int| 0 <= k < i ==> cs@[k].port != port,
        decreases cs.len() - i,
    {
        if cs[i].port == port {
            return true;
        }
        i = i + 1;
    }
    false
}

/// The conflicts of `current` on ports that no conflict of `previous` was on.
pub fn new_conflicts_among(current: &Vec<Conflict>, previous: &[Conflict]) -> (res: Vec<Conflict>)
    ensures
        res@ == current@.filter(|c: Conflict| !on_port(previous@, c.port)),
{
    let ghost pred = |c: Conflict| !on_port(previous@, c.port);
    let mut res: Vec<Conflict> = Vec::new();
    let mut i: usize = 0;
    while i < current.len()
        invariant
            0 <= i <= current@.len(),
            pred == (|c: Conflict| !on_port(previous@, c.port)),
            res@ == current@.take(i as int).filter(pred),
        decreases current.len() - i,
    {
        reveal_with_fuel(Seq::<_>::filter, 1);
        assert(current@.take(i + 1).drop_last() == current@.take(i as int));
        if !conflict_on(previous, current[i].port) {
            res.push(current[i].copy());
        }
        i = i + 1;
    }
    assert(current@.take(current@.len() as int) == current@);
    res
}

/// The file and line named by a `file:line` identifier: the text before the
/// first `:` and the number after it.
pub open spec fn project_port_id(id: Seq<char>) -> Result<(Seq<char>, usize), Seq<char>> {
    match find_from(id, seq![':'], 0) {
        Some(c) => match parse_usize_spec(id.skip(c + 1)) {
            Some(n) => Ok((id.take(c), n)),
            None => Err("Invalid line number"@),
        },
        None => Err("Invalid project_port_id format"@),
    }
}

/// Splits a `file:line` identifier of a project setting.
pub fn parse_project_port_id(id: &str) -> (res: Result<(String, usize), String>)
    ensures
        match project_port_id(id@) {
            Ok(v) => res matches Ok(r) && r.0@ == v.0 && r.1 == v.1,
            Err(m) => res matches Err(e) && e@ == m,
        },
{
    let chars = crate::text::chars_of(id);
    let colon = vec![':'];
    assert(colon@ == seq![':']);
    match find_chars(&chars, &colon, 0) {
        Some(c) => {
            proof {
                crate::text::lemma_find_from(chars@, colon@, 0);
                let j = find_from(chars@, colon@, 0)->0;
                assert(0 <= j <= chars.len());
                assert(j == c);
            }
            let rest = slice_chars(&chars, c + 1, chars.len());
            assert(rest@ == chars@.skip(c + 1));
            match parse_unsigned(&rest, usize::MAX as u64) {
                Some(n) => {
                    let file = slice_chars(&chars, 0, c);
                    assert(file@ == chars@.take(c as int));
                    Ok((string_from(&file), n as usize))
                },
                None => Err(string_from_str("Invalid line number")),
            }
        },
        None => Err(string_from_str("Invalid project_port_id format")),
    }
}


/// Polling twice without change reports nothing new: no conflict is new
/// against itself.
pub proof fn repeated_poll_reports_nothing(cs: Seq<Conflict>)
    ensures
        cs.filter(|c: Conflict| !on_port(cs, c.port)).len() == 0,
    decreases cs.len(),
{
    let pred = |c: Conflict| !on_port(cs, c.port);
    assert forall|i: int| 0 <= i < cs.len() implies !pred(#[trigger] cs[i]) by {
        assert(on_port(cs, cs[i].port));
    }
    lemma_filter_none(cs, pred);
}

proof fn lemma_filter_none(s: Seq<Conflict>, pred: spec_fn(Conflict) -> bool)
    requires
        forall|i: int| 0 <= i < s.len() ==> !pred(#[trigger] s[i]),
    ensures
        s.filter(pred).len() == 0,
    decreases s.len(),
{
    reveal_with_fuel(Seq::<_>::filter, 1);
    if s.len() > 0 {
        lemma_filter_none(s.drop_last(), pred);
    }
}

} // verus!
