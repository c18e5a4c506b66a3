//! Conflict detection, the merged port view and free-port suggestions.
use vstd::prelude::*;
use crate::model::{Conflict, PortInfo, PortSource, PortmasterEntry, ProjectPort};
use crate::number::{decimal, write_decimal};
use crate::owners::{
    clashes_declared, clashes_owner, declared_conflicts, declared_pairs, is_declared_pair_conflict,
    is_owner_conflict, lemma_declared_pairs, lemma_declared_pairs_has, lemma_owner_pairs,
    lemma_owner_pairs_has, owner_conflicts, owner_pairs,
};
use crate::text::{append_str, str_is, string_from_str};

verus! {

// ---------------------------------------------------------------------------
// Addresses
// ---------------------------------------------------------------------------

/// Whether an address names the local host.
pub open spec fn is_local_address(a: Seq<char>) -> bool {
    a == "127.0.0.1"@ || a == "::1"@ || a == "localhost"@
}

/// Whether two bind addresses can collide: the wildcard `0.0.0.0` collides with
/// every address, an address with itself, and the local-host names with each other.
pub open spec fn overlap(a: Seq<char>, b: Seq<char>) -> bool {
    a == "0.0.0.0"@ || b == "0.0.0.0"@ || a == b || (is_local_address(a) && is_local_address(b))
}

/// Whether two bind addresses can collide.
pub fn ports_overlap(addr_a: &str, addr_b: &str) -> (res: bool)
    ensures
        res == overlap(addr_a@, addr_b@),
{
    if str_is(addr_a, "0.0.0.0") || str_is(addr_b, "0.0.0.0") {
        return true;
    }
    if str_is(addr_a, addr_b) {
        return true;
    }
    let is_local_a = str_is(addr_a, "127.0.0.1") || str_is(addr_a, "::1") || str_is(
        addr_a,
        "localhost",
    );
    let is_local_b = str_is(addr_b, "127.0.0.1") || str_is(addr_b, "::1") || str_is(
        addr_b,
        "localhost",
    );
    is_local_a && is_local_b
}

/// The project directory attributed to a process: none is known for any process.
pub open spec fn path_of_process(process_name: Seq<char>) -> Seq<char> {
    Seq::empty()
}

/// The project directory attributed to a process (always empty).
pub fn get_project_path_from_process(process_name: &str) -> (res: String)
    ensures
        res@ == path_of_process(process_name@),
{
    String::new()
}

// ---------------------------------------------------------------------------
// Suggestions
// ---------------------------------------------------------------------------

/// Whether some live socket uses `port`.
pub open spec fn live_has(live: Seq<PortInfo>, port: int) -> bool {
    exists|i: int| 0 <= i < live.len() && live[i].port == port
}

/// The first free port among `p + offset, p - offset, p + offset + 1, p - offset - 1, ...`
/// up to a distance of 99, skipping candidates outside `0..=65535`.
pub open spec fn suggestion_from(p: int, live: Seq<PortInfo>, offset: int) -> Option<u16>
    decreases 100 - offset,
{
    if offset >= 100 || offset < 1 {
        None
    } else if p + offset <= 65535 && !live_has(live, p + offset) {
        Some((p + offset) as u16)
    } else if p >= offset && !live_has(live, p - offset) {
        Some((p - offset) as u16)
    } else {
        suggestion_from(p, live, offset + 1)
    }
}

/// The port suggested in place of a conflicting `port`: the nearest free port,
/// trying `port + 1`, `port - 1`, `port + 2`, `port - 2`, ... up to a distance of 99.
pub open spec fn conflict_suggestion(port: u16, live: Seq<PortInfo>) -> Option<u16> {
    suggestion_from(port as int, live, 1)
}

/// Whether some live socket uses `port`.
pub fn contains_port(live: &[PortInfo], port: u16) -> (res: bool)
    ensures
        res == live_has(live@, port as int),
{
    let mut i: usize = 0;
    while i < live.len()
        invariant
            0 <= i <= live@.len(),
            forall|k: int| 0 <= k < i ==> live@[k].port != port,
        decreases live.len() - i,
    {
        if live[i].port == port {
            return true;
        }
        i = i + 1;
    }
    false
}

/// The nearest free port to a conflicting one.
pub fn suggest_port_for_conflict(
    conflict_port: u16,
    _pm_entries: &[PortmasterEntry],
    live_ports: &[PortInfo],
) -> (res: Option<u16>)
    ensures
        res == conflict_suggestion(conflict_port, live_ports@),
{
    let mut offset: u16 = 1;
    while offset < 100
        invariant
            1 <= offset <= 100,
            conflict_suggestion(conflict_port, live_ports@) == suggestion_from(
                conflict_port as int,
                live_ports@,
                offset as int,
            ),
        decreases 100 - offset,
    {
        if conflict_port as u32 + offset as u32 <= 65535 {
            let up = conflict_port + offset;
            if !contains_port(live_ports, up) {
                return Some(up);
            }
        }
        if conflict_port >= offset {
            let down = conflict_port - offset;
            if !contains_port(live_ports, down) {
                return Some(down);
            }
        }
        offset = offset + 1;
    }
    None
}

/// The first port of `range_start..=range_end` that no live socket uses.
pub open spec fn first_free(live: Seq<PortInfo>, from: int, to: int) -> Option<u16>
    decreases to + 1 - from,
{
    if from > to {
        None
    } else if !live_has(live, from) {
        Some(from as u16)
    } else {
        first_free(live, from + 1, to)
    }
}

/// The first port of `from..=to` that no live socket uses.
pub fn find_free(live_ports: &[PortInfo], from: u16, to: u16) -> (res: Option<u16>)
    ensures
        res == first_free(live_ports@, from as int, to as int),
{
    let mut port: u32 = from as u32;
    while port <= to as u32
        invariant
            from as u32 <= port,
            port <= to as u32 + 1 || port == from as u32,
            first_free(live_ports@, from as int, to as int) == first_free(
                live_ports@,
                port as int,
                to as int,
            ),
        decreases to as u32 + 1 - port,
    {
        if !contains_port(live_ports, port as u16) {
            return Some(port as u16);
        }
        port = port + 1;
    }
    None
}

/// Whether some registry entry declares `port`.
pub open spec fn declares(pm: Seq<PortmasterEntry>, port: int) -> bool {
    exists|i: int| 0 <= i < pm.len() && pm[i].port == port
}

/// The first port of `from..=to` that no live socket uses and no registry entry
/// declares.
pub open spec fn first_open(live: Seq<PortInfo>, pm: Seq<PortmasterEntry>, from: int, to: int) -> Option<
    u16,
>
    decreases to + 1 - from,
{
    if from > to {
        None
    } else if !live_has(live, from) && !declares(pm, from) {
        Some(from as u16)
    } else {
        first_open(live, pm, from + 1, to)
    }
}

/// Whether some registry entry declares `port`.
pub fn declares_port(pm: &[PortmasterEntry], port: u16) -> (res: bool)
    ensures
        res == declares(pm@, port as int),
{
    let mut i: usize = 0;
    while i < pm.len()
        invariant
            0 <= i <= pm@.len(),
            forall|k: int| 0 <= k < i ==> pm@[k].port != port,
        decreases pm.len() - i,
    {
        if pm[i].port == port {
            return true;
        }
        i = i + 1;
    }
    false
}

/// The first port of `from..=to` that no live socket uses and no registry
/// entry declares.
pub fn find_open(live_ports: &[PortInfo], pm_entries: &[PortmasterEntry], from: u16, to: u16) -> (res:
    Option<u16>)
    ensures
        res == first_open(live_ports@, pm_entries@, from as int, to as int),
{
    let mut port: u32 = from as u32;
    while port <= to as u32
        invariant
            from as u32 <= port,
            port <= to as u32 + 1 || port == from as u32,
            first_open(live_ports@, pm_entries@, from as int, to as int) == first_open(
                live_ports@,
                pm_entries@,
                port as int,
                to as int,
            ),
        decreases to as u32 + 1 - port,
    {
        if !contains_port(live_ports, port as u16) && !declares_port(pm_entries, port as u16) {
            return Some(port as u16);
        }
        port = port + 1;
    }
    None
}

/// The message given when a range holds no free port.
pub open spec fn no_free_port_message(range_start: u16, range_end: u16) -> Seq<char> {
    "No free ports in range "@ + decimal(range_start as nat) + "-"@ + decimal(range_end as nat)
}

/// Suggests the first port of `range_start..=range_end` that no socket of
/// `live_ports` (the live scan) uses and no entry of `pm_entries` (the
/// registries) declares.
pub fn suggest_port(
    range_start: u16,
    range_end: u16,
    live_ports: &[PortInfo],
    pm_entries: &[PortmasterEntry],
) -> (res: Result<u16, String>)
    ensures
        match first_open(live_ports@, pm_entries@, range_start as int, range_end as int) {
            Some(p) => res == Ok::<u16, String>(p),
            None => res matches Err(msg) && msg@ == no_free_port_message(range_start, range_end),
        },
{
    match find_open(live_ports, pm_entries, range_start, range_end) {
        Some(p) => {
            return Ok(p);
        },
        None => {},
    }
    let mut msg = string_from_str("No free ports in range ");
    write_decimal(range_start as u64, &mut msg);
    append_str(&mut msg, "-");
    write_decimal(range_end as u64, &mut msg);
    Err(msg)
}

/// The default allocation range that holds `port`, if any.
pub open spec fn range_of(port: u16) -> Option<(u16, u16)> {
    if 1024 <= port <= 2999 {
        Some((1024u16, 2999u16))
    } else if 3000 <= port <= 3999 {
        Some((3000u16, 3999u16))
    } else if 4000 <= port <= 4999 {
        Some((4000u16, 4999u16))
    } else if 5000 <= port <= 5999 {
        Some((5000u16, 5999u16))
    } else if 6000 <= port <= 7999 {
        Some((6000u16, 7999u16))
    } else if 8000 <= port <= 8999 {
        Some((8000u16, 8999u16))
    } else if 9000 <= port <= 9999 {
        Some((9000u16, 9999u16))
    } else {
        None
    }
}

/// The default allocation range (as PORTMASTER.md lays them out) that holds `port`.
pub fn detect_range_for_port(port: u16) -> (res: Option<(u16, u16)>)
    ensures
        res == range_of(port),
{
    let ranges: Vec<(u16, u16)> = vec![
        (1024, 2999),
        (3000, 3999),
        (4000, 4999),
        (5000, 5999),
        (6000, 7999),
        (8000, 8999),
        (9000, 9999),
    ];
    let mut i: usize = 0;
    while i < ranges.len()
        invariant
            0 <= i <= ranges@.len(),
            ranges@ == seq![
                (1024u16, 2999u16),
                (3000u16, 3999u16),
                (4000u16, 4999u16),
                (5000u16, 5999u16),
                (6000u16, 7999u16),
                (8000u16, 8999u16),
                (9000u16, 9999u16),
            ],
            forall|k: int| 0 <= k < i ==> !(#[trigger] ranges@[k].0 <= port <= ranges@[k].1),
        decreases ranges.len() - i,
    {
        let (start, end) = ranges[i];
        if port >= start && port <= end {
            return Some((start, end));
        }
        i = i + 1;
    }
    assert(!(ranges@[0].0 <= port <= ranges@[0].1));
    assert(!(ranges@[1].0 <= port <= ranges@[1].1));
    assert(!(ranges@[2].0 <= port <= ranges@[2].1));
    assert(!(ranges@[3].0 <= port <= ranges@[3].1));
    assert(!(ranges@[4].0 <= port <= ranges@[4].1));
    assert(!(ranges@[5].0 <= port <= ranges@[5].1));
    assert(!(ranges@[6].0 <= port <= ranges@[6].1));
    None
}


// ---------------------------------------------------------------------------
// Conflicts
// ---------------------------------------------------------------------------

/// Two live sockets clash when they share a port and their addresses overlap.
pub open spec fn clashes_live(a: PortInfo, b: PortInfo) -> bool {
    a.port == b.port && overlap(a.bind_address@, b.bind_address@)
}

/// A project setting is held against a live socket when the socket listens on
/// the port the setting asks for and the project's directory differs from the
/// one attributed to the socket's process. (The socket's address always
/// overlaps the wildcard that the setting is taken to bind.)
pub open spec fn clashes_project_live(pp: ProjectPort, lp: PortInfo) -> bool {
    pp.port == lp.port && pp.project_path@ != path_of_process(lp.process_name@)
}

/// Two project settings clash when they ask for one port from different directories.
pub open spec fn clashes_projects(a: ProjectPort, b: ProjectPort) -> bool {
    a.port == b.port && a.project_path@ != b.project_path@
}

/// The pairs `(a, b)` with `a < b < j` of clashing live sockets, in order of `b`.
pub open spec fn live_pair_row(live: Seq<PortInfo>, a: int, j: int) -> Seq<(int, int)>
    decreases j - a,
{
    if j <= a + 1 {
        seq![]
    } else if clashes_live(live[a], live[j - 1]) {
        live_pair_row(live, a, j - 1).push((a, j - 1))
    } else {
        live_pair_row(live, a, j - 1)
    }
}

/// The clashing pairs `(a, b)` of live sockets with `a < b` and `a < i`, in order.
pub open spec fn live_pairs(live: Seq<PortInfo>, i: int) -> Seq<(int, int)>
    decreases i,
{
    if i <= 0 {
        seq![]
    } else {
        live_pairs(live, i - 1) + live_pair_row(live, i - 1, live.len() as int)
    }
}

/// The pairs `(a, b)` with `b < j` of project setting `a` held against live socket `b`.
pub open spec fn project_live_row(proj: Seq<ProjectPort>, live: Seq<PortInfo>, a: int, j: int) -> Seq<
    (int, int),
>
    decreases j,
{
    if j <= 0 {
        seq![]
    } else if clashes_project_live(proj[a], live[j - 1]) {
        project_live_row(proj, live, a, j - 1).push((a, j - 1))
    } else {
        project_live_row(proj, live, a, j - 1)
    }
}

/// The pairs `(a, b)` with `a < i` of project setting `a` held against live socket `b`.
pub open spec fn project_live_pairs(proj: Seq<ProjectPort>, live: Seq<PortInfo>, i: int) -> Seq<
    (int, int),
>
    decreases i,
{
    if i <= 0 {
        seq![]
    } else {
        project_live_pairs(proj, live, i - 1) + project_live_row(proj, live, i - 1, live.len() as int)
    }
}

/// The pairs `(a, b)` with `a < b < j` of clashing project settings.
pub open spec fn project_pair_row(proj: Seq<ProjectPort>, a: int, j: int) -> Seq<(int, int)>
    decreases j - a,
{
    if j <= a + 1 {
        seq![]
    } else if clashes_projects(proj[a], proj[j - 1]) {
        project_pair_row(proj, a, j - 1).push((a, j - 1))
    } else {
        project_pair_row(proj, a, j - 1)
    }
}

/// The clashing pairs `(a, b)` of project settings with `a < b` and `a < i`.
pub open spec fn project_pairs(proj: Seq<ProjectPort>, i: int) -> Seq<(int, int)>
    decreases i,
{
    if i <= 0 {
        seq![]
    } else {
        project_pairs(proj, i - 1) + project_pair_row(proj, i - 1, proj.len() as int)
    }
}

/// The report for two clashing live sockets.
pub open spec fn is_live_pair_conflict(c: Conflict, a: PortInfo, b: PortInfo, live: Seq<PortInfo>) -> bool {
    &&& c.port == a.port
    &&& c.bind_a == a.bind_address
    &&& c.bind_b == b.bind_address
    &&& c.process_a == a.process_name
    &&& c.process_b == b.process_name
    &&& c.pid_a == a.pid
    &&& c.pid_b == b.pid
    &&& c.suggestion == conflict_suggestion(a.port, live)
    &&& c.explanation@ == "Both '"@ + a.process_name@ + "' and '"@ + b.process_name@
        + "' are listening on port "@ + decimal(a.port as nat)
}

/// The report for a project setting held against a live socket.
pub open spec fn is_project_live_conflict(
    c: Conflict,
    pp: ProjectPort,
    lp: PortInfo,
    live: Seq<PortInfo>,
) -> bool {
    &&& c.port == pp.port
    &&& c.bind_a == lp.bind_address
    &&& c.bind_b@ == "0.0.0.0"@
    &&& c.process_a == lp.process_name
    &&& c.process_b@ == pp.project_name@ + " (config)"@
    &&& c.pid_a == lp.pid
    &&& c.pid_b == None::<u32>
    &&& c.suggestion == conflict_suggestion(pp.port, live)
    &&& c.explanation@ == "Project '"@ + pp.project_name@ + "' wants port "@ + decimal(
        pp.port as nat,
    ) + " but '"@ + lp.process_name@ + "' is already using it"@
}

/// The report for two clashing project settings.
pub open spec fn is_project_pair_conflict(
    c: Conflict,
    a: ProjectPort,
    b: ProjectPort,
    live: Seq<PortInfo>,
) -> bool {
    &&& c.port == a.port
    &&& c.bind_a@ == "configured"@
    &&& c.bind_b@ == "configured"@
    &&& c.process_a == a.project_name
    &&& c.process_b == b.project_name
    &&& c.pid_a == None::<u32>
    &&& c.pid_b == None::<u32>
    &&& c.suggestion == conflict_suggestion(a.port, live)
    &&& c.explanation@ == "Both '"@ + a.project_name@ + "' and '"@ + b.project_name@
        + "' are configured to use port "@ + decimal(a.port as nat)
}

/// `res` reports, in order, the clashing live pairs, then the project settings
/// held against live sockets, then the clashing project pairs, then the ports
/// declared for two owners, then the live processes that are not the declared
/// owners of their ports.
pub open spec fn conflicts_as_detected(
    res: Seq<Conflict>,
    live: Seq<PortInfo>,
    pm: Seq<PortmasterEntry>,
    proj: Seq<ProjectPort>,
) -> bool {
    let p1 = live_pairs(live, live.len() as int);
    let p2 = project_live_pairs(proj, live, proj.len() as int);
    let p3 = project_pairs(proj, proj.len() as int);
    let p4 = declared_pairs(pm, pm.len() as int);
    let p5 = owner_pairs(pm, live, pm.len() as int);
    &&& res.len() == p1.len() + p2.len() + p3.len() + p4.len() + p5.len()
    &&& forall|k: int|
        #![trigger p1[k]]
        0 <= k < p1.len() ==> is_live_pair_conflict(res[k], live[p1[k].0], live[p1[k].1], live)
    &&& forall|k: int|
        #![trigger p2[k]]
        0 <= k < p2.len() ==> is_project_live_conflict(
            res[p1.len() + k],
            proj[p2[k].0],
            live[p2[k].1],
            live,
        )
    &&& forall|k: int|
        #![trigger p3[k]]
        0 <= k < p3.len() ==> is_project_pair_conflict(
            res[p1.len() + p2.len() + k],
            proj[p3[k].0],
            proj[p3[k].1],
            live,
        )
    &&& forall|k: int|
        #![trigger p4[k]]
        0 <= k < p4.len() ==> is_declared_pair_conflict(
            res[p1.len() + p2.len() + p3.len() + k],
            pm[p4[k].0],
            pm[p4[k].1],
            live,
        )
    &&& forall|k: int|
        #![trigger p5[k]]
        0 <= k < p5.len() ==> is_owner_conflict(
            res[p1.len() + p2.len() + p3.len() + p4.len() + k],
            pm[p5[k].0],
            live[p5[k].1],
            live,
        )
}

fn live_pair_conflict(a: &PortInfo, b: &PortInfo, live: &[PortInfo]) -> (c: Conflict)
    ensures
        is_live_pair_conflict(c, *a, *b, live@),
{
    let mut explanation = string_from_str("Both '");
    append_str(&mut explanation, a.process_name.as_str());
    append_str(&mut explanation, "' and '");
    append_str(&mut explanation, b.process_name.as_str());
    append_str(&mut explanation, "' are listening on port ");
    write_decimal(a.port as u64, &mut explanation);
    Conflict {
        port: a.port,
        bind_a: a.bind_address.clone(),
        bind_b: b.bind_address.clone(),
        process_a: a.process_name.clone(),
        process_b: b.process_name.clone(),
        pid_a: a.pid,
        pid_b: b.pid,
        suggestion: suggest_port_for_conflict(a.port, &[], live),
        explanation,
    }
}

fn project_live_conflict(pp: &ProjectPort, lp: &PortInfo, live: &[PortInfo]) -> (c: Conflict)
    ensures
        is_project_live_conflict(c, *pp, *lp, live@),
{
    let mut process_b = pp.project_name.clone();
    append_str(&mut process_b, " (config)");
    let mut explanation = string_from_str("Project '");
    append_str(&mut explanation, pp.project_name.as_str());
    append_str(&mut explanation, "' wants port ");
    write_decimal(pp.port as u64, &mut explanation);
    append_str(&mut explanation, " but '");
    append_str(&mut explanation, lp.process_name.as_str());
    append_str(&mut explanation, "' is already using it");
    Conflict {
        port: pp.port,
        bind_a: lp.bind_address.clone(),
        bind_b: string_from_str("0.0.0.0"),
        process_a: lp.process_name.clone(),
        process_b,
        pid_a: lp.pid,
        pid_b: None,
        suggestion: suggest_port_for_conflict(pp.port, &[], live),
        explanation,
    }
}

fn project_pair_conflict(a: &ProjectPort, b: &ProjectPort, live: &[PortInfo]) -> (c: Conflict)
    ensures
        is_project_pair_conflict(c, *a, *b, live@),
{
    let mut explanation = string_from_str("Both '");
    append_str(&mut explanation, a.project_name.as_str());
    append_str(&mut explanation, "' and '");
    append_str(&mut explanation, b.project_name.as_str());
    append_str(&mut explanation, "' are configured to use port ");
    write_decimal(a.port as u64, &mut explanation);
    Conflict {
        port: a.port,
        bind_a: string_from_str("configured"),
        bind_b: string_from_str("configured"),
        process_a: a.project_name.clone(),
        process_b: b.project_name.clone(),
        pid_a: None,
        pid_b: None,
        suggestion: suggest_port_for_conflict(a.port, &[], live),
        explanation,
    }
}

/// The reports for clashing pairs of live sockets.
fn live_conflicts(live: &[PortInfo]) -> (res: Vec<Conflict>)
    ensures
        res@.len() == live_pairs(live@, live@.len() as int).len(),
        forall|k: int|
            #![trigger live_pairs(live@, live@.len() as int)[k]]
            0 <= k < res@.len() ==> is_live_pair_conflict(
                res@[k],
                live@[live_pairs(live@, live@.len() as int)[k].0],
                live@[live_pairs(live@, live@.len() as int)[k].1],
                live@,
            ),
{
    let mut res: Vec<Conflict> = Vec::new();
    let n = live.len();
    let mut i: usize = 0;
    while i < n
        invariant
            n == live@.len(),
            0 <= i <= n,
            res@.len() == live_pairs(live@, i as int).len(),
            forall|k: int|
                #![trigger live_pairs(live@, i as int)[k]]
                0 <= k < res@.len() ==> is_live_pair_conflict(
                    res@[k],
                    live@[live_pairs(live@, i as int)[k].0],
                    live@[live_pairs(live@, i as int)[k].1],
                    live@,
                ),
        decreases n - i,
    {
        let mut j: usize = i + 1;
        let ghost base = live_pairs(live@, i as int);
        while j < n
            invariant
                n == live@.len(),
                0 <= i < n,
                i + 1 <= j <= n,
                base == live_pairs(live@, i as int),
                res@.len() == base.len() + live_pair_row(live@, i as int, j as int).len(),
                forall|k: int|
                    #![trigger (base + live_pair_row(live@, i as int, j as int))[k]]
                    0 <= k < res@.len() ==> is_live_pair_conflict(
                        res@[k],
                        live@[(base + live_pair_row(live@, i as int, j as int))[k].0],
                        live@[(base + live_pair_row(live@, i as int, j as int))[k].1],
                        live@,
                    ),
            decreases n - j,
        {
            let ghost before = res@;
            let ghost row = live_pair_row(live@, i as int, j as int);
            if live[i].port == live[j].port && ports_overlap(
                live[i].bind_address.as_str(),
                live[j].bind_address.as_str(),
            ) {
                let c = live_pair_conflict(&live[i], &live[j], live);
                res.push(c);
                assert(live_pair_row(live@, i as int, j + 1) == row.push((i as int, j as int)));
                assert forall|k: int|
                    #![trigger (base + live_pair_row(live@, i as int, j + 1))[k]]
                    0 <= k < res@.len() implies is_live_pair_conflict(
                    res@[k],
                    live@[(base + live_pair_row(live@, i as int, j + 1))[k].0],
                    live@[(base + live_pair_row(live@, i as int, j + 1))[k].1],
                    live@,
                ) by {
                    assert((base + row.push((i as int, j as int))) == (base + row).push(
                        (i as int, j as int),
                    ));
                    if k < before.len() {
                        assert(res@[k] == before[k]);
                        assert((base + row)[k] == (base + live_pair_row(live@, i as int, j + 1))[k]);
                    }
                }
            } else {
                assert(live_pair_row(live@, i as int, j + 1) == row);
            }
            j = j + 1;
        }
        assert(live_pairs(live@, i + 1) == base + live_pair_row(live@, i as int, n as int));
        i = i + 1;
    }
    res
}


/// The reports for project settings held against live sockets.
fn project_live_conflicts(proj: &[ProjectPort], live: &[PortInfo]) -> (res: Vec<Conflict>)
    ensures
        res@.len() == project_live_pairs(proj@, live@, proj@.len() as int).len(),
        forall|k: int|
            #![trigger project_live_pairs(proj@, live@, proj@.len() as int)[k]]
            0 <= k < res@.len() ==> is_project_live_conflict(
                res@[k],
                proj@[project_live_pairs(proj@, live@, proj@.len() as int)[k].0],
                live@[project_live_pairs(proj@, live@, proj@.len() as int)[k].1],
                live@,
            ),
{
    let mut res: Vec<Conflict> = Vec::new();
    let m = proj.len();
    let n = live.len();
    let mut i: usize = 0;
    while i < m
        invariant
            m == proj@.len(),
            n == live@.len(),
            0 <= i <= m,
            res@.len() == project_live_pairs(proj@, live@, i as int).len(),
            forall|k: int|
                #![trigger project_live_pairs(proj@, live@, i as int)[k]]
                0 <= k < res@.len() ==> is_project_live_conflict(
                    res@[k],
                    proj@[project_live_pairs(proj@, live@, i as int)[k].0],
                    live@[project_live_pairs(proj@, live@, i as int)[k].1],
                    live@,
                ),
        decreases m - i,
    {
        let mut j: usize = 0;
        let ghost base = project_live_pairs(proj@, live@, i as int);
        while j < n
            invariant
                m == proj@.len(),
                n == live@.len(),
                0 <= i < m,
                0 <= j <= n,
                base == project_live_pairs(proj@, live@, i as int),
                res@.len() == base.len() + project_live_row(proj@, live@, i as int, j as int).len(),
                forall|k: int|
                    #![trigger (base + project_live_row(proj@, live@, i as int, j as int))[k]]
                    0 <= k < res@.len() ==> is_project_live_conflict(
                        res@[k],
                        proj@[(base + project_live_row(proj@, live@, i as int, j as int))[k].0],
                        live@[(base + project_live_row(proj@, live@, i as int, j as int))[k].1],
                        live@,
                    ),
            decreases n - j,
        {
            let ghost before = res@;
            let ghost row = project_live_row(proj@, live@, i as int, j as int);
            let owner = get_project_path_from_process(live[j].process_name.as_str());
            if proj[i].port == live[j].port && !str_is(proj[i].project_path.as_str(), owner.as_str())
                && ports_overlap(
                live[j].bind_address.as_str(),
                "0.0.0.0",
            ) {
                let c = project_live_conflict(&proj[i], &live[j], live);
                res.push(c);
                assert(project_live_row(proj@, live@, i as int, j + 1) == row.push(
                    (i as int, j as int),
                ));
                assert forall|k: int|
                    #![trigger (base + project_live_row(proj@, live@, i as int, j + 1))[k]]
                    0 <= k < res@.len() implies is_project_live_conflict(
                    res@[k],
                    proj@[(base + project_live_row(proj@, live@, i as int, j + 1))[k].0],
                    live@[(base + project_live_row(proj@, live@, i as int, j + 1))[k].1],
                    live@,
                ) by {
                    assert((base + row.push((i as int, j as int))) == (base + row).push(
                        (i as int, j as int),
                    ));
                    if k < before.len() {
                        assert(res@[k] == before[k]);
                        assert((base + row)[k] == (base + project_live_row(
                            proj@,
                            live@,
                            i as int,
                            j + 1,
                        ))[k]);
                    }
                }
            } else {
                assert(project_live_row(proj@, live@, i as int, j + 1) == row);
            }
            j = j + 1;
        }
        assert(project_live_pairs(proj@, live@, i + 1) == base + project_live_row(
            proj@,
            live@,
            i as int,
            n as int,
        ));
        i = i + 1;
    }
    res
}

/// The reports for clashing pairs of project settings.
fn project_conflicts(proj: &[ProjectPort], live: &[PortInfo]) -> (res: Vec<Conflict>)
    ensures
        res@.len() == project_pairs(proj@, proj@.len() as int).len(),
        forall|k: int|
            #![trigger project_pairs(proj@, proj@.len() as int)[k]]
            0 <= k < res@.len() ==> is_project_pair_conflict(
                res@[k],
                proj@[project_pairs(proj@, proj@.len() as int)[k].0],
                proj@[project_pairs(proj@, proj@.len() as int)[k].1],
                live@,
            ),
{
    let mut res: Vec<Conflict> = Vec::new();
    let n = proj.len();
    let mut i: usize = 0;
    while i < n
        invariant
            n == proj@.len(),
            0 <= i <= n,
            res@.len() == project_pairs(proj@, i as int).len(),
            forall|k: int|
                #![trigger project_pairs(proj@, i as int)[k]]
                0 <= k < res@.len() ==> is_project_pair_conflict(
                    res@[k],
                    proj@[project_pairs(proj@, i as int)[k].0],
                    proj@[project_pairs(proj@, i as int)[k].1],
                    live@,
                ),
        decreases n - i,
    {
        let mut j: usize = i + 1;
        let ghost base = project_pairs(proj@, i as int);
        while j < n
            invariant
                n == proj@.len(),
                0 <= i < n,
                i + 1 <= j <= n,
                base == project_pairs(proj@, i as int),
                res@.len() == base.len() + project_pair_row(proj@, i as int, j as int).len(),
                forall|k: int|
                    #![trigger (base + project_pair_row(proj@, i as int, j as int))[k]]
                    0 <= k < res@.len() ==> is_project_pair_conflict(
                        res@[k],
                        proj@[(base + project_pair_row(proj@, i as int, j as int))[k].0],
                        proj@[(base + project_pair_row(proj@, i as int, j as int))[k].1],
                        live@,
                    ),
            decreases n - j,
        {
            let ghost before = res@;
            let ghost row = project_pair_row(proj@, i as int, j as int);
            if proj[i].port == proj[j].port && !str_is(
                proj[i].project_path.as_str(),
                proj[j].project_path.as_str(),
            ) {
                let c = project_pair_conflict(&proj[i], &proj[j], live);
                res.push(c);
                assert(project_pair_row(proj@, i as int, j + 1) == row.push((i as int, j as int)));
                assert forall|k: int|
                    #![trigger (base + project_pair_row(proj@, i as int, j + 1))[k]]
                    0 <= k < res@.len() implies is_project_pair_conflict(
                    res@[k],
                    proj@[(base + project_pair_row(proj@, i as int, j + 1))[k].0],
                    proj@[(base + project_pair_row(proj@, i as int, j + 1))[k].1],
                    live@,
                ) by {
                    assert((base + row.push((i as int, j as int))) == (base + row).push(
                        (i as int, j as int),
                    ));
                    if k < before.len() {
                        assert(res@[k] == before[k]);
                        assert((base + row)[k] == (base + project_pair_row(proj@, i as int, j + 1))[k]);
                    }
                }
            } else {
                assert(project_pair_row(proj@, i as int, j + 1) == row);
            }
            j = j + 1;
        }
        assert(project_pairs(proj@, i + 1) == base + project_pair_row(proj@, i as int, n as int));
        i = i + 1;
    }
    res
}

/// Detects the conflicts between live sockets, PORTMASTER entries and project
/// settings: clashing live sockets, project settings held against live sockets,
/// and project settings that ask for one port from different directories.
pub fn detect_conflicts(
    live_ports: &[PortInfo],
    pm_entries: &[PortmasterEntry],
    project_ports: &[ProjectPort],
) -> (res: Vec<Conflict>)
    ensures
        conflicts_as_detected(res@, live_ports@, pm_entries@, project_ports@),
{
    let mut res = live_conflicts(live_ports);
    let mut second = project_live_conflicts(project_ports, live_ports);
    let mut third = project_conflicts(project_ports, live_ports);
    let mut fourth = declared_conflicts(pm_entries, live_ports);
    let mut fifth = owner_conflicts(pm_entries, live_ports);
    let ghost r1 = res@;
    let ghost r2 = second@;
    let ghost r3 = third@;
    let ghost r4 = fourth@;
    let ghost r5 = fifth@;
    res.append(&mut second);
    res.append(&mut third);
    res.append(&mut fourth);
    res.append(&mut fifth);
    assert(res@ == r1 + r2 + r3 + r4 + r5);
    res
}


// ---------------------------------------------------------------------------
// Laws
// ---------------------------------------------------------------------------

/// Overlap of bind addresses does not depend on their order, every address
/// overlaps itself, and the wildcard overlaps every address.
pub proof fn overlap_is_symmetric(a: Seq<char>, b: Seq<char>)
    ensures
        overlap(a, b) == overlap(b, a),
        overlap(a, a),
        overlap("0.0.0.0"@, b),
{
}

/// A port suggested for a conflict is free, differs from the conflicting port
/// and lies within 99 of it.
pub proof fn conflict_suggestion_is_free(port: u16, live: Seq<PortInfo>)
    ensures
        conflict_suggestion(port, live) matches Some(s) ==> !live_has(live, s as int) && s != port
            && port - 100 < s < port + 100,
{
    lemma_suggestion_from(port as int, live, 1);
}

proof fn lemma_suggestion_from(p: int, live: Seq<PortInfo>, offset: int)
    requires
        0 <= p <= 65535,
        offset >= 1,
    ensures
        suggestion_from(p, live, offset) matches Some(s) ==> !live_has(live, s as int) && s != p
            && p - 100 < s < p + 100,
    decreases 100 - offset,
{
    if offset < 100 {
        lemma_suggestion_from(p, live, offset + 1);
    }
}

/// The suggested port of a range is its first free port: it lies in the range,
/// no live socket uses it, and every port of the range before it is in use. A
/// range without a free port has every port in use.
pub proof fn suggestion_is_first_free(live: Seq<PortInfo>, start: int, end: int)
    requires
        0 <= start,
        end <= 65535,
    ensures
        match first_free(live, start, end) {
            Some(p) => start <= p <= end && !live_has(live, p as int) && forall|q: int|
                start <= q < p ==> live_has(live, q),
            None => forall|q: int| start <= q <= end ==> live_has(live, q),
        },
    decreases end + 1 - start,
{
    if start <= end && live_has(live, start) {
        suggestion_is_first_free(live, start + 1, end);
    }
}

/// The suggested port of a range is its first open port: it lies in the range,
/// no live socket uses it and no registry entry declares it, and every port of
/// the range before it is used or declared. A range without such a port has
/// every port used or declared.
pub proof fn suggestion_is_first_open(
    live: Seq<PortInfo>,
    pm: Seq<PortmasterEntry>,
    start: int,
    end: int,
)
    requires
        0 <= start,
        end <= 65535,
    ensures
        match first_open(live, pm, start, end) {
            Some(p) => start <= p <= end && !live_has(live, p as int) && !declares(pm, p as int)
                && forall|q: int| start <= q < p ==> live_has(live, q) || declares(pm, q),
            None => forall|q: int| start <= q <= end ==> live_has(live, q) || declares(pm, q),
        },
    decreases end + 1 - start,
{
    if start <= end && (live_has(live, start) || declares(pm, start)) {
        suggestion_is_first_open(live, pm, start + 1, end);
    }
}

/// A port's default allocation range holds it.
pub proof fn range_holds_port(port: u16)
    ensures
        range_of(port) matches Some(r) ==> r.0 <= port <= r.1,
{
}

/// The default allocation ranges are exactly 1024-2999, 3000-3999, 4000-4999,
/// 5000-5999, 6000-7999, 8000-8999 and 9000-9999: every port of 1024..=9999 has
/// the one of them that holds it, and no other port has a range.
pub proof fn default_ranges_cover_1024_to_9999(port: u16)
    ensures
        1024 <= port <= 9999 <==> range_of(port) is Some,
        range_of(port) matches Some(r) ==> r.0 <= port <= r.1 && (r == (1024u16, 2999u16) || r == (
            3000u16,
            3999u16,
        ) || r == (4000u16, 4999u16) || r == (5000u16, 5999u16) || r == (6000u16, 7999u16) || r
            == (8000u16, 8999u16) || r == (9000u16, 9999u16)),
{
}

proof fn lemma_live_pair_row(live: Seq<PortInfo>, a: int, j: int)
    requires
        0 <= a,
        j <= live.len(),
    ensures
        forall|k: int|
            0 <= k < live_pair_row(live, a, j).len() ==> {
                let q = #[trigger] live_pair_row(live, a, j)[k];
                q.0 == a && a < q.1 < j && clashes_live(live[q.0], live[q.1])
            },
    decreases j - a,
{
    if j > a + 1 {
        lemma_live_pair_row(live, a, j - 1);
        let prev = live_pair_row(live, a, j - 1);
        if clashes_live(live[a], live[j - 1]) {
            assert forall|k: int| 0 <= k < prev.len() + 1 implies {
                let q = #[trigger] live_pair_row(live, a, j)[k];
                q.0 == a && a < q.1 < j && clashes_live(live[q.0], live[q.1])
            } by {
                if k < prev.len() {
                    assert(live_pair_row(live, a, j)[k] == prev[k]);
                }
            }
        }
    }
}

proof fn lemma_live_pairs(live: Seq<PortInfo>, i: int)
    requires
        0 <= i <= live.len(),
    ensures
        forall|k: int|
            0 <= k < live_pairs(live, i).len() ==> {
                let q = #[trigger] live_pairs(live, i)[k];
                0 <= q.0 < q.1 < live.len() && clashes_live(live[q.0], live[q.1])
            },
    decreases i,
{
    if i > 0 {
        lemma_live_pairs(live, i - 1);
        lemma_live_pair_row(live, i - 1, live.len() as int);
        let a = live_pairs(live, i - 1);
        let b = live_pair_row(live, i - 1, live.len() as int);
        assert forall|k: int| 0 <= k < live_pairs(live, i).len() implies {
            let q = #[trigger] live_pairs(live, i)[k];
            0 <= q.0 < q.1 < live.len() && clashes_live(live[q.0], live[q.1])
        } by {
            if k < a.len() {
                assert(live_pairs(live, i)[k] == a[k]);
            } else {
                assert(live_pairs(live, i)[k] == b[k - a.len()]);
            }
        }
    }
}

proof fn lemma_project_pair_row(proj: Seq<ProjectPort>, a: int, j: int)
    requires
        0 <= a,
        j <= proj.len(),
    ensures
        forall|k: int|
            0 <= k < project_pair_row(proj, a, j).len() ==> {
                let q = #[trigger] project_pair_row(proj, a, j)[k];
                q.0 == a && a < q.1 < j && clashes_projects(proj[q.0], proj[q.1])
            },
    decreases j - a,
{
    if j > a + 1 {
        lemma_project_pair_row(proj, a, j - 1);
        let prev = project_pair_row(proj, a, j - 1);
        if clashes_projects(proj[a], proj[j - 1]) {
            assert forall|k: int| 0 <= k < prev.len() + 1 implies {
                let q = #[trigger] project_pair_row(proj, a, j)[k];
                q.0 == a && a < q.1 < j && clashes_projects(proj[q.0], proj[q.1])
            } by {
                if k < prev.len() {
                    assert(project_pair_row(proj, a, j)[k] == prev[k]);
                }
            }
        }
    }
}

proof fn lemma_project_pairs(proj: Seq<ProjectPort>, i: int)
    requires
        0 <= i <= proj.len(),
    ensures
        forall|k: int|
            0 <= k < project_pairs(proj, i).len() ==> {
                let q = #[trigger] project_pairs(proj, i)[k];
                0 <= q.0 < q.1 < proj.len() && clashes_projects(proj[q.0], proj[q.1])
            },
    decreases i,
{
    if i > 0 {
        lemma_project_pairs(proj, i - 1);
        lemma_project_pair_row(proj, i - 1, proj.len() as int);
        let a = project_pairs(proj, i - 1);
        let b = project_pair_row(proj, i - 1, proj.len() as int);
        assert forall|k: int| 0 <= k < project_pairs(proj, i).len() implies {
            let q = #[trigger] project_pairs(proj, i)[k];
            0 <= q.0 < q.1 < proj.len() && clashes_projects(proj[q.0], proj[q.1])
        } by {
            if k < a.len() {
                assert(project_pairs(proj, i)[k] == a[k]);
            } else {
                assert(project_pairs(proj, i)[k] == b[k - a.len()]);
            }
        }
    }
}

proof fn lemma_project_live_row(proj: Seq<ProjectPort>, live: Seq<PortInfo>, a: int, j: int)
    requires
        0 <= a < proj.len(),
        j <= live.len(),
    ensures
        forall|k: int|
            0 <= k < project_live_row(proj, live, a, j).len() ==> {
                let q = #[trigger] project_live_row(proj, live, a, j)[k];
                q.0 == a && 0 <= q.1 < j && clashes_project_live(proj[q.0], live[q.1])
            },
    decreases j,
{
    if j > 0 {
        lemma_project_live_row(proj, live, a, j - 1);
        let prev = project_live_row(proj, live, a, j - 1);
        if clashes_project_live(proj[a], live[j - 1]) {
            assert forall|k: int| 0 <= k < prev.len() + 1 implies {
                let q = #[trigger] project_live_row(proj, live, a, j)[k];
                q.0 == a && 0 <= q.1 < j && clashes_project_live(proj[q.0], live[q.1])
            } by {
                if k < prev.len() {
                    assert(project_live_row(proj, live, a, j)[k] == prev[k]);
                }
            }
        }
    }
}

proof fn lemma_project_live_pairs(proj: Seq<ProjectPort>, live: Seq<PortInfo>, i: int)
    requires
        0 <= i <= proj.len(),
    ensures
        forall|k: int|
            0 <= k < project_live_pairs(proj, live, i).len() ==> {
                let q = #[trigger] project_live_pairs(proj, live, i)[k];
                0 <= q.0 < proj.len() && 0 <= q.1 < live.len() && clashes_project_live(
                    proj[q.0],
                    live[q.1],
                )
            },
    decreases i,
{
    if i > 0 {
        lemma_project_live_pairs(proj, live, i - 1);
        lemma_project_live_row(proj, live, i - 1, live.len() as int);
        let a = project_live_pairs(proj, live, i - 1);
        let b = project_live_row(proj, live, i - 1, live.len() as int);
        assert forall|k: int| 0 <= k < project_live_pairs(proj, live, i).len() implies {
            let q = #[trigger] project_live_pairs(proj, live, i)[k];
            0 <= q.0 < proj.len() && 0 <= q.1 < live.len() && clashes_project_live(
                proj[q.0],
                live[q.1],
            )
        } by {
            if k < a.len() {
                assert(project_live_pairs(proj, live, i)[k] == a[k]);
            } else {
                assert(project_live_pairs(proj, live, i)[k] == b[k - a.len()]);
            }
        }
    }
}

/// A conflict between two live sockets names two different sockets (the
/// earlier first) that listen on the conflict's port at overlapping addresses;
/// a conflict between a project setting and a live socket names a setting that
/// asks for the conflict's port and a socket that listens on it; a conflict
/// between two project settings names two settings that ask for the conflict's
/// port from different directories; a conflict between two registry entries
/// names two entries of one file that declare the conflict's port for different
/// owners; a conflict between a registry entry and a live socket names a socket
/// on the entry's port whose process is not the declared owner.
pub proof fn conflicts_are_genuine(
    res: Seq<Conflict>,
    live: Seq<PortInfo>,
    pm: Seq<PortmasterEntry>,
    proj: Seq<ProjectPort>,
)
    requires
        conflicts_as_detected(res, live, pm, proj),
    ensures
        forall|k: int|
            0 <= k < live_pairs(live, live.len() as int).len() ==> {
                let q = #[trigger] live_pairs(live, live.len() as int)[k];
                &&& 0 <= q.0 < q.1 < live.len()
                &&& res[k].port == live[q.0].port
                &&& res[k].port == live[q.1].port
                &&& overlap(res[k].bind_a@, res[k].bind_b@)
            },
        forall|k: int|
            0 <= k < project_live_pairs(proj, live, proj.len() as int).len() ==> {
                let q = #[trigger] project_live_pairs(proj, live, proj.len() as int)[k];
                let at = live_pairs(live, live.len() as int).len() + k;
                &&& 0 <= q.0 < proj.len()
                &&& 0 <= q.1 < live.len()
                &&& res[at].port == proj[q.0].port
                &&& res[at].port == live[q.1].port
                &&& res[at].bind_a == live[q.1].bind_address
                &&& res[at].process_a == live[q.1].process_name
            },
        forall|k: int|
            0 <= k < project_pairs(proj, proj.len() as int).len() ==> {
                let q = #[trigger] project_pairs(proj, proj.len() as int)[k];
                let at = live_pairs(live, live.len() as int).len() + project_live_pairs(
                    proj,
                    live,
                    proj.len() as int,
                ).len() + k;
                &&& 0 <= q.0 < q.1 < proj.len()
                &&& res[at].port == proj[q.0].port
                &&& res[at].port == proj[q.1].port
                &&& proj[q.0].project_path@ != proj[q.1].project_path@
            },
        forall|k: int|
            0 <= k < declared_pairs(pm, pm.len() as int).len() ==> {
                let q = #[trigger] declared_pairs(pm, pm.len() as int)[k];
                let at = live_pairs(live, live.len() as int).len() + project_live_pairs(
                    proj,
                    live,
                    proj.len() as int,
                ).len() + project_pairs(proj, proj.len() as int).len() + k;
                &&& 0 <= q.0 < q.1 < pm.len()
                &&& res[at].port == pm[q.0].port
                &&& clashes_declared(pm[q.0], pm[q.1])
                &&& res[at].process_a == pm[q.0].managed_by
                &&& res[at].process_b == pm[q.1].managed_by
            },
        forall|k: int|
            0 <= k < owner_pairs(pm, live, pm.len() as int).len() ==> {
                let q = #[trigger] owner_pairs(pm, live, pm.len() as int)[k];
                let at = live_pairs(live, live.len() as int).len() + project_live_pairs(
                    proj,
                    live,
                    proj.len() as int,
                ).len() + project_pairs(proj, proj.len() as int).len() + declared_pairs(
                    pm,
                    pm.len() as int,
                ).len() + k;
                &&& 0 <= q.0 < pm.len()
                &&& 0 <= q.1 < live.len()
                &&& res[at].port == pm[q.0].port
                &&& clashes_owner(pm[q.0], live[q.1])
                &&& res[at].process_a == live[q.1].process_name
                &&& res[at].process_b == pm[q.0].managed_by
            },
{
    lemma_live_pairs(live, live.len() as int);
    lemma_project_live_pairs(proj, live, proj.len() as int);
    lemma_project_pairs(proj, proj.len() as int);
    lemma_declared_pairs(pm, pm.len() as int);
    lemma_owner_pairs(pm, live, pm.len() as int);
}

proof fn lemma_live_pair_row_has(live: Seq<PortInfo>, a: int, j: int, b: int)
    requires
        0 <= a < b < j <= live.len(),
        clashes_live(live[a], live[b]),
    ensures
        exists|k: int|
            0 <= k < live_pair_row(live, a, j).len() && #[trigger] live_pair_row(live, a, j)[k]
                == (a, b),
    decreases j - a,
{
    let row = live_pair_row(live, a, j);
    let prev = live_pair_row(live, a, j - 1);
    if b == j - 1 {
        assert(row == prev.push((a, b)));
        assert(row[prev.len() as int] == (a, b));
    } else {
        lemma_live_pair_row_has(live, a, j - 1, b);
        let k = choose|k: int| 0 <= k < prev.len() && #[trigger] prev[k] == (a, b);
        if clashes_live(live[a], live[j - 1]) {
            assert(row == prev.push((a, j - 1)));
        }
        assert(row[k] == (a, b));
    }
}

proof fn lemma_live_pairs_has(live: Seq<PortInfo>, i: int, a: int, b: int)
    requires
        0 <= a < i <= live.len(),
        a < b < live.len(),
        clashes_live(live[a], live[b]),
    ensures
        exists|k: int|
            0 <= k < live_pairs(live, i).len() && #[trigger] live_pairs(live, i)[k] == (a, b),
    decreases i,
{
    let before = live_pairs(live, i - 1);
    let row = live_pair_row(live, i - 1, live.len() as int);
    assert(live_pairs(live, i) == before + row);
    if a == i - 1 {
        lemma_live_pair_row_has(live, a, live.len() as int, b);
        let k = choose|k: int| 0 <= k < row.len() && #[trigger] row[k] == (a, b);
        assert(live_pairs(live, i)[before.len() + k] == (a, b));
    } else {
        lemma_live_pairs_has(live, i - 1, a, b);
        let k = choose|k: int| 0 <= k < before.len() && #[trigger] before[k] == (a, b);
        assert(live_pairs(live, i)[k] == (a, b));
    }
}

/// Every two live sockets that listen on one port at overlapping addresses are
/// reported, the earlier one first.
pub proof fn clashing_sockets_are_reported(
    res: Seq<Conflict>,
    live: Seq<PortInfo>,
    pm: Seq<PortmasterEntry>,
    proj: Seq<ProjectPort>,
    a: int,
    b: int,
)
    requires
        conflicts_as_detected(res, live, pm, proj),
        0 <= a < b < live.len(),
        live[a].port == live[b].port,
        overlap(live[a].bind_address@, live[b].bind_address@),
    ensures
        exists|k: int|
            0 <= k < res.len() && (#[trigger] res[k]).port == live[a].port && res[k].bind_a
                == live[a].bind_address && res[k].bind_b == live[b].bind_address
                && res[k].process_a == live[a].process_name && res[k].process_b
                == live[b].process_name && res[k].pid_a == live[a].pid && res[k].pid_b
                == live[b].pid,
{
    let p1 = live_pairs(live, live.len() as int);
    lemma_live_pairs_has(live, live.len() as int, a, b);
    let k = choose|k: int| 0 <= k < p1.len() && #[trigger] p1[k] == (a, b);
    assert(is_live_pair_conflict(res[k], live[p1[k].0], live[p1[k].1], live));
    assert(res[k].port == live[a].port);
}

proof fn lemma_project_pair_row_has(proj: Seq<ProjectPort>, a: int, j: int, b: int)
    requires
        0 <= a < b < j <= proj.len(),
        clashes_projects(proj[a], proj[b]),
    ensures
        exists|k: int|
            0 <= k < project_pair_row(proj, a, j).len() && #[trigger] project_pair_row(
                proj,
                a,
                j,
            )[k] == (a, b),
    decreases j - a,
{
    let row = project_pair_row(proj, a, j);
    let prev = project_pair_row(proj, a, j - 1);
    if b == j - 1 {
        assert(row == prev.push((a, b)));
        assert(row[prev.len() as int] == (a, b));
    } else {
        lemma_project_pair_row_has(proj, a, j - 1, b);
        let k = choose|k: int| 0 <= k < prev.len() && #[trigger] prev[k] == (a, b);
        if clashes_projects(proj[a], proj[j - 1]) {
            assert(row == prev.push((a, j - 1)));
        }
        assert(row[k] == (a, b));
    }
}

proof fn lemma_project_pairs_has(proj: Seq<ProjectPort>, i: int, a: int, b: int)
    requires
        0 <= a < i <= proj.len(),
        a < b < proj.len(),
        clashes_projects(proj[a], proj[b]),
    ensures
        exists|k: int|
            0 <= k < project_pairs(proj, i).len() && #[trigger] project_pairs(proj, i)[k] == (a, b),
    decreases i,
{
    let before = project_pairs(proj, i - 1);
    let row = project_pair_row(proj, i - 1, proj.len() as int);
    assert(project_pairs(proj, i) == before + row);
    if a == i - 1 {
        lemma_project_pair_row_has(proj, a, proj.len() as int, b);
        let k = choose|k: int| 0 <= k < row.len() && #[trigger] row[k] == (a, b);
        assert(project_pairs(proj, i)[before.len() + k] == (a, b));
    } else {
        lemma_project_pairs_has(proj, i - 1, a, b);
        let k = choose|k: int| 0 <= k < before.len() && #[trigger] before[k] == (a, b);
        assert(project_pairs(proj, i)[k] == (a, b));
    }
}

/// Every two project settings that ask for one port from different directories
/// are reported, the earlier one first.
pub proof fn clashing_settings_are_reported(
    res: Seq<Conflict>,
    live: Seq<PortInfo>,
    pm: Seq<PortmasterEntry>,
    proj: Seq<ProjectPort>,
    a: int,
    b: int,
)
    requires
        conflicts_as_detected(res, live, pm, proj),
        0 <= a < b < proj.len(),
        proj[a].port == proj[b].port,
        proj[a].project_path@ != proj[b].project_path@,
    ensures
        exists|k: int|
            0 <= k < res.len() && (#[trigger] res[k]).port == proj[a].port && res[k].process_a
                == proj[a].project_name && res[k].process_b == proj[b].project_name
                && res[k].bind_a@ == "configured"@ && res[k].bind_b@ == "configured"@,
{
    let p1 = live_pairs(live, live.len() as int);
    let p2 = project_live_pairs(proj, live, proj.len() as int);
    let p3 = project_pairs(proj, proj.len() as int);
    lemma_project_pairs_has(proj, proj.len() as int, a, b);
    let k = choose|k: int| 0 <= k < p3.len() && #[trigger] p3[k] == (a, b);
    assert(is_project_pair_conflict(res[p1.len() + p2.len() + k], proj[p3[k].0], proj[p3[k].1], live));
    let at = p1.len() + p2.len() + k;
    assert(res[at].port == proj[a].port);
}

proof fn lemma_project_live_row_has(proj: Seq<ProjectPort>, live: Seq<PortInfo>, a: int, j: int, b: int)
    requires
        0 <= a < proj.len(),
        0 <= b < j <= live.len(),
        clashes_project_live(proj[a], live[b]),
    ensures
        exists|k: int|
            0 <= k < project_live_row(proj, live, a, j).len() && #[trigger] project_live_row(
                proj,
                live,
                a,
                j,
            )[k] == (a, b),
    decreases j,
{
    let row = project_live_row(proj, live, a, j);
    let prev = project_live_row(proj, live, a, j - 1);
    if b == j - 1 {
        assert(row == prev.push((a, b)));
        assert(row[prev.len() as int] == (a, b));
    } else {
        lemma_project_live_row_has(proj, live, a, j - 1, b);
        let k = choose|k: int| 0 <= k < prev.len() && #[trigger] prev[k] == (a, b);
        if clashes_project_live(proj[a], live[j - 1]) {
            assert(row == prev.push((a, j - 1)));
        }
        assert(row[k] == (a, b));
    }
}

proof fn lemma_project_live_pairs_has(
    proj: Seq<ProjectPort>,
    live: Seq<PortInfo>,
    i: int,
    a: int,
    b: int,
)
    requires
        0 <= a < i <= proj.len(),
        0 <= b < live.len(),
        clashes_project_live(proj[a], live[b]),
    ensures
        exists|k: int|
            0 <= k < project_live_pairs(proj, live, i).len() && #[trigger] project_live_pairs(
                proj,
                live,
                i,
            )[k] == (a, b),
    decreases i,
{
    let before = project_live_pairs(proj, live, i - 1);
    let row = project_live_row(proj, live, i - 1, live.len() as int);
    assert(project_live_pairs(proj, live, i) == before + row);
    if a == i - 1 {
        lemma_project_live_row_has(proj, live, a, live.len() as int, b);
        let k = choose|k: int| 0 <= k < row.len() && #[trigger] row[k] == (a, b);
        assert(project_live_pairs(proj, live, i)[before.len() + k] == (a, b));
    } else {
        lemma_project_live_pairs_has(proj, live, i - 1, a, b);
        let k = choose|k: int| 0 <= k < before.len() && #[trigger] before[k] == (a, b);
        assert(project_live_pairs(proj, live, i)[k] == (a, b));
    }
}

/// Every project setting is reported against every live socket that listens on
/// its port and whose process is attributed a directory other than the project's.
pub proof fn settings_held_against_sockets_are_reported(
    res: Seq<Conflict>,
    live: Seq<PortInfo>,
    pm: Seq<PortmasterEntry>,
    proj: Seq<ProjectPort>,
    a: int,
    b: int,
)
    requires
        conflicts_as_detected(res, live, pm, proj),
        0 <= a < proj.len(),
        0 <= b < live.len(),
        proj[a].port == live[b].port,
        proj[a].project_path@ != path_of_process(live[b].process_name@),
    ensures
        exists|k: int|
            0 <= k < res.len() && (#[trigger] res[k]).port == proj[a].port && res[k].bind_a
                == live[b].bind_address && res[k].process_a == live[b].process_name
                && res[k].pid_a == live[b].pid && res[k].process_b@ == proj[a].project_name@
                + " (config)"@,
{
    let p1 = live_pairs(live, live.len() as int);
    let p2 = project_live_pairs(proj, live, proj.len() as int);
    lemma_project_live_pairs_has(proj, live, proj.len() as int, a, b);
    let k = choose|k: int| 0 <= k < p2.len() && #[trigger] p2[k] == (a, b);
    assert(is_project_live_conflict(res[p1.len() + k], proj[p2[k].0], live[p2[k].1], live));
    let at = p1.len() + k;
    assert(res[at].port == proj[a].port);
}

/// Every two entries of one registry file that declare one port for different
/// owners are reported, the earlier one first.
pub proof fn duplicate_declarations_are_reported(
    res: Seq<Conflict>,
    live: Seq<PortInfo>,
    pm: Seq<PortmasterEntry>,
    proj: Seq<ProjectPort>,
    a: int,
    b: int,
)
    requires
        conflicts_as_detected(res, live, pm, proj),
        0 <= a < b < pm.len(),
        pm[a].port == pm[b].port,
        pm[a].source_file@ == pm[b].source_file@,
        pm[a].managed_by@ != pm[b].managed_by@,
    ensures
        exists|k: int|
            0 <= k < res.len() && (#[trigger] res[k]).port == pm[a].port && res[k].process_a
                == pm[a].managed_by && res[k].process_b == pm[b].managed_by && res[k].bind_a
                == pm[a].bind && res[k].bind_b == pm[b].bind,
{
    let p1 = live_pairs(live, live.len() as int);
    let p2 = project_live_pairs(proj, live, proj.len() as int);
    let p3 = project_pairs(proj, proj.len() as int);
    let p4 = declared_pairs(pm, pm.len() as int);
    lemma_declared_pairs_has(pm, pm.len() as int, a, b);
    let k = choose|k: int| 0 <= k < p4.len() && #[trigger] p4[k] == (a, b);
    let at = p1.len() + p2.len() + p3.len() + k;
    assert(is_declared_pair_conflict(res[at], pm[p4[k].0], pm[p4[k].1], live));
    assert(res[at].port == pm[a].port);
}

/// Every live socket on a declared port whose process has a name sharing no
/// token with the declared owner is reported against that declaration.
pub proof fn owner_mismatches_are_reported(
    res: Seq<Conflict>,
    live: Seq<PortInfo>,
    pm: Seq<PortmasterEntry>,
    proj: Seq<ProjectPort>,
    a: int,
    b: int,
)
    requires
        conflicts_as_detected(res, live, pm, proj),
        0 <= a < pm.len(),
        0 <= b < live.len(),
        clashes_owner(pm[a], live[b]),
    ensures
        exists|k: int|
            0 <= k < res.len() && (#[trigger] res[k]).port == pm[a].port && res[k].process_a
                == live[b].process_name && res[k].process_b == pm[a].managed_by && res[k].pid_a
                == live[b].pid && res[k].bind_a == live[b].bind_address,
{
    let p1 = live_pairs(live, live.len() as int);
    let p2 = project_live_pairs(proj, live, proj.len() as int);
    let p3 = project_pairs(proj, proj.len() as int);
    let p4 = declared_pairs(pm, pm.len() as int);
    let p5 = owner_pairs(pm, live, pm.len() as int);
    lemma_owner_pairs_has(pm, live, pm.len() as int, a, b);
    let k = choose|k: int| 0 <= k < p5.len() && #[trigger] p5[k] == (a, b);
    let at = p1.len() + p2.len() + p3.len() + p4.len() + k;
    assert(is_owner_conflict(res[at], pm[p5[k].0], live[p5[k].1], live));
    assert(res[at].port == pm[a].port);
}

} // verus!
