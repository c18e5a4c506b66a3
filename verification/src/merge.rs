//! The merged view of live sockets, PORTMASTER declarations and project settings.
use vstd::prelude::*;
use crate::model::{copy_opt, PortInfo, PortSource, PortmasterEntry, ProjectPort};
use crate::resolver::{contains_port, live_has};
use crate::sorting::{is_stable_order, key_views, lists, placed_before, stable_order, SortKey};
use crate::text::{append_str, string_from_str};

verus! {

/// The first PORTMASTER entry among `pm[..n]` that declares `port`.
pub open spec fn first_entry(pm: Seq<PortmasterEntry>, port: u16, n: int) -> Option<int>
    decreases n,
{
    if n <= 0 {
        None
    } else {
        match first_entry(pm, port, n - 1) {
            Some(i) => Some(i),
            None => if pm[n - 1].port == port {
                Some(n - 1)
            } else {
                None
            },
        }
    }
}

/// The first container mapping among `docker[..n]` that publishes `port`.
pub open spec fn first_container(docker: Seq<(String, u16, String)>, port: u16, n: int) -> Option<int>
    decreases n,
{
    if n <= 0 {
        None
    } else {
        match first_container(docker, port, n - 1) {
            Some(i) => Some(i),
            None => if docker[n - 1].1 == port {
                Some(n - 1)
            } else {
                None
            },
        }
    }
}

/// The first project setting among `proj[..n]` that asks for `port`.
pub open spec fn first_setting(proj: Seq<ProjectPort>, port: u16, n: int) -> Option<int>
    decreases n,
{
    if n <= 0 {
        None
    } else {
        match first_setting(proj, port, n - 1) {
            Some(i) => Some(i),
            None => if proj[n - 1].port == port {
                Some(n - 1)
            } else {
                None
            },
        }
    }
}

/// A live socket as the merged view shows it: named and owned as the first
/// PORTMASTER entry for its port says, owned by Docker when a container
/// publishes the port, and attributed to the first project that asks for it.
pub open spec fn is_enriched(
    out: PortInfo,
    lp: PortInfo,
    pm: Seq<PortmasterEntry>,
    docker: Seq<(String, u16, String)>,
    proj: Seq<ProjectPort>,
) -> bool {
    let fp = first_entry(pm, lp.port, pm.len() as int);
    let fd = first_container(docker, lp.port, docker.len() as int);
    let fj = first_setting(proj, lp.port, proj.len() as int);
    &&& out.port == lp.port
    &&& out.protocol == lp.protocol
    &&& out.bind_address == lp.bind_address
    &&& out.pid == lp.pid
    &&& out.process_name == lp.process_name
    &&& out.service_name == match fp {
        Some(i) => Some(pm[i].service),
        None => lp.service_name,
    }
    &&& match fd {
        Some(d) => {
            &&& out.managed_by is Some
            &&& out.managed_by->0@ == "Docker ("@ + docker[d].0@ + ")"@
            &&& out.source == PortSource::Docker
        },
        None => {
            &&& out.managed_by == match fp {
                Some(i) => Some(pm[i].managed_by),
                None => lp.managed_by,
            }
            &&& out.source == lp.source
        },
    }
    &&& out.project == match fj {
        Some(j) => Some(proj[j].project_name),
        None => lp.project,
    }
}

/// Whether some PORTMASTER entry declares `port`.
pub open spec fn declared(pm: Seq<PortmasterEntry>, port: int) -> bool {
    exists|i: int| 0 <= i < pm.len() && pm[i].port == port
}

/// A PORTMASTER entry joins the view when no live socket uses its port and no
/// earlier entry declares it.
pub open spec fn entry_joins(live: Seq<PortInfo>, pm: Seq<PortmasterEntry>, i: int) -> bool {
    !live_has(live, pm[i].port as int) && forall|j: int| 0 <= j < i ==> pm[j].port != pm[i].port
}

/// A project setting joins the view when its port is neither live nor declared
/// and no earlier setting asks for it.
pub open spec fn setting_joins(
    live: Seq<PortInfo>,
    pm: Seq<PortmasterEntry>,
    proj: Seq<ProjectPort>,
    i: int,
) -> bool {
    &&& !live_has(live, proj[i].port as int)
    &&& !declared(pm, proj[i].port as int)
    &&& forall|j: int| 0 <= j < i ==> proj[j].port != proj[i].port
}

/// Which entries among `pm[..n]` join the view, as `(1, index)`, in order.
pub open spec fn joining_entries(live: Seq<PortInfo>, pm: Seq<PortmasterEntry>, n: int) -> Seq<
    (int, int),
>
    decreases n,
{
    if n <= 0 {
        seq![]
    } else if entry_joins(live, pm, n - 1) {
        joining_entries(live, pm, n - 1).push((1, n - 1))
    } else {
        joining_entries(live, pm, n - 1)
    }
}

/// Which settings among `proj[..n]` join the view, as `(2, index)`, in order.
pub open spec fn joining_settings(
    live: Seq<PortInfo>,
    pm: Seq<PortmasterEntry>,
    proj: Seq<ProjectPort>,
    n: int,
) -> Seq<(int, int)>
    decreases n,
{
    if n <= 0 {
        seq![]
    } else if setting_joins(live, pm, proj, n - 1) {
        joining_settings(live, pm, proj, n - 1).push((2, n - 1))
    } else {
        joining_settings(live, pm, proj, n - 1)
    }
}

/// The records of the view before sorting: every live socket `(0, i)`, then the
/// joining PORTMASTER entries `(1, i)`, then the joining project settings `(2, i)`.
pub open spec fn merge_plan(live: Seq<PortInfo>, pm: Seq<PortmasterEntry>, proj: Seq<ProjectPort>) -> Seq<
    (int, int),
> {
    Seq::new(live.len(), |i: int| (0int, i)) + joining_entries(live, pm, pm.len() as int)
        + joining_settings(live, pm, proj, proj.len() as int)
}

/// The port of a planned record.
pub open spec fn planned_port(
    item: (int, int),
    live: Seq<PortInfo>,
    pm: Seq<PortmasterEntry>,
    proj: Seq<ProjectPort>,
) -> u16 {
    if item.0 == 0 {
        live[item.1].port
    } else if item.0 == 1 {
        pm[item.1].port
    } else {
        proj[item.1].port
    }
}

/// A declared port that is not live, as the view shows it.
pub open spec fn is_declared_port(out: PortInfo, e: PortmasterEntry) -> bool {
    &&& out.port == e.port
    &&& out.protocol == e.protocol
    &&& out.bind_address == e.bind
    &&& out.pid == None::<u32>
    &&& out.process_name@ == Seq::<char>::empty()
    &&& out.service_name == Some(e.service)
    &&& out.managed_by == Some(e.managed_by)
    &&& out.project == None::<String>
    &&& out.source == PortSource::Portmaster
}

/// A configured port that is neither live nor declared, as the view shows it.
pub open spec fn is_configured_port(out: PortInfo, pp: ProjectPort) -> bool {
    &&& out.port == pp.port
    &&& out.protocol@ == "TCP"@
    &&& out.bind_address@ == "*"@
    &&& out.pid == None::<u32>
    &&& out.process_name@ == Seq::<char>::empty()
    &&& out.service_name == None::<String>
    &&& out.managed_by == None::<String>
    &&& out.project == Some(pp.project_name)
    &&& out.source == PortSource::ProjectConfig
}

/// The record that the view shows for a planned item.
pub open spec fn shows_item(
    out: PortInfo,
    item: (int, int),
    live: Seq<PortInfo>,
    pm: Seq<PortmasterEntry>,
    docker: Seq<(String, u16, String)>,
    proj: Seq<ProjectPort>,
) -> bool {
    if item.0 == 0 {
        is_enriched(out, live[item.1], pm, docker, proj)
    } else if item.0 == 1 {
        is_declared_port(out, pm[item.1])
    } else {
        is_configured_port(out, proj[item.1])
    }
}

/// The sort keys of the planned records: their ports alone.
pub open spec fn plan_keys(
    plan: Seq<(int, int)>,
    live: Seq<PortInfo>,
    pm: Seq<PortmasterEntry>,
    proj: Seq<ProjectPort>,
) -> Seq<SortKey> {
    plan.map_values(|item: (int, int)| (planned_port(item, live, pm, proj), Seq::<char>::empty()))
}

/// `res` is the merged view: the planned records, stably sorted by port.
pub open spec fn is_merged_view(
    res: Seq<PortInfo>,
    live: Seq<PortInfo>,
    pm: Seq<PortmasterEntry>,
    docker: Seq<(String, u16, String)>,
    proj: Seq<ProjectPort>,
) -> bool {
    let plan = merge_plan(live, pm, proj);
    exists|p: Seq<usize>|
        #![trigger is_stable_order(plan_keys(plan, live, pm, proj), p)]
        {
            &&& is_stable_order(plan_keys(plan, live, pm, proj), p)
            &&& res.len() == p.len()
            &&& forall|k: int|
                0 <= k < res.len() ==> shows_item(
                    #[trigger] res[k],
                    plan[p[k] as int],
                    live,
                    pm,
                    docker,
                    proj,
                )
        }
}

fn find_entry(pm: &[PortmasterEntry], port: u16) -> (res: Option<usize>)
    ensures
        match res {
            Some(i) => i < pm@.len() && first_entry(pm@, port, pm@.len() as int) == Some(i as int),
            None => first_entry(pm@, port, pm@.len() as int) == None::<int>,
        },
{
    let mut i: usize = 0;
    while i < pm.len()
        invariant
            0 <= i <= pm@.len(),
            first_entry(pm@, port, i as int) == None::<int>,
        decreases pm.len() - i,
    {
        if pm[i].port == port {
            proof {
                assert(first_entry(pm@, port, i + 1) == Some(i as int));
                lemma_first_entry_stays(pm@, port, i + 1, pm@.len() as int);
            }
            return Some(i);
        }
        i = i + 1;
    }
    None
}

proof fn lemma_first_entry_stays(pm: Seq<PortmasterEntry>, port: u16, n: int, m: int)
    requires
        n <= m,
        first_entry(pm, port, n) is Some,
    ensures
        first_entry(pm, port, m) == first_entry(pm, port, n),
    decreases m - n,
{
    if n < m {
        lemma_first_entry_stays(pm, port, n, m - 1);
    }
}

fn find_container(docker: &[(String, u16, String)], port: u16) -> (res: Option<usize>)
    ensures
        match res {
            Some(i) => i < docker@.len() && first_container(docker@, port, docker@.len() as int) == Some(i as int),
            None => first_container(docker@, port, docker@.len() as int) == None::<int>,
        },
{
    let mut i: usize = 0;
    while i < docker.len()
        invariant
            0 <= i <= docker@.len(),
            first_container(docker@, port, i as int) == None::<int>,
        decreases docker.len() - i,
    {
        if docker[i].1 == port {
            proof {
                assert(first_container(docker@, port, i + 1) == Some(i as int));
                lemma_first_container_stays(docker@, port, i + 1, docker@.len() as int);
            }
            return Some(i);
        }
        i = i + 1;
    }
    None
}

proof fn lemma_first_container_stays(docker: Seq<(String, u16, String)>, port: u16, n: int, m: int)
    requires
        n <= m,
        first_container(docker, port, n) is Some,
    ensures
        first_container(docker, port, m) == first_container(docker, port, n),
    decreases m - n,
{
    if n < m {
        lemma_first_container_stays(docker, port, n, m - 1);
    }
}

fn find_setting(proj: &[ProjectPort], port: u16) -> (res: Option<usize>)
    ensures
        match res {
            Some(i) => i < proj@.len() && first_setting(proj@, port, proj@.len() as int) == Some(i as int),
            None => first_setting(proj@, port, proj@.len() as int) == None::<int>,
        },
{
    let mut i: usize = 0;
    while i < proj.len()
        invariant
            0 <= i <= proj@.len(),
            first_setting(proj@, port, i as int) == None::<int>,
        decreases proj.len() - i,
    {
        if proj[i].port == port {
            proof {
                assert(first_setting(proj@, port, i + 1) == Some(i as int));
                lemma_first_setting_stays(proj@, port, i + 1, proj@.len() as int);
            }
            return Some(i);
        }
        i = i + 1;
    }
    None
}

proof fn lemma_first_setting_stays(proj: Seq<ProjectPort>, port: u16, n: int, m: int)
    requires
        n <= m,
        first_setting(proj, port, n) is Some,
    ensures
        first_setting(proj, port, m) == first_setting(proj, port, n),
    decreases m - n,
{
    if n < m {
        lemma_first_setting_stays(proj, port, n, m - 1);
    }
}

fn enrich(
    lp: &PortInfo,
    pm: &[PortmasterEntry],
    docker: &[(String, u16, String)],
    proj: &[ProjectPort],
) -> (out: PortInfo)
    ensures
        is_enriched(out, *lp, pm@, docker@, proj@),
{
    let mut info = lp.copy();
    match find_entry(pm, lp.port) {
        Some(i) => {
            info.service_name = Some(pm[i].service.clone());
            info.managed_by = Some(pm[i].managed_by.clone());
        },
        None => {},
    }
    match find_container(docker, lp.port) {
        Some(d) => {
            let mut owner = string_from_str("Docker (");
            append_str(&mut owner, docker[d].0.as_str());
            append_str(&mut owner, ")");
            info.managed_by = Some(owner);
            info.source = PortSource::Docker;
        },
        None => {},
    }
    match find_setting(proj, lp.port) {
        Some(j) => {
            info.project = Some(proj[j].project_name.clone());
        },
        None => {},
    }
    info
}


fn declared_port_info(e: &PortmasterEntry) -> (out: PortInfo)
    ensures
        is_declared_port(out, *e),
{
    PortInfo {
        port: e.port,
        protocol: e.protocol.clone(),
        bind_address: e.bind.clone(),
        pid: None,
        process_name: String::new(),
        service_name: Some(e.service.clone()),
        managed_by: Some(e.managed_by.clone()),
        project: None,
        source: PortSource::Portmaster,
    }
}

fn configured_port_info(pp: &ProjectPort) -> (out: PortInfo)
    ensures
        is_configured_port(out, *pp),
{
    PortInfo {
        port: pp.port,
        protocol: string_from_str("TCP"),
        bind_address: string_from_str("*"),
        pid: None,
        process_name: String::new(),
        service_name: None,
        managed_by: None,
        project: Some(pp.project_name.clone()),
        source: PortSource::ProjectConfig,
    }
}

/// Merges live sockets, PORTMASTER entries and project settings into one view
/// sorted by port. `docker_ports` lists the running containers' published
/// ports as (container name, host port, host address).
pub fn merge_ports(
    live_ports: &[PortInfo],
    pm_entries: &[PortmasterEntry],
    project_ports: &[ProjectPort],
    docker_ports: &[(String, u16, String)],
) -> (res: Vec<PortInfo>)
    ensures
        is_merged_view(res@, live_ports@, pm_entries@, docker_ports@, project_ports@),
{
    let ghost live = live_ports@;
    let ghost pm = pm_entries@;
    let ghost proj = project_ports@;
    let ghost docker = docker_ports@;
    let ghost base = Seq::new(live.len(), |i: int| (0int, i));
    let mut pre: Vec<PortInfo> = Vec::new();
    let mut i: usize = 0;
    while i < live_ports.len()
        invariant
            live == live_ports@,
            pm == pm_entries@,
            proj == project_ports@,
            docker == docker_ports@,
            base == Seq::new(live.len(), |i: int| (0int, i)),
            0 <= i <= live.len(),
            pre@.len() == i,
            forall|k: int|
                0 <= k < i ==> shows_item(#[trigger] pre@[k], base[k], live, pm, docker, proj),
            forall|k: int| 0 <= k < i ==> (#[trigger] pre@[k]).port == live[k].port,
        decreases live.len() - i,
    {
        let info = enrich(&live_ports[i], pm_entries, docker_ports, project_ports);
        let ghost before = pre@;
        pre.push(info);
        assert(base[i as int] == (0int, i as int));
        assert(pre@[i as int] == info);
        assert(is_enriched(info, live[i as int], pm, docker, proj));
        assert(shows_item(pre@[i as int], base[i as int], live, pm, docker, proj));
        assert(forall|k: int| 0 <= k < i ==> pre@[k] == before[k]);
        i = i + 1;
    }
    // Declared ports that are not live.
    let mut i: usize = 0;
    while i < pm_entries.len()
        invariant
            live == live_ports@,
            pm == pm_entries@,
            proj == project_ports@,
            docker == docker_ports@,
            base == Seq::new(live.len(), |i: int| (0int, i)),
            0 <= i <= pm.len(),
            live.len() <= pre@.len(),
            pre@.len() == live.len() + joining_entries(live, pm, i as int).len(),
            forall|k: int|
                0 <= k < pre@.len() ==> shows_item(
                    #[trigger] pre@[k],
                    (base + joining_entries(live, pm, i as int))[k],
                    live,
                    pm,
                    docker,
                    proj,
                ),
            forall|k: int|
                0 <= k < pre@.len() ==> (#[trigger] pre@[k]).port == planned_port(
                    (base + joining_entries(live, pm, i as int))[k],
                    live,
                    pm,
                    proj,
                ),
            forall|k: int| 0 <= k < live.len() ==> (#[trigger] pre@[k]).port == live[k].port,
            forall|j: int| 0 <= j < i ==> live_has(pre@, (#[trigger] pm[j]).port as int),
            forall|q: int|
                live_has(pre@, q) ==> live_has(live, q) || exists|j: int|
                    0 <= j < i && (#[trigger] pm[j]).port == q,
            forall|k: int|
                0 <= k < joining_entries(live, pm, i as int).len() ==> {
                    let e = #[trigger] joining_entries(live, pm, i as int)[k];
                    e.0 == 1 && 0 <= e.1 < i
                },
        decreases pm.len() - i,
    {
        let ghost before = pre@;
        let ghost plan = base + joining_entries(live, pm, i as int);
        let port = pm_entries[i].port;
        proof {
            assert forall|q: int| live_has(live, q) implies live_has(before, q) by {
                let w = choose|w: int| 0 <= w < live.len() && live[w].port == q;
                assert(before[w].port == live[w].port);
            }
        }
        if !contains_port(&pre, port) {
            let info = declared_port_info(&pm_entries[i]);
            pre.push(info);
            proof {
                assert(entry_joins(live, pm, i as int));
                assert(joining_entries(live, pm, i + 1) == joining_entries(live, pm, i as int).push(
                    (1int, i as int),
                ));
                assert(base + joining_entries(live, pm, i + 1) == plan.push((1int, i as int)));
                assert forall|q: int|
                    live_has(pre@, q) implies live_has(live, q) || exists|j: int|
                        0 <= j < i + 1 && (#[trigger] pm[j]).port == q by {
                    let w = choose|w: int| 0 <= w < pre@.len() && pre@[w].port == q;
                    if w < before.len() {
                        assert(live_has(before, q));
                    }
                }
                assert forall|j: int| 0 <= j < i + 1 implies live_has(
                    pre@,
                    (#[trigger] pm[j]).port as int,
                ) by {
                    if j < i {
                        let w = choose|w: int| 0 <= w < before.len() && before[w].port == pm[j].port;
                        assert(pre@[w] == before[w]);
                    } else {
                        assert(pre@[pre@.len() - 1].port == pm[j].port);
                    }
                }
            }
        } else {
            proof {
                assert(!entry_joins(live, pm, i as int)) by {
                    if entry_joins(live, pm, i as int) {
                        assert(live_has(before, port as int));
                    }
                }
                assert(joining_entries(live, pm, i + 1) == joining_entries(live, pm, i as int));
            }
        }
        i = i + 1;
    }
    // Configured ports that are neither live nor declared.
    let ghost mid = base + joining_entries(live, pm, pm.len() as int);
    let mut i: usize = 0;
    while i < project_ports.len()
        invariant
            live == live_ports@,
            pm == pm_entries@,
            proj == project_ports@,
            docker == docker_ports@,
            mid == base + joining_entries(live, pm, pm.len() as int),
            0 <= i <= proj.len(),
            live.len() <= pre@.len(),
            pre@.len() == mid.len() + joining_settings(live, pm, proj, i as int).len(),
            forall|k: int|
                0 <= k < pre@.len() ==> shows_item(
                    #[trigger] pre@[k],
                    (mid + joining_settings(live, pm, proj, i as int))[k],
                    live,
                    pm,
                    docker,
                    proj,
                ),
            forall|k: int|
                0 <= k < pre@.len() ==> (#[trigger] pre@[k]).port == planned_port(
                    (mid + joining_settings(live, pm, proj, i as int))[k],
                    live,
                    pm,
                    proj,
                ),
            forall|k: int| 0 <= k < live.len() ==> (#[trigger] pre@[k]).port == live[k].port,
            forall|j: int| 0 <= j < pm.len() ==> live_has(pre@, (#[trigger] pm[j]).port as int),
            forall|j: int| 0 <= j < i ==> live_has(pre@, (#[trigger] proj[j]).port as int),
            forall|q: int|
                live_has(pre@, q) ==> live_has(live, q) || declared(pm, q) || exists|j: int|
                    0 <= j < i && (#[trigger] proj[j]).port == q,
        decreases proj.len() - i,
    {
        let ghost before = pre@;
        let ghost plan = mid + joining_settings(live, pm, proj, i as int);
        let port = project_ports[i].port;
        proof {
            assert forall|q: int| live_has(live, q) implies live_has(before, q) by {
                let w = choose|w: int| 0 <= w < live.len() && live[w].port == q;
                assert(before[w].port == live[w].port);
            }
            assert forall|q: int| declared(pm, q) implies live_has(before, q) by {
                let w = choose|w: int| 0 <= w < pm.len() && pm[w].port == q;
                assert(live_has(before, pm[w].port as int));
            }
        }
        if !contains_port(&pre, port) {
            let info = configured_port_info(&project_ports[i]);
            pre.push(info);
            proof {
                assert(setting_joins(live, pm, proj, i as int));
                assert(joining_settings(live, pm, proj, i + 1) == joining_settings(
                    live,
                    pm,
                    proj,
                    i as int,
                ).push((2int, i as int)));
                assert(mid + joining_settings(live, pm, proj, i + 1) == plan.push((2int, i as int)));
                assert forall|q: int|
                    live_has(pre@, q) implies live_has(live, q) || declared(pm, q) || exists|j: int|
                        0 <= j < i + 1 && (#[trigger] proj[j]).port == q by {
                    let w = choose|w: int| 0 <= w < pre@.len() && pre@[w].port == q;
                    if w < before.len() {
                        assert(live_has(before, q));
                    }
                }
                assert forall|j: int| 0 <= j < pm.len() implies live_has(
                    pre@,
                    (#[trigger] pm[j]).port as int,
                ) by {
                    let w = choose|w: int| 0 <= w < before.len() && before[w].port == pm[j].port;
                    assert(pre@[w] == before[w]);
                }
                assert forall|j: int| 0 <= j < i + 1 implies live_has(
                    pre@,
                    (#[trigger] proj[j]).port as int,
                ) by {
                    if j < i {
                        let w = choose|w: int|
                            0 <= w < before.len() && before[w].port == proj[j].port;
                        assert(pre@[w] == before[w]);
                    } else {
                        assert(pre@[pre@.len() - 1].port == proj[j].port);
                    }
                }
            }
        } else {
            proof {
                assert(!setting_joins(live, pm, proj, i as int)) by {
                    if setting_joins(live, pm, proj, i as int) {
                        assert(live_has(before, port as int));
                    }
                }
                assert(joining_settings(live, pm, proj, i + 1) == joining_settings(
                    live,
                    pm,
                    proj,
                    i as int,
                ));
            }
        }
        i = i + 1;
    }
    let ghost plan = merge_plan(live, pm, proj);
    assert(plan == mid + joining_settings(live, pm, proj, proj.len() as int));
    // Stable sort by port.
    let mut keys: Vec<(u16, Vec<char>)> = Vec::new();
    let mut k: usize = 0;
    while k < pre.len()
        invariant
            0 <= k <= pre@.len(),
            keys@.len() == k,
            forall|t: int|
                0 <= t < k ==> key_views(keys@)[t] == (
                    #[trigger] pre@[t].port,
                    Seq::<char>::empty(),
                ),
        decreases pre.len() - k,
    {
        keys.push((pre[k].port, Vec::new()));
        k = k + 1;
    }
    assert(pre@.len() == plan.len());
    assert forall|t: int| 0 <= t < plan.len() implies key_views(keys@)[t] == plan_keys(
        plan,
        live,
        pm,
        proj,
    )[t] by {
        assert(key_views(keys@)[t] == (pre@[t].port, Seq::<char>::empty()));
        assert(pre@[t].port == planned_port(plan[t], live, pm, proj));
    }
    assert(key_views(keys@) =~= plan_keys(plan, live, pm, proj));
    let p = stable_order(&keys);
    let mut res: Vec<PortInfo> = Vec::new();
    let mut k: usize = 0;
    while k < p.len()
        invariant
            is_stable_order(key_views(keys@), p@),
            p@.len() == pre@.len(),
            0 <= k <= p@.len(),
            res@.len() == k,
            forall|t: int| 0 <= t < k ==> #[trigger] res@[t] == pre@[p@[t] as int],
        decreases p.len() - k,
    {
        res.push(pre[p[k]].copy());
        k = k + 1;
    }
    assert(forall|t: int|
        0 <= t < res@.len() ==> shows_item(
            #[trigger] res@[t],
            plan[p@[t] as int],
            live,
            pm,
            docker,
            proj,
        ));
    res
}


// ---------------------------------------------------------------------------
// Laws
// ---------------------------------------------------------------------------

proof fn lemma_shows_item_port(
    out: PortInfo,
    item: (int, int),
    live: Seq<PortInfo>,
    pm: Seq<PortmasterEntry>,
    docker: Seq<(String, u16, String)>,
    proj: Seq<ProjectPort>,
)
    requires
        shows_item(out, item, live, pm, docker, proj),
    ensures
        out.port == planned_port(item, live, pm, proj),
{
}

/// The merged view is sorted by port.
pub proof fn merged_view_is_sorted(
    res: Seq<PortInfo>,
    live: Seq<PortInfo>,
    pm: Seq<PortmasterEntry>,
    docker: Seq<(String, u16, String)>,
    proj: Seq<ProjectPort>,
)
    requires
        is_merged_view(res, live, pm, docker, proj),
    ensures
        forall|a: int, b: int| 0 <= a < b < res.len() ==> res[a].port <= res[b].port,
{
    let plan = merge_plan(live, pm, proj);
    let keys = plan_keys(plan, live, pm, proj);
    let p = choose|p: Seq<usize>|
        #![trigger is_stable_order(plan_keys(plan, live, pm, proj), p)]
        {
            &&& is_stable_order(plan_keys(plan, live, pm, proj), p)
            &&& res.len() == p.len()
            &&& forall|k: int|
                0 <= k < res.len() ==> shows_item(
                    #[trigger] res[k],
                    plan[p[k] as int],
                    live,
                    pm,
                    docker,
                    proj,
                )
        };
    assert forall|a: int, b: int| 0 <= a < b < res.len() implies res[a].port <= res[b].port by {
        assert(placed_before(keys, p[a] as int, p[b] as int));
        lemma_shows_item_port(res[a], plan[p[a] as int], live, pm, docker, proj);
        lemma_shows_item_port(res[b], plan[p[b] as int], live, pm, docker, proj);
        crate::sorting::lemma_lex_irreflexive(Seq::<char>::empty());
    }
}

proof fn lemma_entry_joins_listed(live: Seq<PortInfo>, pm: Seq<PortmasterEntry>, j: int, n: int)
    requires
        0 <= j < n <= pm.len(),
        entry_joins(live, pm, j),
    ensures
        exists|t: int|
            0 <= t < joining_entries(live, pm, n).len() && #[trigger] joining_entries(live, pm, n)[t] == (
                1int,
                j,
            ),
    decreases n,
{
    if n - 1 == j {
        let s = joining_entries(live, pm, n);
        assert(s[s.len() - 1] == (1int, j));
    } else {
        lemma_entry_joins_listed(live, pm, j, n - 1);
        let t = choose|t: int|
            0 <= t < joining_entries(live, pm, n - 1).len() && #[trigger] joining_entries(live, pm, n - 1)[t]
                == (1int, j);
        assert(joining_entries(live, pm, n)[t] == (1int, j));
    }
}

proof fn lemma_setting_joins_listed(
    live: Seq<PortInfo>,
    pm: Seq<PortmasterEntry>,
    proj: Seq<ProjectPort>,
    j: int,
    n: int,
)
    requires
        0 <= j < n <= proj.len(),
        setting_joins(live, pm, proj, j),
    ensures
        exists|t: int|
            0 <= t < joining_settings(live, pm, proj, n).len() && #[trigger] joining_settings(
                live,
                pm,
                proj,
                n,
            )[t] == (2int, j),
    decreases n,
{
    if n - 1 == j {
        let s = joining_settings(live, pm, proj, n);
        assert(s[s.len() - 1] == (2int, j));
    } else {
        lemma_setting_joins_listed(live, pm, proj, j, n - 1);
        let t = choose|t: int|
            0 <= t < joining_settings(live, pm, proj, n - 1).len() && #[trigger] joining_settings(
                live,
                pm,
                proj,
                n - 1,
            )[t] == (2int, j);
        assert(joining_settings(live, pm, proj, n)[t] == (2int, j));
    }
}

/// Every port that is live, declared in a registry or configured by a project
/// appears in the merged view.
pub proof fn merged_view_covers_all_ports(
    res: Seq<PortInfo>,
    live: Seq<PortInfo>,
    pm: Seq<PortmasterEntry>,
    docker: Seq<(String, u16, String)>,
    proj: Seq<ProjectPort>,
)
    requires
        is_merged_view(res, live, pm, docker, proj),
    ensures
        forall|i: int| 0 <= i < live.len() ==> live_has(res, (#[trigger] live[i]).port as int),
        forall|i: int| 0 <= i < pm.len() ==> live_has(res, (#[trigger] pm[i]).port as int),
        forall|i: int| 0 <= i < proj.len() ==> live_has(res, (#[trigger] proj[i]).port as int),
{
    let plan = merge_plan(live, pm, proj);
    let keys = plan_keys(plan, live, pm, proj);
    let p = choose|p: Seq<usize>|
        #![trigger is_stable_order(plan_keys(plan, live, pm, proj), p)]
        {
            &&& is_stable_order(plan_keys(plan, live, pm, proj), p)
            &&& res.len() == p.len()
            &&& forall|k: int|
                0 <= k < res.len() ==> shows_item(
                    #[trigger] res[k],
                    plan[p[k] as int],
                    live,
                    pm,
                    docker,
                    proj,
                )
        };
    let base = Seq::new(live.len(), |i: int| (0int, i));
    let je = joining_entries(live, pm, pm.len() as int);
    let js = joining_settings(live, pm, proj, proj.len() as int);
    assert(plan == base + je + js);
    // Every planned item shows up.
    assert forall|j: int| 0 <= j < plan.len() implies live_has(
        res,
        planned_port(#[trigger] plan[j], live, pm, proj) as int,
    ) by {
        assert(lists(p, j));
        let k = choose|k: int| 0 <= k < p.len() && p[k] == j;
        lemma_shows_item_port(res[k], plan[j], live, pm, docker, proj);
    }
    assert forall|i: int| 0 <= i < live.len() implies live_has(
        res,
        (#[trigger] live[i]).port as int,
    ) by {
        assert(plan[i] == (0int, i));
        assert(live_has(res, planned_port(plan[i], live, pm, proj) as int));
    }
    assert forall|i: int| 0 <= i < pm.len() implies live_has(res, (#[trigger] pm[i]).port as int) by {
        lemma_declared_covered(res, live, pm, proj, plan, i);
    }
    assert forall|i: int| 0 <= i < proj.len() implies live_has(
        res,
        (#[trigger] proj[i]).port as int,
    ) by {
        lemma_configured_covered(res, live, pm, proj, plan, i);
    }
}

proof fn lemma_declared_covered(
    res: Seq<PortInfo>,
    live: Seq<PortInfo>,
    pm: Seq<PortmasterEntry>,
    proj: Seq<ProjectPort>,
    plan: Seq<(int, int)>,
    i: int,
)
    requires
        plan == merge_plan(live, pm, proj),
        0 <= i < pm.len(),
        forall|j: int|
            0 <= j < plan.len() ==> live_has(
                res,
                planned_port(#[trigger] plan[j], live, pm, proj) as int,
            ),
        forall|t: int| 0 <= t < live.len() ==> live_has(res, (#[trigger] live[t]).port as int),
    ensures
        live_has(res, pm[i].port as int),
    decreases i,
{
    if entry_joins(live, pm, i) {
        lemma_entry_joins_listed(live, pm, i, pm.len() as int);
        let je = joining_entries(live, pm, pm.len() as int);
        let t = choose|t: int| 0 <= t < je.len() && #[trigger] je[t] == (1int, i);
        assert(plan[live.len() + t] == (1int, i));
        assert(live_has(res, planned_port(plan[live.len() + t], live, pm, proj) as int));
    } else if live_has(live, pm[i].port as int) {
        let w = choose|w: int| 0 <= w < live.len() && live[w].port == pm[i].port;
        assert(live_has(res, live[w].port as int));
    } else {
        let j = choose|j: int| 0 <= j < i && pm[j].port == pm[i].port;
        lemma_declared_covered(res, live, pm, proj, plan, j);
    }
}

proof fn lemma_configured_covered(
    res: Seq<PortInfo>,
    live: Seq<PortInfo>,
    pm: Seq<PortmasterEntry>,
    proj: Seq<ProjectPort>,
    plan: Seq<(int, int)>,
    i: int,
)
    requires
        plan == merge_plan(live, pm, proj),
        0 <= i < proj.len(),
        forall|j: int|
            0 <= j < plan.len() ==> live_has(
                res,
                planned_port(#[trigger] plan[j], live, pm, proj) as int,
            ),
        forall|t: int| 0 <= t < live.len() ==> live_has(res, (#[trigger] live[t]).port as int),
        forall|t: int| 0 <= t < pm.len() ==> live_has(res, (#[trigger] pm[t]).port as int),
    ensures
        live_has(res, proj[i].port as int),
    decreases i,
{
    if setting_joins(live, pm, proj, i) {
        lemma_setting_joins_listed(live, pm, proj, i, proj.len() as int);
        let js = joining_settings(live, pm, proj, proj.len() as int);
        let je = joining_entries(live, pm, pm.len() as int);
        let t = choose|t: int| 0 <= t < js.len() && #[trigger] js[t] == (2int, i);
        assert(plan[live.len() + je.len() + t] == (2int, i));
        assert(live_has(
            res,
            planned_port(plan[live.len() + je.len() + t], live, pm, proj) as int,
        ));
    } else if live_has(live, proj[i].port as int) {
        let w = choose|w: int| 0 <= w < live.len() && live[w].port == proj[i].port;
        assert(live_has(res, live[w].port as int));
    } else if declared(pm, proj[i].port as int) {
        let w = choose|w: int| 0 <= w < pm.len() && pm[w].port == proj[i].port;
        assert(live_has(res, pm[w].port as int));
    } else {
        let j = choose|j: int| 0 <= j < i && proj[j].port == proj[i].port;
        lemma_configured_covered(res, live, pm, proj, plan, j);
    }
}

proof fn lemma_joining_entries(live: Seq<PortInfo>, pm: Seq<PortmasterEntry>, n: int)
    requires
        n <= pm.len(),
    ensures
        forall|t: int|
            0 <= t < joining_entries(live, pm, n).len() ==> {
                let q = #[trigger] joining_entries(live, pm, n)[t];
                q.0 == 1 && 0 <= q.1 < n && entry_joins(live, pm, q.1)
            },
    decreases n,
{
    if n > 0 {
        lemma_joining_entries(live, pm, n - 1);
        let prev = joining_entries(live, pm, n - 1);
        assert forall|t: int| 0 <= t < joining_entries(live, pm, n).len() implies {
            let q = #[trigger] joining_entries(live, pm, n)[t];
            q.0 == 1 && 0 <= q.1 < n && entry_joins(live, pm, q.1)
        } by {
            if t < prev.len() {
                assert(joining_entries(live, pm, n)[t] == prev[t]);
            }
        }
    }
}

proof fn lemma_joining_settings(
    live: Seq<PortInfo>,
    pm: Seq<PortmasterEntry>,
    proj: Seq<ProjectPort>,
    n: int,
)
    requires
        n <= proj.len(),
    ensures
        forall|t: int|
            0 <= t < joining_settings(live, pm, proj, n).len() ==> {
                let q = #[trigger] joining_settings(live, pm, proj, n)[t];
                q.0 == 2 && 0 <= q.1 < n
            },
    decreases n,
{
    if n > 0 {
        lemma_joining_settings(live, pm, proj, n - 1);
        let prev = joining_settings(live, pm, proj, n - 1);
        assert forall|t: int| 0 <= t < joining_settings(live, pm, proj, n).len() implies {
            let q = #[trigger] joining_settings(live, pm, proj, n)[t];
            q.0 == 2 && 0 <= q.1 < n
        } by {
            if t < prev.len() {
                assert(joining_settings(live, pm, proj, n)[t] == prev[t]);
            }
        }
    }
}

/// Records of the merged view that come from a registry (when every input
/// socket is a live one) show a declared port that is not live, with the
/// declaring entry's service, owner, protocol and address and no process; and
/// the first entry that declares a port that is not live is shown so.
pub proof fn declared_records_carry_their_entry(
    res: Seq<PortInfo>,
    live: Seq<PortInfo>,
    pm: Seq<PortmasterEntry>,
    docker: Seq<(String, u16, String)>,
    proj: Seq<ProjectPort>,
)
    requires
        is_merged_view(res, live, pm, docker, proj),
        forall|i: int| 0 <= i < live.len() ==> (#[trigger] live[i]).source == PortSource::Live,
    ensures
        forall|k: int|
            0 <= k < res.len() && (#[trigger] res[k]).source == PortSource::Portmaster ==> exists|i: int|
                0 <= i < pm.len() && (#[trigger] pm[i]).port == res[k].port && !live_has(
                    live,
                    pm[i].port as int,
                ) && res[k].service_name == Some(pm[i].service) && res[k].managed_by == Some(
                    pm[i].managed_by,
                ) && res[k].protocol == pm[i].protocol && res[k].bind_address == pm[i].bind
                    && res[k].pid == None::<u32>,
        forall|i: int|
            0 <= i < pm.len() && !live_has(live, (#[trigger] pm[i]).port as int) && (forall|j: int|
                0 <= j < i ==> pm[j].port != pm[i].port) ==> exists|k: int|
                0 <= k < res.len() && res[k].source == PortSource::Portmaster && res[k].port
                    == pm[i].port && res[k].service_name == Some(pm[i].service)
                    && res[k].managed_by == Some(pm[i].managed_by),
{
    let plan = merge_plan(live, pm, proj);
    let p = choose|p: Seq<usize>|
        #![trigger is_stable_order(plan_keys(plan, live, pm, proj), p)]
        {
            &&& is_stable_order(plan_keys(plan, live, pm, proj), p)
            &&& res.len() == p.len()
            &&& forall|k: int|
                0 <= k < res.len() ==> shows_item(
                    #[trigger] res[k],
                    plan[p[k] as int],
                    live,
                    pm,
                    docker,
                    proj,
                )
        };
    let base = Seq::new(live.len(), |i: int| (0int, i));
    let je = joining_entries(live, pm, pm.len() as int);
    let js = joining_settings(live, pm, proj, proj.len() as int);
    assert(plan == base + je + js);
    lemma_joining_entries(live, pm, pm.len() as int);
    lemma_joining_settings(live, pm, proj, proj.len() as int);
    assert forall|k: int|
        0 <= k < res.len() && (#[trigger] res[k]).source == PortSource::Portmaster implies exists|i: int|
            0 <= i < pm.len() && (#[trigger] pm[i]).port == res[k].port && !live_has(
                live,
                pm[i].port as int,
            ) && res[k].service_name == Some(pm[i].service) && res[k].managed_by == Some(
                pm[i].managed_by,
            ) && res[k].protocol == pm[i].protocol && res[k].bind_address == pm[i].bind
                && res[k].pid == None::<u32> by {
        let x = p[k] as int;
        assert(shows_item(res[k], plan[x], live, pm, docker, proj));
        if x < live.len() {
            assert(plan[x] == (0int, x));
            assert(live[x].source == PortSource::Live);
        } else if x < live.len() + je.len() {
            assert(plan[x] == je[x - live.len()]);
            let q = je[x - live.len()];
            assert(q.0 == 1 && 0 <= q.1 < pm.len() && entry_joins(live, pm, q.1));
            assert(pm[q.1].port == res[k].port);
        } else {
            assert(plan[x] == js[x - live.len() - je.len()]);
        }
    }
    assert forall|i: int|
        0 <= i < pm.len() && !live_has(live, (#[trigger] pm[i]).port as int) && (forall|j: int|
            0 <= j < i ==> pm[j].port != pm[i].port) implies exists|k: int|
            0 <= k < res.len() && res[k].source == PortSource::Portmaster && res[k].port
                == pm[i].port && res[k].service_name == Some(pm[i].service)
                && res[k].managed_by == Some(pm[i].managed_by) by {
        assert(entry_joins(live, pm, i));
        lemma_entry_joins_listed(live, pm, i, pm.len() as int);
        let t = choose|t: int| 0 <= t < je.len() && #[trigger] je[t] == (1int, i);
        assert(plan[live.len() + t] == (1int, i));
        assert(lists(p, live.len() + t));
        let k = choose|k: int| 0 <= k < p.len() && p[k] == live.len() + t;
        assert(shows_item(res[k], plan[p[k] as int], live, pm, docker, proj));
    }
}

} // verus!
