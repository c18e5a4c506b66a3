//! Orderings used when listings are shown, and the list of registry files.
use vstd::prelude::*;
use crate::model::{PortInfo, ProjectPort};
use crate::sorting::{is_stable_order, is_stable_sort_of, key_views, stable_order, SortKey};
use crate::text::str_is;

verus! {

/// The sort keys of sockets shown by port alone.
pub open spec fn port_keys(s: Seq<PortInfo>) -> Seq<SortKey> {
    s.map_values(|p: PortInfo| (p.port, Seq::<char>::empty()))
}

/// The sockets stably sorted by port (`sort_by_key(|p| p.port)`).
pub fn sort_ports_by_port(ports: &[PortInfo]) -> (res: Vec<PortInfo>)
    ensures
        is_stable_sort_of(res@, ports@, port_keys(ports@)),
{
    let mut keys: Vec<(u16, Vec<char>)> = Vec::new();
    let mut k: usize = 0;
    while k < ports.len()
        invariant
            0 <= k <= ports@.len(),
            keys@.len() == k,
            forall|t: int| 0 <= t < k ==> #[trigger] key_views(keys@)[t] == port_keys(ports@)[t],
        decreases ports.len() - k,
    {
        let ghost before = keys@;
        keys.push((ports[k].port, Vec::new()));
        assert forall|t: int| 0 <= t < k + 1 implies #[trigger] key_views(keys@)[t] == port_keys(
            ports@,
        )[t] by {
            if t < k {
                assert(keys@[t] == before[t]);
                assert(key_views(before)[t] == port_keys(ports@)[t]);
            }
        }
        k = k + 1;
    }
    assert(key_views(keys@) =~= port_keys(ports@));
    let p = stable_order(&keys);
    let mut res: Vec<PortInfo> = Vec::new();
    let mut k: usize = 0;
    while k < p.len()
        invariant
            is_stable_order(port_keys(ports@), p@),
            0 <= k <= p@.len(),
            res@.len() == k,
            forall|t: int| 0 <= t < k ==> #[trigger] res@[t] == ports@[p@[t] as int],
        decreases p.len() - k,
    {
        res.push(ports[p[k]].copy());
        k = k + 1;
    }
    assert(is_stable_order(port_keys(ports@), p@) && res@.len() == p@.len() && forall|t: int|
        0 <= t < res@.len() ==> #[trigger] res@[t] == ports@[p@[t] as int]);
    res
}

/// The sort keys of settings shown by port and then project name.
pub open spec fn display_keys(s: Seq<ProjectPort>) -> Seq<SortKey> {
    s.map_values(|p: ProjectPort| (p.port, p.project_name@))
}

/// The project settings stably sorted by port and then project name.
pub fn sort_settings_for_display(ports: &[ProjectPort]) -> (res: Vec<ProjectPort>)
    ensures
        is_stable_sort_of(res@, ports@, display_keys(ports@)),
{
    let mut keys: Vec<(u16, Vec<char>)> = Vec::new();
    let mut k: usize = 0;
    while k < ports.len()
        invariant
            0 <= k <= ports@.len(),
            keys@.len() == k,
            forall|t: int| 0 <= t < k ==> #[trigger] key_views(keys@)[t] == display_keys(ports@)[t],
        decreases ports.len() - k,
    {
        let ghost before = keys@;
        keys.push((ports[k].port, crate::text::chars_of(ports[k].project_name.as_str())));
        assert forall|t: int| 0 <= t < k + 1 implies #[trigger] key_views(keys@)[t]
            == display_keys(ports@)[t] by {
            if t < k {
                assert(keys@[t] == before[t]);
                assert(key_views(before)[t] == display_keys(ports@)[t]);
            }
        }
        k = k + 1;
    }
    assert(key_views(keys@) =~= display_keys(ports@));
    let p = stable_order(&keys);
    let mut res: Vec<ProjectPort> = Vec::new();
    let mut k: usize = 0;
    while k < p.len()
        invariant
            is_stable_order(display_keys(ports@), p@),
            0 <= k <= p@.len(),
            res@.len() == k,
            forall|t: int| 0 <= t < k ==> #[trigger] res@[t] == ports@[p@[t] as int],
        decreases p.len() - k,
    {
        res.push(ports[p[k]].copy());
        k = k + 1;
    }
    assert(is_stable_order(display_keys(ports@), p@) && res@.len() == p@.len() && forall|t: int|
        0 <= t < res@.len() ==> #[trigger] res@[t] == ports@[p@[t] as int]);
    res
}

/// The views of a list of strings.
pub open spec fn string_views(v: Seq<String>) -> Seq<Seq<char>> {
    v.map_values(|s: String| s@)
}

/// Adds a discovered file to the list unless it is already there.
pub fn push_unique(files: &mut Vec<String>, path: String)
    ensures
        string_views(old(files)@).contains(path@) ==> final(files)@ == old(files)@,
        !string_views(old(files)@).contains(path@) ==> final(files)@ == old(files)@.push(path),
{
    let mut i: usize = 0;
    while i < files.len()
        invariant
            0 <= i <= files@.len(),
            files@ == old(files)@,
            forall|k: int| 0 <= k < i ==> string_views(files@)[k] != path@,
        decreases files.len() - i,
    {
        if str_is(files[i].as_str(), path.as_str()) {
            assert(string_views(files@)[i as int] == path@);
            return;
        }
        i = i + 1;
    }
    files.push(path);
}

} // verus!
