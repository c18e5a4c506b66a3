//! PORTMASTER.md registries: parsing one file and combining several.
use vstd::prelude::*;
use crate::model::{ParseError, PortmasterEntry};
use crate::number::{parse_u16_spec, parse_unsigned};
use crate::pattern::{
    all_captures, first_captures, group, group_chars, pattern_accepted, regex_accepts,
    regex_captures, regex_captures_iter, Groups,
};
use crate::sorting::{is_stable_order, key_lt, key_views, lists, placed_before, stable_order};
use crate::text::{lines, split_lines, string_from, string_from_str, trim, trimmed, views};
use std::collections::HashMap;

verus! {

/// The pattern for a registry table row `| port | service | protocol | bind | managed by | notes |`.
pub const TABLE_PATTERN: &'static str = "\\|\\s*(\\d+)\\s*\\|\\s*([^|]+?)\\s*\\|\\s*([^|]+?)\\s*\\|\\s*([^|]+?)\\s*\\|\\s*([^|]+?)\\s*\\|\\s*([^|]+?)\\s*\\|";

/// The pattern for a plain `port: service` or `port = service` line.
pub const SIMPLE_PATTERN: &'static str = "^(\\d{2,5})\\s*[:=]\\s*(.+)$";

/// The pattern for an allocation range line `start - end | purpose`.
pub const RANGE_PATTERN: &'static str = "(\\d{2,5})\\s*-\\s*(\\d{2,5})\\s*\\|\\s*(.+)";

/// A registry entry as text: port, service, protocol, bind, managed by, notes,
/// source file.
pub type EntryText = (u16, Seq<char>, Seq<char>, Seq<char>, Seq<char>, Seq<char>, Seq<char>);

/// The text of an entry.
pub open spec fn entry_text(e: PortmasterEntry) -> EntryText {
    (e.port, e.service@, e.protocol@, e.bind@, e.managed_by@, e.notes@, e.source_file@)
}

/// The texts of entries.
pub open spec fn entry_texts(v: Seq<PortmasterEntry>) -> Seq<EntryText> {
    v.map_values(|e: PortmasterEntry| entry_text(e))
}

/// The entry of a table row match: the trimmed cells, when the first is a valid port.
pub open spec fn table_row_entry(g: Groups, path: Seq<char>) -> Option<EntryText> {
    match (group(g, 1), group(g, 2), group(g, 3), group(g, 4), group(g, 5), group(g, 6)) {
        (Some(c1), Some(c2), Some(c3), Some(c4), Some(c5), Some(c6)) => match parse_u16_spec(
            trim(c1),
        ) {
            Some(p) => Some((p, trim(c2), trim(c3), trim(c4), trim(c5), trim(c6), path)),
            None => None,
        },
        _ => None,
    }
}

/// The entries of a sequence of table row matches, in order.
pub open spec fn table_entries(ms: Seq<Groups>, path: Seq<char>) -> Seq<EntryText>
    decreases ms.len(),
{
    if ms.len() == 0 {
        seq![]
    } else {
        match table_row_entry(ms.last(), path) {
            Some(e) => table_entries(ms.drop_last(), path).push(e),
            None => table_entries(ms.drop_last(), path),
        }
    }
}

/// The entry of the match of the plain-line pattern, if the line matched.
pub open spec fn simple_entry_of(caps: Option<Groups>, path: Seq<char>) -> Option<
    EntryText,
> {
    match caps {
        Some(g) => match (group(g, 1), group(g, 2)) {
            (Some(d), Some(service)) => match parse_u16_spec(d) {
                Some(p) => Some((p, trim(service), "TCP"@, "*"@, "unknown"@, Seq::empty(), path)),
                None => None,
            },
            _ => None,
        },
        None => None,
    }
}

/// The entry of a plain `port: service` line (matched after trimming the line).
pub open spec fn simple_line_entry(line: Seq<char>, path: Seq<char>) -> Option<EntryText> {
    simple_entry_of(regex_captures(SIMPLE_PATTERN@, trim(line)), path)
}

/// The entries of plain lines, in order.
pub open spec fn simple_entries(ls: Seq<Seq<char>>, path: Seq<char>) -> Seq<EntryText>
    decreases ls.len(),
{
    if ls.len() == 0 {
        seq![]
    } else {
        match simple_line_entry(ls.last(), path) {
            Some(e) => simple_entries(ls.drop_last(), path).push(e),
            None => simple_entries(ls.drop_last(), path),
        }
    }
}

/// The entries of a registry file: its table rows, or, when it has none, its
/// plain `port: service` lines. `None` when the pattern engine refuses a pattern
/// that is needed.
pub open spec fn registry_entries(path: Seq<char>, content: Seq<char>) -> Option<Seq<EntryText>> {
    if !regex_accepts(TABLE_PATTERN@) {
        None
    } else {
        let t = table_entries(regex_captures_iter(TABLE_PATTERN@, content), path);
        if t.len() > 0 {
            Some(t)
        } else if !regex_accepts(SIMPLE_PATTERN@) {
            None
        } else {
            Some(simple_entries(lines(content), path))
        }
    }
}

fn trimmed_string(v: &Vec<char>) -> (res: String)
    ensures
        res@ == trim(v@),
{
    string_from(&trimmed(v))
}

/// The entries of the table row matches `rows` (each the capture groups of one
/// match of `TABLE_PATTERN`) of the registry file at `path`.
pub fn entries_from_rows(path: &str, rows: &Vec<Vec<Option<(usize, String)>>>) -> (res: Vec<PortmasterEntry>)
    ensures
        entry_texts(res@) == table_entries(rows.deep_view(), path@),
{
    let ghost mv = rows.deep_view();
    let mut entries: Vec<PortmasterEntry> = Vec::new();
    let mut i: usize = 0;
    while i < rows.len()
        invariant
            mv == rows.deep_view(),
            0 <= i <= rows@.len(),
            entry_texts(entries@) == table_entries(mv.take(i as int), path@),
        decreases rows.len() - i,
    {
        let g = &rows[i];
        assert(mv.take(i + 1).drop_last() == mv.take(i as int));
        assert(mv.take(i + 1).last() == g.deep_view());
        match (
            group_chars(g, 1),
            group_chars(g, 2),
            group_chars(g, 3),
            group_chars(g, 4),
            group_chars(g, 5),
            group_chars(g, 6),
        ) {
            (Some(c1), Some(c2), Some(c3), Some(c4), Some(c5), Some(c6)) => {
                let d = trimmed(&c1);
                match parse_unsigned(&d, 65535) {
                    Some(p) => {
                        let e = PortmasterEntry {
                            port: p as u16,
                            service: trimmed_string(&c2),
                            protocol: trimmed_string(&c3),
                            bind: trimmed_string(&c4),
                            managed_by: trimmed_string(&c5),
                            notes: trimmed_string(&c6),
                            source_file: string_from_str(path),
                        };
                        let ghost before = entries@;
                        entries.push(e);
                        assert(entry_texts(entries@) == entry_texts(before).push(entry_text(e)));
                    },
                    None => {},
                }
            },
            _ => {},
        }
        i = i + 1;
    }
    assert(mv.take(rows@.len() as int) == mv);
    entries
}

/// The entry of a plain line of the registry file at `path`, given the capture
/// groups of the plain-line pattern's match in the trimmed line (`None` when it
/// did not match).
pub fn simple_entry_from(path: &str, caps: &Option<Vec<Option<(usize, String)>>>) -> (res: Option<
    PortmasterEntry,
>)
    ensures
        match simple_entry_of(caps.deep_view(), path@) {
            Some(t) => res matches Some(e) && entry_text(e) == t,
            None => res is None,
        },
{
    match caps {
        Some(g) => match (group_chars(g, 1), group_chars(g, 2)) {
            (Some(d), Some(service)) => match parse_unsigned(&d, 65535) {
                Some(p) => Some(
                    PortmasterEntry {
                        port: p as u16,
                        service: trimmed_string(&service),
                        protocol: string_from_str("TCP"),
                        bind: string_from_str("*"),
                        managed_by: string_from_str("unknown"),
                        notes: String::new(),
                        source_file: string_from_str(path),
                    },
                ),
                None => None,
            },
            _ => None,
        },
        None => None,
    }
}

/// Parses the content of the registry file at `path`: the rows of a markdown
/// table `| Port | Service | Protocol | Bind | Managed By | Notes |`, or, when the
/// file has no such rows, its `port: service` lines.
pub fn parse_portmaster_file(path: &str, content: &str) -> (res: Result<
    Vec<PortmasterEntry>,
    ParseError,
>)
    ensures
        match res {
            Ok(v) => registry_entries(path@, content@) == Some(entry_texts(v@)),
            Err(e) => registry_entries(path@, content@) == None::<Seq<EntryText>>
                && e == ParseError::PatternRejected,
        },
{
    if !pattern_accepted(TABLE_PATTERN) {
        return Err(ParseError::PatternRejected);
    }
    let matches = match all_captures(TABLE_PATTERN, content) {
        Ok(m) => m,
        Err(_) => {
            return Err(ParseError::PatternRejected);
        },
    };
    let mut entries = entries_from_rows(path, &matches);
    if entries.len() > 0 {
        return Ok(entries);
    }
    if !pattern_accepted(SIMPLE_PATTERN) {
        return Err(ParseError::PatternRejected);
    }
    let chars = crate::text::chars_of(content);
    let ls = split_lines(&chars);
    let ghost lv = views(ls@);
    let mut i: usize = 0;
    while i < ls.len()
        invariant
            lv == views(ls@),
            lv == lines(content@),
            regex_accepts(SIMPLE_PATTERN@),
            0 <= i <= ls@.len(),
            entry_texts(entries@) == simple_entries(lv.take(i as int), path@),
        decreases ls.len() - i,
    {
        assert(lv.take(i + 1).drop_last() == lv.take(i as int));
        assert(lv.take(i + 1).last() == ls@[i as int]@);
        let line = trimmed_string(&ls[i]);
        let caps = match first_captures(SIMPLE_PATTERN, line.as_str()) {
            Ok(c) => c,
            Err(_) => None,
        };
        match simple_entry_from(path, &caps) {
            Some(e) => {
                let ghost before = entries@;
                entries.push(e);
                assert(entry_texts(entries@) == entry_texts(before).push(entry_text(e)));
            },
            None => {},
        }
        i = i + 1;
    }
    assert(lv.take(ls@.len() as int) == lv);
    Ok(entries)
}

/// The allocation range of one range match: start, end and the trimmed purpose,
/// when both bounds are valid ports.
pub open spec fn range_entry(g: Groups) -> Option<(u16, u16, Seq<char>)> {
    match (group(g, 1), group(g, 2), group(g, 3)) {
        (Some(a), Some(b), Some(purpose)) => match (parse_u16_spec(a), parse_u16_spec(b)) {
            (Some(start), Some(end)) => Some((start, end, trim(purpose))),
            _ => None,
        },
        _ => None,
    }
}

/// The allocation ranges of a sequence of range matches, in order.
pub open spec fn range_entries(ms: Seq<Groups>) -> Seq<(u16, u16, Seq<char>)>
    decreases ms.len(),
{
    if ms.len() == 0 {
        seq![]
    } else {
        match range_entry(ms.last()) {
            Some(r) => range_entries(ms.drop_last()).push(r),
            None => range_entries(ms.drop_last()),
        }
    }
}

/// The views of exec ranges.
pub open spec fn range_views(v: Seq<(u16, u16, String)>) -> Seq<(u16, u16, Seq<char>)> {
    v.map_values(|r: (u16, u16, String)| (r.0, r.1, r.2@))
}

/// The allocation ranges of the range matches `matches` (each the capture groups
/// of one match of `RANGE_PATTERN`).
pub fn ranges_from_matches(matches: &Vec<Vec<Option<(usize, String)>>>) -> (res: Vec<(u16, u16, String)>)
    ensures
        range_views(res@) == range_entries(matches.deep_view()),
{
    let ghost mv = matches.deep_view();
    let mut ranges: Vec<(u16, u16, String)> = Vec::new();
    let mut i: usize = 0;
    while i < matches.len()
        invariant
            mv == matches.deep_view(),
            0 <= i <= matches@.len(),
            range_views(ranges@) == range_entries(mv.take(i as int)),
        decreases matches.len() - i,
    {
        let g = &matches[i];
        assert(mv.take(i + 1).drop_last() == mv.take(i as int));
        assert(mv.take(i + 1).last() == g.deep_view());
        match (group_chars(g, 1), group_chars(g, 2), group_chars(g, 3)) {
            (Some(a), Some(b), Some(purpose)) => match (
                parse_unsigned(&a, 65535),
                parse_unsigned(&b, 65535),
            ) {
                (Some(start), Some(end)) => {
                    let ghost before = ranges@;
                    let text = trimmed_string(&purpose);
                    ranges.push((start as u16, end as u16, text));
                    assert(range_views(ranges@) == range_views(before).push(
                        (start as u16, end as u16, text@),
                    ));
                },
                _ => {},
            },
            _ => {},
        }
        i = i + 1;
    }
    assert(mv.take(matches@.len() as int) == mv);
    ranges
}

/// Parses the allocation ranges `start - end | purpose` of a registry. Fails
/// only when the pattern engine refuses the range pattern.
pub fn parse_allocation_ranges(content: &str) -> (res: Result<Vec<(u16, u16, String)>, ParseError>)
    ensures
        match res {
            Ok(v) => regex_accepts(RANGE_PATTERN@) && range_views(v@) == range_entries(
                regex_captures_iter(RANGE_PATTERN@, content@),
            ),
            Err(e) => !regex_accepts(RANGE_PATTERN@) && e == ParseError::PatternRejected,
        },
{
    let matches = match all_captures(RANGE_PATTERN, content) {
        Ok(m) => m,
        Err(_) => {
            return Err(ParseError::PatternRejected);
        },
    };
    Ok(ranges_from_matches(&matches))
}


/// The entries of all files, file after file.
pub open spec fn concat_all(files: Seq<Vec<PortmasterEntry>>) -> Seq<PortmasterEntry>
    decreases files.len(),
{
    if files.len() == 0 {
        seq![]
    } else {
        concat_all(files.drop_last()) + files.last()@
    }
}

/// The position of the last entry that declares `port`.
pub open spec fn last_declaring(all: Seq<PortmasterEntry>, port: u16) -> Option<int>
    decreases all.len(),
{
    if all.len() == 0 {
        None
    } else if all.last().port == port {
        Some(all.len() - 1)
    } else {
        last_declaring(all.drop_last(), port)
    }
}

/// `res` is the combined registry of `all`: one entry per declared port, the
/// last one that declares it, in increasing order of port.
pub open spec fn is_registry(res: Seq<PortmasterEntry>, all: Seq<PortmasterEntry>) -> bool {
    &&& forall|a: int, b: int|
        #![trigger res[a], res[b]]
        0 <= a < b < res.len() ==> res[a].port < res[b].port
    &&& forall|k: int|
        #![trigger res[k]]
        0 <= k < res.len() ==> (last_declaring(all, res[k].port) matches Some(i) && 0 <= i
            < all.len() && res[k] == all[i])
    &&& forall|i: int|
        #![trigger all[i]]
        0 <= i < all.len() ==> exists|k: int| 0 <= k < res.len() && res[k].port == all[i].port
}

proof fn lemma_last_declaring_range(all: Seq<PortmasterEntry>, port: u16)
    ensures
        last_declaring(all, port) matches Some(i) ==> 0 <= i < all.len() && all[i].port == port,
    decreases all.len(),
{
    if all.len() > 0 && all.last().port != port {
        lemma_last_declaring_range(all.drop_last(), port);
    }
}

proof fn lemma_last_declaring_found(all: Seq<PortmasterEntry>, i: int)
    requires
        0 <= i < all.len(),
    ensures
        last_declaring(all, all[i].port) is Some,
    decreases all.len(),
{
    if all.last().port != all[i].port {
        assert(all.drop_last()[i] == all[i]);
        lemma_last_declaring_found(all.drop_last(), i);
    }
}

/// All entries of several registry files, file after file.
pub fn concat_declarations(per_file: &[Vec<PortmasterEntry>]) -> (all: Vec<PortmasterEntry>)
    ensures
        all@ == concat_all(per_file@),
{
    let mut all: Vec<PortmasterEntry> = Vec::new();
    let mut f: usize = 0;
    while f < per_file.len()
        invariant
            0 <= f <= per_file@.len(),
            all@ == concat_all(per_file@.take(f as int)),
        decreases per_file.len() - f,
    {
        assert(per_file@.take(f + 1).drop_last() == per_file@.take(f as int));
        let file = &per_file[f];
        let ghost start = all@;
        let mut j: usize = 0;
        while j < file.len()
            invariant
                0 <= j <= file@.len(),
                all@ == start + file@.take(j as int),
            decreases file.len() - j,
        {
            all.push(file[j].copy());
            assert(file@.take(j + 1) == file@.take(j as int).push(file@[j as int]));
            j = j + 1;
        }
        assert(file@.take(file@.len() as int) == file@);
        f = f + 1;
    }
    assert(per_file@.take(per_file@.len() as int) == per_file@);
    all
}

/// Combines the entries of several registry files (in the order the files were
/// found): a later entry for a port overrides an earlier one, and the result is
/// sorted by port.
pub fn load_all_portmasters(per_file: &[Vec<PortmasterEntry>]) -> (res: Vec<PortmasterEntry>)
    ensures
        is_registry(res@, concat_all(per_file@)),
{
    broadcast use vstd::std_specs::hash::group_hash_axioms;

    let all = concat_declarations(per_file);
    let ghost whole = all@;

    // The last position of each declared port.
    let mut seen: HashMap<u16, usize> = HashMap::new();
    let mut i: usize = 0;
    while i < all.len()
        invariant
            0 <= i <= all@.len(),
            all@ == whole,
            forall|q: u16| #[trigger]
                seen@.contains_key(q) == (last_declaring(whole.take(i as int), q) is Some),
            forall|q: u16|
                #[trigger] seen@.contains_key(q) ==> last_declaring(whole.take(i as int), q) == Some(
                    seen@[q] as int,
                ),
        decreases all.len() - i,
    {
        assert(whole.take(i + 1).drop_last() == whole.take(i as int));
        assert(whole.take(i + 1).last() == whole[i as int]);
        seen.insert(all[i].port, i);
        i = i + 1;
    }
    assert(whole.take(whole.len() as int) == whole);

    // The entries that are the last for their port, in order.
    let mut kept: Vec<PortmasterEntry> = Vec::new();
    let ghost mut idx: Seq<int> = Seq::empty();
    let mut i: usize = 0;
    while i < all.len()
        invariant
            0 <= i <= all@.len(),
            all@ == whole,
            forall|q: u16| #[trigger] seen@.contains_key(q) == (last_declaring(whole, q) is Some),
            forall|q: u16|
                #[trigger] seen@.contains_key(q) ==> last_declaring(whole, q) == Some(
                    seen@[q] as int,
                ),
            kept@.len() == idx.len(),
            forall|t: int|
                0 <= t < idx.len() ==> 0 <= #[trigger] idx[t] < i && kept@[t] == whole[idx[t]]
                    && last_declaring(whole, whole[idx[t]].port) == Some(idx[t]),
            forall|a: int, b: int| 0 <= a < b < idx.len() ==> idx[a] < idx[b],
            forall|w: int|
                0 <= w < i && last_declaring(whole, #[trigger] whole[w].port) == Some(w) ==> exists|
                    t: int,
                | 0 <= t < idx.len() && idx[t] == w,
        decreases all.len() - i,
    {
        let port = all[i].port;
        proof {
            lemma_last_declaring_found(whole, i as int);
        }
        let is_last = match seen.get(&port) {
            Some(v) => *v == i,
            None => false,
        };
        assert(is_last == (last_declaring(whole, port) == Some(i as int)));
        let ghost before = idx;
        if is_last {
            kept.push(all[i].copy());
            proof {
                idx = idx.push(i as int);
            }
        }
        assert(is_last ==> idx[idx.len() - 1] == i);
        assert forall|w: int|
            0 <= w < i + 1 && last_declaring(whole, #[trigger] whole[w].port) == Some(w) implies exists|
            t: int,
        | 0 <= t < idx.len() && idx[t] == w by {
            if w == i {
                assert(idx[idx.len() - 1] == w);
            } else {
                let t = choose|t: int| 0 <= t < before.len() && before[t] == w;
                assert(idx[t] == before[t]);
            }
        }
        i = i + 1;
    }

    // Sorted by port.
    let mut keys: Vec<(u16, Vec<char>)> = Vec::new();
    let mut k: usize = 0;
    while k < kept.len()
        invariant
            0 <= k <= kept@.len(),
            keys@.len() == k,
            forall|t: int|
                0 <= t < k ==> #[trigger] key_views(keys@)[t] == (kept@[t].port, Seq::<char>::empty()),
        decreases kept.len() - k,
    {
        let ghost before = keys@;
        keys.push((kept[k].port, Vec::new()));
        assert forall|t: int| 0 <= t < k + 1 implies #[trigger] key_views(keys@)[t] == (
            kept@[t].port,
            Seq::<char>::empty(),
        ) by {
            if t < k {
                assert(keys@[t] == before[t]);
                assert(key_views(before)[t] == (kept@[t].port, Seq::<char>::empty()));
            }
        }
        k = k + 1;
    }
    let ghost kv = key_views(keys@);
    let order = stable_order(&keys);
    let mut res: Vec<PortmasterEntry> = Vec::new();
    let mut k: usize = 0;
    while k < order.len()
        invariant
            0 <= k <= order@.len(),
            is_stable_order(kv, order@),
            kv.len() == kept@.len(),
            res@.len() == k,
            forall|t: int| 0 <= t < k ==> #[trigger] res@[t] == kept@[order@[t] as int],
        decreases order.len() - k,
    {
        res.push(kept[order[k]].copy());
        k = k + 1;
    }
    proof {
        assert forall|a: int, b: int|
            #![trigger res@[a], res@[b]]
            0 <= a < b < res@.len() implies res@[a].port < res@[b].port by {
            assert(placed_before(kv, order@[a] as int, order@[b] as int));
            let x = order@[a] as int;
            let y = order@[b] as int;
            assert(kv[x] == (kept@[x].port, Seq::<char>::empty()));
            assert(kv[y] == (kept@[y].port, Seq::<char>::empty()));
            crate::sorting::lemma_lex_irreflexive(Seq::<char>::empty());
            if kept@[x].port == kept@[y].port {
                assert(kv[x] == kv[y]);
                assert(x < y);
                assert(idx[x] < idx[y]);
                assert(false);
            }
        }
        assert forall|t: int|
            #![trigger res@[t]]
            0 <= t < res@.len() implies (last_declaring(whole, res@[t].port) matches Some(w) && 0
                <= w < whole.len() && res@[t] == whole[w]) by {
            let x = order@[t] as int;
            lemma_last_declaring_range(whole, res@[t].port);
            assert(kept@[x] == whole[idx[x]]);
        }
        assert forall|w: int|
            #![trigger whole[w]]
            0 <= w < whole.len() implies exists|t: int|
                0 <= t < res@.len() && res@[t].port == whole[w].port by {
            lemma_last_declaring_found(whole, w);
            lemma_last_declaring_range(whole, whole[w].port);
            let u = last_declaring(whole, whole[w].port)->0;
            assert(whole[u].port == whole[w].port);
            assert(last_declaring(whole, whole[u].port) == Some(u));
            let t = choose|t: int| 0 <= t < idx.len() && idx[t] == u;
            assert(lists(order@, t));
            let k = choose|k: int| 0 <= k < order@.len() && order@[k] == t;
            assert(res@[k] == kept@[t]);
        }
    }
    res
}

} // verus!
