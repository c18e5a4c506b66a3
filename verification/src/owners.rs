//! Conflicts read from the registries: one port declared for two owners, and a
//! live process that is not the declared owner of its port.
use vstd::prelude::*;
use crate::model::{Conflict, PortInfo, PortmasterEntry};
use crate::number::{decimal, write_decimal};
use crate::resolver::{conflict_suggestion, suggest_port_for_conflict};
use crate::text::{append_str, same_chars, string_from_str, views};

verus! {

// ---------------------------------------------------------------------------
// Name tokens
// ---------------------------------------------------------------------------

/// Whether `c` is an ASCII letter or digit.
pub open spec fn is_token_char(c: char) -> bool {
    ('0' <= c && c <= '9') || ('a' <= c && c <= 'z') || ('A' <= c && c <= 'Z')
}

/// `c` with an ASCII capital letter made small.
pub open spec fn lower(c: char) -> char {
    if 'A' <= c && c <= 'Z' {
        (c as int + 32) as char
    } else {
        c
    }
}

/// The tokens completed so far and the token in progress after reading `s`.
pub open spec fn tokens_state(s: Seq<char>) -> (Seq<Seq<char>>, Seq<char>)
    decreases s.len(),
{
    if s.len() == 0 {
        (seq![], seq![])
    } else {
        let prev = tokens_state(s.drop_last());
        if is_token_char(s.last()) {
            (prev.0, prev.1.push(lower(s.last())))
        } else if prev.1.len() > 0 {
            (prev.0.push(prev.1), seq![])
        } else {
            prev
        }
    }
}

/// The tokens of a name: its maximal runs of ASCII letters and digits, in small
/// letters (`Docker Desktop` has `docker` and `desktop`).
pub open spec fn tokens(s: Seq<char>) -> Seq<Seq<char>> {
    let st = tokens_state(s);
    if st.1.len() == 0 {
        st.0
    } else {
        st.0.push(st.1)
    }
}

/// Whether a process name and an owner name share a token (so that
/// `com.docker.backend` is owned by `Docker Desktop`).
pub open spec fn owner_matches(process: Seq<char>, owner: Seq<char>) -> bool {
    exists|i: int, j: int|
        0 <= i < tokens(process).len() && 0 <= j < tokens(owner).len() && #[trigger] tokens(
            process,
        )[i] == #[trigger] tokens(owner)[j]
}

fn lower_char(c: char) -> (res: char)
    ensures
        res == lower(c),
{
    if 'A' <= c && c <= 'Z' {
        let v: u8 = (c as u32 + 32) as u8;
        let r = v as char;
        assert(r == (c as int + 32) as char);
        r
    } else {
        c
    }
}

/// Splits a name into its tokens.
pub fn split_tokens(s: &Vec<char>) -> (res: Vec<Vec<char>>)
    ensures
        views(res@) == tokens(s@),
{
    let mut done: Vec<Vec<char>> = Vec::new();
    let mut cur: Vec<char> = Vec::new();
    let mut i: usize = 0;
    while i < s.len()
        invariant
            0 <= i <= s@.len(),
            views(done@) == tokens_state(s@.take(i as int)).0,
            cur@ == tokens_state(s@.take(i as int)).1,
        decreases s.len() - i,
    {
        let c = s[i];
        assert(s@.take(i + 1).drop_last() == s@.take(i as int));
        if ('0' <= c && c <= '9') || ('a' <= c && c <= 'z') || ('A' <= c && c <= 'Z') {
            cur.push(lower_char(c));
        } else if cur.len() > 0 {
            let ghost before = done@;
            done.push(cur);
            assert(views(done@) == views(before).push(done@.last()@));
            cur = Vec::new();
        }
        i = i + 1;
    }
    assert(s@.take(s@.len() as int) == s@);
    if cur.len() > 0 {
        let ghost before = done@;
        done.push(cur);
        assert(views(done@) == views(before).push(done@.last()@));
    }
    done
}

/// Whether a process name and an owner name share a token.
pub fn owner_named(process: &str, owner: &str) -> (res: bool)
    ensures
        res == owner_matches(process@, owner@),
{
    let a = split_tokens(&crate::text::chars_of(process));
    let b = split_tokens(&crate::text::chars_of(owner));
    let mut i: usize = 0;
    while i < a.len()
        invariant
            views(a@) == tokens(process@),
            views(b@) == tokens(owner@),
            0 <= i <= a@.len(),
            forall|x: int, y: int|
                0 <= x < i && 0 <= y < b@.len() ==> tokens(process@)[x] != tokens(owner@)[y],
        decreases a.len() - i,
    {
        let mut j: usize = 0;
        while j < b.len()
            invariant
                views(a@) == tokens(process@),
                views(b@) == tokens(owner@),
                0 <= i < a@.len(),
                0 <= j <= b@.len(),
                forall|x: int, y: int|
                    0 <= x < i && 0 <= y < b@.len() ==> tokens(process@)[x] != tokens(owner@)[y],
                forall|y: int| 0 <= y < j ==> tokens(process@)[i as int] != tokens(owner@)[y],
            decreases b.len() - j,
        {
            assert(views(a@)[i as int] == a@[i as int]@);
            assert(views(b@)[j as int] == b@[j as int]@);
            if same_chars(&a[i], &b[j]) {
                assert(tokens(process@)[i as int] == tokens(owner@)[j as int]);
                return true;
            }
            j = j + 1;
        }
        i = i + 1;
    }
    false
}

// ---------------------------------------------------------------------------
// The two kinds of registry conflict
// ---------------------------------------------------------------------------

/// Two entries of one registry file clash when they declare one port for
/// different owners. (An entry of a later file overrides one of an earlier
/// file instead.)
pub open spec fn clashes_declared(a: PortmasterEntry, b: PortmasterEntry) -> bool {
    a.port == b.port && a.source_file@ == b.source_file@ && a.managed_by@ != b.managed_by@
}

/// A live socket clashes with a registry entry for its port when its process
/// has a name and the name shares no token with the declared owner.
pub open spec fn clashes_owner(e: PortmasterEntry, lp: PortInfo) -> bool {
    e.port == lp.port && tokens(lp.process_name@).len() > 0 && !owner_matches(
        lp.process_name@,
        e.managed_by@,
    )
}

/// The pairs `(a, b)` with `a < b < j` of clashing registry entries.
pub open spec fn declared_pair_row(pm: Seq<PortmasterEntry>, a: int, j: int) -> Seq<(int, int)>
    decreases j - a,
{
    if j <= a + 1 {
        seq![]
    } else if clashes_declared(pm[a], pm[j - 1]) {
        declared_pair_row(pm, a, j - 1).push((a, j - 1))
    } else {
        declared_pair_row(pm, a, j - 1)
    }
}

/// The clashing pairs `(a, b)` of registry entries with `a < b` and `a < i`.
pub open spec fn declared_pairs(pm: Seq<PortmasterEntry>, i: int) -> Seq<(int, int)>
    decreases i,
{
    if i <= 0 {
        seq![]
    } else {
        declared_pairs(pm, i - 1) + declared_pair_row(pm, i - 1, pm.len() as int)
    }
}

/// The pairs `(a, b)` with `b < j` of registry entry `a` and a live socket `b`
/// whose process is not the declared owner.
pub open spec fn owner_row(pm: Seq<PortmasterEntry>, live: Seq<PortInfo>, a: int, j: int) -> Seq<
    (int, int),
>
    decreases j,
{
    if j <= 0 {
        seq![]
    } else if clashes_owner(pm[a], live[j - 1]) {
        owner_row(pm, live, a, j - 1).push((a, j - 1))
    } else {
        owner_row(pm, live, a, j - 1)
    }
}

/// The pairs `(a, b)` with `a < i` of registry entry `a` and a live socket `b`
/// whose process is not the declared owner.
pub open spec fn owner_pairs(pm: Seq<PortmasterEntry>, live: Seq<PortInfo>, i: int) -> Seq<(int, int)>
    decreases i,
{
    if i <= 0 {
        seq![]
    } else {
        owner_pairs(pm, live, i - 1) + owner_row(pm, live, i - 1, live.len() as int)
    }
}

/// The report for one port declared for two owners.
pub open spec fn is_declared_pair_conflict(
    c: Conflict,
    a: PortmasterEntry,
    b: PortmasterEntry,
    live: Seq<PortInfo>,
) -> bool {
    &&& c.port == a.port
    &&& c.bind_a == a.bind
    &&& c.bind_b == b.bind
    &&& c.process_a == a.managed_by
    &&& c.process_b == b.managed_by
    &&& c.pid_a == None::<u32>
    &&& c.pid_b == None::<u32>
    &&& c.suggestion == conflict_suggestion(a.port, live)
    &&& c.explanation@ == "Port "@ + decimal(a.port as nat) + " is declared for both '"@
        + a.managed_by@ + "' and '"@ + b.managed_by@ + "'"@
}

/// The report for a live process that is not the declared owner of its port.
pub open spec fn is_owner_conflict(c: Conflict, e: PortmasterEntry, lp: PortInfo, live: Seq<PortInfo>) -> bool {
    &&& c.port == e.port
    &&& c.bind_a == lp.bind_address
    &&& c.bind_b == e.bind
    &&& c.process_a == lp.process_name
    &&& c.process_b == e.managed_by
    &&& c.pid_a == lp.pid
    &&& c.pid_b == None::<u32>
    &&& c.suggestion == conflict_suggestion(e.port, live)
    &&& c.explanation@ == "'"@ + lp.process_name@ + "' is listening on port "@ + decimal(
        e.port as nat,
    ) + ", which PORTMASTER.md assigns to '"@ + e.managed_by@ + "'"@
}

fn declared_pair_conflict(a: &PortmasterEntry, b: &PortmasterEntry, live: &[PortInfo]) -> (c: Conflict)
    ensures
        is_declared_pair_conflict(c, *a, *b, live@),
{
    let mut explanation = string_from_str("Port ");
    write_decimal(a.port as u64, &mut explanation);
    append_str(&mut explanation, " is declared for both '");
    append_str(&mut explanation, a.managed_by.as_str());
    append_str(&mut explanation, "' and '");
    append_str(&mut explanation, b.managed_by.as_str());
    append_str(&mut explanation, "'");
    Conflict {
        port: a.port,
        bind_a: a.bind.clone(),
        bind_b: b.bind.clone(),
        process_a: a.managed_by.clone(),
        process_b: b.managed_by.clone(),
        pid_a: None,
        pid_b: None,
        suggestion: suggest_port_for_conflict(a.port, &[], live),
        explanation,
    }
}

fn owner_conflict(e: &PortmasterEntry, lp: &PortInfo, live: &[PortInfo]) -> (c: Conflict)
    ensures
        is_owner_conflict(c, *e, *lp, live@),
{
    let mut explanation = string_from_str("'");
    append_str(&mut explanation, lp.process_name.as_str());
    append_str(&mut explanation, "' is listening on port ");
    write_decimal(e.port as u64, &mut explanation);
    append_str(&mut explanation, ", which PORTMASTER.md assigns to '");
    append_str(&mut explanation, e.managed_by.as_str());
    append_str(&mut explanation, "'");
    Conflict {
        port: e.port,
        bind_a: lp.bind_address.clone(),
        bind_b: e.bind.clone(),
        process_a: lp.process_name.clone(),
        process_b: e.managed_by.clone(),
        pid_a: lp.pid,
        pid_b: None,
        suggestion: suggest_port_for_conflict(e.port, &[], live),
        explanation,
    }
}

/// Whether a live socket clashes with a registry entry for its port.
pub fn owner_clash(e: &PortmasterEntry, lp: &PortInfo) -> (res: bool)
    ensures
        res == clashes_owner(*e, *lp),
{
    if e.port != lp.port {
        return false;
    }
    let t = split_tokens(&crate::text::chars_of(lp.process_name.as_str()));
    if t.len() == 0 {
        return false;
    }
    !owner_named(lp.process_name.as_str(), e.managed_by.as_str())
}

/// The reports for ports declared for two owners in one registry file.
pub fn declared_conflicts(pm: &[PortmasterEntry], live: &[PortInfo]) -> (res: Vec<Conflict>)
    ensures
        res@.len() == declared_pairs(pm@, pm@.len() as int).len(),
        forall|k: int|
            #![trigger declared_pairs(pm@, pm@.len() as int)[k]]
            0 <= k < res@.len() ==> is_declared_pair_conflict(
                res@[k],
                pm@[declared_pairs(pm@, pm@.len() as int)[k].0],
                pm@[declared_pairs(pm@, pm@.len() as int)[k].1],
                live@,
            ),
{
    let mut res: Vec<Conflict> = Vec::new();
    let n = pm.len();
    let mut i: usize = 0;
    while i < n
        invariant
            n == pm@.len(),
            0 <= i <= n,
            res@.len() == declared_pairs(pm@, i as int).len(),
            forall|k: int|
                #![trigger declared_pairs(pm@, i as int)[k]]
                0 <= k < res@.len() ==> is_declared_pair_conflict(
                    res@[k],
                    pm@[declared_pairs(pm@, i as int)[k].0],
                    pm@[declared_pairs(pm@, i as int)[k].1],
                    live@,
                ),
        decreases n - i,
    {
        let mut j: usize = i + 1;
        let ghost base = declared_pairs(pm@, i as int);
        while j < n
            invariant
                n == pm@.len(),
                0 <= i < n,
                i + 1 <= j <= n,
                base == declared_pairs(pm@, i as int),
                res@.len() == base.len() + declared_pair_row(pm@, i as int, j as int).len(),
                forall|k: int|
                    #![trigger (base + declared_pair_row(pm@, i as int, j as int))[k]]
                    0 <= k < res@.len() ==> is_declared_pair_conflict(
                        res@[k],
                        pm@[(base + declared_pair_row(pm@, i as int, j as int))[k].0],
                        pm@[(base + declared_pair_row(pm@, i as int, j as int))[k].1],
                        live@,
                    ),
            decreases n - j,
        {
            let ghost before = res@;
            let ghost row = declared_pair_row(pm@, i as int, j as int);
            if pm[i].port == pm[j].port && same_chars(
                &crate::text::chars_of(pm[i].source_file.as_str()),
                &crate::text::chars_of(pm[j].source_file.as_str()),
            ) && !same_chars(
                &crate::text::chars_of(pm[i].managed_by.as_str()),
                &crate::text::chars_of(pm[j].managed_by.as_str()),
            ) {
                let c = declared_pair_conflict(&pm[i], &pm[j], live);
                res.push(c);
                assert(declared_pair_row(pm@, i as int, j + 1) == row.push((i as int, j as int)));
                assert forall|k: int|
                    #![trigger (base + declared_pair_row(pm@, i as int, j + 1))[k]]
                    0 <= k < res@.len() implies is_declared_pair_conflict(
                    res@[k],
                    pm@[(base + declared_pair_row(pm@, i as int, j + 1))[k].0],
                    pm@[(base + declared_pair_row(pm@, i as int, j + 1))[k].1],
                    live@,
                ) by {
                    assert((base + row.push((i as int, j as int))) == (base + row).push(
                        (i as int, j as int),
                    ));
                    if k < before.len() {
                        assert(res@[k] == before[k]);
                        assert((base + row)[k] == (base + declared_pair_row(pm@, i as int, j + 1))[k]);
                    }
                }
            } else {
                assert(declared_pair_row(pm@, i as int, j + 1) == row);
            }
            j = j + 1;
        }
        assert(declared_pairs(pm@, i + 1) == base + declared_pair_row(pm@, i as int, n as int));
        i = i + 1;
    }
    res
}

/// The reports for live processes that are not the declared owners of their ports.
pub fn owner_conflicts(pm: &[PortmasterEntry], live: &[PortInfo]) -> (res: Vec<Conflict>)
    ensures
        res@.len() == owner_pairs(pm@, live@, pm@.len() as int).len(),
        forall|k: int|
            #![trigger owner_pairs(pm@, live@, pm@.len() as int)[k]]
            0 <= k < res@.len() ==> is_owner_conflict(
                res@[k],
                pm@[owner_pairs(pm@, live@, pm@.len() as int)[k].0],
                live@[owner_pairs(pm@, live@, pm@.len() as int)[k].1],
                live@,
            ),
{
    let mut res: Vec<Conflict> = Vec::new();
    let m = pm.len();
    let n = live.len();
    let mut i: usize = 0;
    while i < m
        invariant
            m == pm@.len(),
            n == live@.len(),
            0 <= i <= m,
            res@.len() == owner_pairs(pm@, live@, i as int).len(),
            forall|k: int|
                #![trigger owner_pairs(pm@, live@, i as int)[k]]
                0 <= k < res@.len() ==> is_owner_conflict(
                    res@[k],
                    pm@[owner_pairs(pm@, live@, i as int)[k].0],
                    live@[owner_pairs(pm@, live@, i as int)[k].1],
                    live@,
                ),
        decreases m - i,
    {
        let mut j: usize = 0;
        let ghost base = owner_pairs(pm@, live@, i as int);
        while j < n
            invariant
                m == pm@.len(),
                n == live@.len(),
                0 <= i < m,
                0 <= j <= n,
                base == owner_pairs(pm@, live@, i as int),
                res@.len() == base.len() + owner_row(pm@, live@, i as int, j as int).len(),
                forall|k: int|
                    #![trigger (base + owner_row(pm@, live@, i as int, j as int))[k]]
                    0 <= k < res@.len() ==> is_owner_conflict(
                        res@[k],
                        pm@[(base + owner_row(pm@, live@, i as int, j as int))[k].0],
                        live@[(base + owner_row(pm@, live@, i as int, j as int))[k].1],
                        live@,
                    ),
            decreases n - j,
        {
            let ghost before = res@;
            let ghost row = owner_row(pm@, live@, i as int, j as int);
            if owner_clash(&pm[i], &live[j]) {
                let c = owner_conflict(&pm[i], &live[j], live);
                res.push(c);
                assert(owner_row(pm@, live@, i as int, j + 1) == row.push((i as int, j as int)));
                assert forall|k: int|
                    #![trigger (base + owner_row(pm@, live@, i as int, j + 1))[k]]
                    0 <= k < res@.len() implies is_owner_conflict(
                    res@[k],
                    pm@[(base + owner_row(pm@, live@, i as int, j + 1))[k].0],
                    live@[(base + owner_row(pm@, live@, i as int, j + 1))[k].1],
                    live@,
                ) by {
                    assert((base + row.push((i as int, j as int))) == (base + row).push(
                        (i as int, j as int),
                    ));
                    if k < before.len() {
                        assert(res@[k] == before[k]);
                        assert((base + row)[k] == (base + owner_row(pm@, live@, i as int, j + 1))[k]);
                    }
                }
            } else {
                assert(owner_row(pm@, live@, i as int, j + 1) == row);
            }
            j = j + 1;
        }
        assert(owner_pairs(pm@, live@, i + 1) == base + owner_row(pm@, live@, i as int, n as int));
        i = i + 1;
    }
    res
}

// ---------------------------------------------------------------------------
// Lemmas
// ---------------------------------------------------------------------------

pub(crate) proof fn lemma_declared_pair_row(pm: Seq<PortmasterEntry>, a: int, j: int)
    requires
        0 <= a,
        j <= pm.len(),
    ensures
        forall|k: int|
            0 <= k < declared_pair_row(pm, a, j).len() ==> {
                let q = #[trigger] declared_pair_row(pm, a, j)[k];
                q.0 == a && a < q.1 < j && clashes_declared(pm[q.0], pm[q.1])
            },
    decreases j - a,
{
    if j > a + 1 {
        lemma_declared_pair_row(pm, a, j - 1);
        let prev = declared_pair_row(pm, a, j - 1);
        if clashes_declared(pm[a], pm[j - 1]) {
            assert forall|k: int| 0 <= k < prev.len() + 1 implies {
                let q = #[trigger] declared_pair_row(pm, a, j)[k];
                q.0 == a && a < q.1 < j && clashes_declared(pm[q.0], pm[q.1])
            } by {
                if k < prev.len() {
                    assert(declared_pair_row(pm, a, j)[k] == prev[k]);
                }
            }
        }
    }
}

pub(crate) proof fn lemma_declared_pairs(pm: Seq<PortmasterEntry>, i: int)
    requires
        0 <= i <= pm.len(),
    ensures
        forall|k: int|
            0 <= k < declared_pairs(pm, i).len() ==> {
                let q = #[trigger] declared_pairs(pm, i)[k];
                0 <= q.0 < q.1 < pm.len() && clashes_declared(pm[q.0], pm[q.1])
            },
    decreases i,
{
    if i > 0 {
        lemma_declared_pairs(pm, i - 1);
        lemma_declared_pair_row(pm, i - 1, pm.len() as int);
        let a = declared_pairs(pm, i - 1);
        let b = declared_pair_row(pm, i - 1, pm.len() as int);
        assert forall|k: int| 0 <= k < declared_pairs(pm, i).len() implies {
            let q = #[trigger] declared_pairs(pm, i)[k];
            0 <= q.0 < q.1 < pm.len() && clashes_declared(pm[q.0], pm[q.1])
        } by {
            if k < a.len() {
                assert(declared_pairs(pm, i)[k] == a[k]);
            } else {
                assert(declared_pairs(pm, i)[k] == b[k - a.len()]);
            }
        }
    }
}

pub(crate) proof fn lemma_declared_pair_row_has(pm: Seq<PortmasterEntry>, a: int, j: int, b: int)
    requires
        0 <= a < b < j <= pm.len(),
        clashes_declared(pm[a], pm[b]),
    ensures
        exists|k: int|
            0 <= k < declared_pair_row(pm, a, j).len() && #[trigger] declared_pair_row(
                pm,
                a,
                j,
            )[k] == (a, b),
    decreases j - a,
{
    let row = declared_pair_row(pm, a, j);
    let prev = declared_pair_row(pm, a, j - 1);
    if b == j - 1 {
        assert(row == prev.push((a, b)));
        assert(row[prev.len() as int] == (a, b));
    } else {
        lemma_declared_pair_row_has(pm, a, j - 1, b);
        let k = choose|k: int| 0 <= k < prev.len() && #[trigger] prev[k] == (a, b);
        if clashes_declared(pm[a], pm[j - 1]) {
            assert(row == prev.push((a, j - 1)));
        }
        assert(row[k] == (a, b));
    }
}

pub(crate) proof fn lemma_declared_pairs_has(pm: Seq<PortmasterEntry>, i: int, a: int, b: int)
    requires
        0 <= a < i <= pm.len(),
        a < b < pm.len(),
        clashes_declared(pm[a], pm[b]),
    ensures
        exists|k: int|
            0 <= k < declared_pairs(pm, i).len() && #[trigger] declared_pairs(pm, i)[k] == (a, b),
    decreases i,
{
    let before = declared_pairs(pm, i - 1);
    let row = declared_pair_row(pm, i - 1, pm.len() as int);
    assert(declared_pairs(pm, i) == before + row);
    if a == i - 1 {
        lemma_declared_pair_row_has(pm, a, pm.len() as int, b);
        let k = choose|k: int| 0 <= k < row.len() && #[trigger] row[k] == (a, b);
        assert(declared_pairs(pm, i)[before.len() + k] == (a, b));
    } else {
        lemma_declared_pairs_has(pm, i - 1, a, b);
        let k = choose|k: int| 0 <= k < before.len() && #[trigger] before[k] == (a, b);
        assert(declared_pairs(pm, i)[k] == (a, b));
    }
}

pub(crate) proof fn lemma_owner_row(pm: Seq<PortmasterEntry>, live: Seq<PortInfo>, a: int, j: int)
    requires
        0 <= a < pm.len(),
        j <= live.len(),
    ensures
        forall|k: int|
            0 <= k < owner_row(pm, live, a, j).len() ==> {
                let q = #[trigger] owner_row(pm, live, a, j)[k];
                q.0 == a && 0 <= q.1 < j && clashes_owner(pm[q.0], live[q.1])
            },
    decreases j,
{
    if j > 0 {
        lemma_owner_row(pm, live, a, j - 1);
        let prev = owner_row(pm, live, a, j - 1);
        if clashes_owner(pm[a], live[j - 1]) {
            assert forall|k: int| 0 <= k < prev.len() + 1 implies {
                let q = #[trigger] owner_row(pm, live, a, j)[k];
                q.0 == a && 0 <= q.1 < j && clashes_owner(pm[q.0], live[q.1])
            } by {
                if k < prev.len() {
                    assert(owner_row(pm, live, a, j)[k] == prev[k]);
                }
            }
        }
    }
}

pub(crate) proof fn lemma_owner_pairs(pm: Seq<PortmasterEntry>, live: Seq<PortInfo>, i: int)
    requires
        0 <= i <= pm.len(),
    ensures
        forall|k: int|
            0 <= k < owner_pairs(pm, live, i).len() ==> {
                let q = #[trigger] owner_pairs(pm, live, i)[k];
                0 <= q.0 < pm.len() && 0 <= q.1 < live.len() && clashes_owner(
                    pm[q.0],
                    live[q.1],
                )
            },
    decreases i,
{
    if i > 0 {
        lemma_owner_pairs(pm, live, i - 1);
        lemma_owner_row(pm, live, i - 1, live.len() as int);
        let a = owner_pairs(pm, live, i - 1);
        let b = owner_row(pm, live, i - 1, live.len() as int);
        assert forall|k: int| 0 <= k < owner_pairs(pm, live, i).len() implies {
            let q = #[trigger] owner_pairs(pm, live, i)[k];
            0 <= q.0 < pm.len() && 0 <= q.1 < live.len() && clashes_owner(
                pm[q.0],
                live[q.1],
            )
        } by {
            if k < a.len() {
                assert(owner_pairs(pm, live, i)[k] == a[k]);
            } else {
                assert(owner_pairs(pm, live, i)[k] == b[k - a.len()]);
            }
        }
    }
}

pub(crate) proof fn lemma_owner_row_has(pm: Seq<PortmasterEntry>, live: Seq<PortInfo>, a: int, j: int, b: int)
    requires
        0 <= a < pm.len(),
        0 <= b < j <= live.len(),
        clashes_owner(pm[a], live[b]),
    ensures
        exists|k: int|
            0 <= k < owner_row(pm, live, a, j).len() && #[trigger] owner_row(
                pm,
                live,
                a,
                j,
            )[k] == (a, b),
    decreases j,
{
    let row = owner_row(pm, live, a, j);
    let prev = owner_row(pm, live, a, j - 1);
    if b == j - 1 {
        assert(row == prev.push((a, b)));
        assert(row[prev.len() as int] == (a, b));
    } else {
        lemma_owner_row_has(pm, live, a, j - 1, b);
        let k = choose|k: int| 0 <= k < prev.len() && #[trigger] prev[k] == (a, b);
        if clashes_owner(pm[a], live[j - 1]) {
            assert(row == prev.push((a, j - 1)));
        }
        assert(row[k] == (a, b));
    }
}

pub(crate) proof fn lemma_owner_pairs_has(
    pm: Seq<PortmasterEntry>,
    live: Seq<PortInfo>,
    i: int,
    a: int,
    b: int,
)
    requires
        0 <= a < i <= pm.len(),
        0 <= b < live.len(),
        clashes_owner(pm[a], live[b]),
    ensures
        exists|k: int|
            0 <= k < owner_pairs(pm, live, i).len() && #[trigger] owner_pairs(
                pm,
                live,
                i,
            )[k] == (a, b),
    decreases i,
{
    let before = owner_pairs(pm, live, i - 1);
    let row = owner_row(pm, live, i - 1, live.len() as int);
    assert(owner_pairs(pm, live, i) == before + row);
    if a == i - 1 {
        lemma_owner_row_has(pm, live, a, live.len() as int, b);
        let k = choose|k: int| 0 <= k < row.len() && #[trigger] row[k] == (a, b);
        assert(owner_pairs(pm, live, i)[before.len() + k] == (a, b));
    } else {
        lemma_owner_pairs_has(pm, live, i - 1, a, b);
        let k = choose|k: int| 0 <= k < before.len() && #[trigger] before[k] == (a, b);
        assert(owner_pairs(pm, live, i)[k] == (a, b));
    }
}

} // verus!
