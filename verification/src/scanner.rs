//! Parsing of socket listings (`lsof -F pcRn`, `ss -tlnp`, `netstat -ano`) and of
//! `docker ps` port mappings, and the single-port check.
use vstd::prelude::*;
use crate::model::{PortCheckResult, PortInfo, PortSource};
use crate::resolver::{find_free, first_free, live_has, suggestion_is_first_free};
use crate::number::{parse_u16_spec, parse_u32_spec, parse_unsigned};
use crate::model::ParseError;
use crate::pattern::{first_captures, group, group_chars, pattern_accepted, regex_accepts, regex_captures, Groups};
use crate::sorting::{is_stable_order, is_stable_sort_of, key_lt, key_views, lemma_key_order, lex_lt, placed_before, stable_order, SortKey};
use crate::text::{
    find_chars, find_from, last_index_of, lines, split_any, split_chars, split_on, trim, trimmed, split_at_any, split_words, words, rfind_char, same_chars, slice_chars, split_lines, string_from,
    string_from_str, trim_chars, trim_end_char, trim_start_char, views,
};

verus! {

/// A listening socket as the parsers see it: port, bind address, process id and
/// process name.
pub type RawSocket = (u16, Seq<char>, Option<u32>, Seq<char>);

/// The bind address recorded for an `lsof` address: `*` and the empty address
/// mean every interface.
pub open spec fn lsof_bind(addr: Seq<char>) -> Seq<char> {
    if addr == "*"@ || addr.len() == 0 {
        "0.0.0.0"@
    } else {
        addr
    }
}

/// The sockets that a process record contributes: its pending `(address, port)`
/// entries whose port text is a valid port number.
pub open spec fn flush_entries(
    entries: Seq<(Seq<char>, Seq<char>)>,
    pid: Option<u32>,
    cmd: Seq<char>,
) -> Seq<RawSocket>
    decreases entries.len(),
{
    if entries.len() == 0 {
        seq![]
    } else {
        let prev = flush_entries(entries.drop_last(), pid, cmd);
        let e = entries.last();
        match parse_u16_spec(e.1) {
            Some(port) => prev.push((port, lsof_bind(e.0), pid, cmd)),
            None => prev,
        }
    }
}

/// The state of the `lsof` reader: sockets found, current process id, current
/// command and the current process's pending `(address, port)` entries.
pub type LsofState = (Seq<RawSocket>, Option<u32>, Seq<char>, Seq<(Seq<char>, Seq<char>)>);

/// The `(address, port)` entry of an `n` field: the text before the last `:`
/// without surrounding brackets, and the text after it.
pub open spec fn name_field_entry(rest: Seq<char>) -> Option<(Seq<char>, Seq<char>)> {
    match last_index_of(rest, ':') {
        Some(pos) => Some(
            (trim_end_char(trim_start_char(rest.take(pos), '['), ']'), rest.skip(pos + 1)),
        ),
        None => None,
    }
}

/// One line of `lsof -F` output: `p` starts a process record (flushing the
/// previous one), `c` names its command, `n` adds an address entry.
pub open spec fn lsof_step(st: LsofState, line: Seq<char>) -> LsofState {
    if line.len() == 0 {
        st
    } else if line[0] == 'p' {
        (
            st.0 + flush_entries(st.3, st.1, st.2),
            parse_u32_spec(line.drop_first()),
            Seq::empty(),
            Seq::empty(),
        )
    } else if line[0] == 'c' {
        (st.0, st.1, line.drop_first(), st.3)
    } else if line[0] == 'n' {
        match name_field_entry(line.drop_first()) {
            Some(e) => (st.0, st.1, st.2, st.3.push(e)),
            None => st,
        }
    } else {
        st
    }
}

/// The reader's state after the given lines.
pub open spec fn lsof_fold(ls: Seq<Seq<char>>) -> LsofState
    decreases ls.len(),
{
    if ls.len() == 0 {
        (Seq::empty(), None, Seq::empty(), Seq::empty())
    } else {
        lsof_step(lsof_fold(ls.drop_last()), ls.last())
    }
}

/// The sockets of an `lsof -F` listing, in the order of the listing.
pub open spec fn lsof_sockets(output: Seq<char>) -> Seq<RawSocket> {
    let st = lsof_fold(lines(output));
    st.0 + flush_entries(st.3, st.1, st.2)
}

/// The sort keys of sockets: port, then bind address.
pub open spec fn socket_keys(s: Seq<RawSocket>) -> Seq<SortKey> {
    s.map_values(|r: RawSocket| (r.0, r.1))
}

/// Two sockets are duplicates when port, address and process id agree.
pub open spec fn same_socket(a: RawSocket, b: RawSocket) -> bool {
    a.0 == b.0 && a.1 == b.1 && a.2 == b.2
}

/// `Vec::dedup_by`: each socket that duplicates the last one kept is dropped.
pub open spec fn dedup_sockets(s: Seq<RawSocket>) -> Seq<RawSocket>
    decreases s.len(),
{
    if s.len() == 0 {
        s
    } else {
        let d = dedup_sockets(s.drop_last());
        if d.len() > 0 && same_socket(d.last(), s.last()) {
            d
        } else {
            d.push(s.last())
        }
    }
}

/// A live TCP socket record for a parsed socket.
pub open spec fn shows_socket(out: PortInfo, r: RawSocket) -> bool {
    &&& out.port == r.0
    &&& out.protocol@ == "TCP"@
    &&& out.bind_address@ == r.1
    &&& out.pid == r.2
    &&& out.process_name@ == r.3
    &&& out.service_name == None::<String>
    &&& out.managed_by == None::<String>
    &&& out.project == None::<String>
    &&& out.source == PortSource::Live
}

/// `res` lists the sockets `raw` sorted by port and address (stably) with
/// consecutive duplicates removed.
pub open spec fn is_socket_listing(res: Seq<PortInfo>, raw: Seq<RawSocket>) -> bool {
    exists|sorted: Seq<RawSocket>|
        #![trigger is_stable_sort_of(sorted, raw, socket_keys(raw))]
        {
            &&& is_stable_sort_of(sorted, raw, socket_keys(raw))
            &&& res.len() == dedup_sockets(sorted).len()
            &&& forall|k: int|
                0 <= k < res.len() ==> shows_socket(#[trigger] res[k], dedup_sockets(sorted)[k])
        }
}

/// Exec form of a parsed socket.
pub type SocketRow = (u16, Vec<char>, Option<u32>, Vec<char>);

/// The view of exec sockets.
pub open spec fn socket_views(s: Seq<SocketRow>) -> Seq<RawSocket> {
    s.map_values(|r: SocketRow| (r.0, r.1@, r.2, r.3@))
}

/// The view of exec address entries.
pub open spec fn entry_views(s: Seq<(Vec<char>, Vec<char>)>) -> Seq<(Seq<char>, Seq<char>)> {
    s.map_values(|e: (Vec<char>, Vec<char>)| (e.0@, e.1@))
}

fn copy_row(r: &SocketRow) -> (res: SocketRow)
    ensures
        res.0 == r.0 && res.1@ == r.1@ && res.2 == r.2 && res.3@ == r.3@,
{
    (r.0, r.1.clone(), r.2, r.3.clone())
}

/// Appends the sockets of a process record to `rows`.
fn flush_into(
    rows: &mut Vec<SocketRow>,
    entries: &Vec<(Vec<char>, Vec<char>)>,
    pid: Option<u32>,
    cmd: &Vec<char>,
)
    ensures
        socket_views(final(rows)@) == socket_views(old(rows)@) + flush_entries(
            entry_views(entries@),
            pid,
            cmd@,
        ),
{
    let ghost start = socket_views(rows@);
    let mut i: usize = 0;
    while i < entries.len()
        invariant
            0 <= i <= entries@.len(),
            socket_views(rows@) == start + flush_entries(
                entry_views(entries@).take(i as int),
                pid,
                cmd@,
            ),
        decreases entries.len() - i,
    {
        assert(entry_views(entries@).take(i + 1).drop_last() == entry_views(entries@).take(
            i as int,
        ));
        let addr = &entries[i].0;
        let port_text = &entries[i].1;
        match parse_unsigned(port_text, 65535) {
            Some(port) => {
                let star = vec!['*'];
                let bind = if same_chars(addr, &star) || addr.len() == 0 {
                    vec!['0', '.', '0', '.', '0', '.', '0']
                } else {
                    addr.clone()
                };
                proof {
                    reveal_strlit("*");
                    reveal_strlit("0.0.0.0");
                    assert(star@ == "*"@);
                    assert(seq!['0', '.', '0', '.', '0', '.', '0'] == "0.0.0.0"@);
                }
                let ghost before = rows@;
                rows.push((port as u16, bind, pid, cmd.clone()));
                assert(socket_views(rows@) == socket_views(before).push(
                    (port as u16, bind@, pid, cmd@),
                ));
            },
            None => {},
        }
        i = i + 1;
    }
    assert(entry_views(entries@).take(entries@.len() as int) == entry_views(entries@));
}


fn socket_info(r: &SocketRow) -> (out: PortInfo)
    ensures
        shows_socket(out, (r.0, r.1@, r.2, r.3@)),
{
    PortInfo {
        port: r.0,
        protocol: string_from_str("TCP"),
        bind_address: string_from(&r.1),
        pid: r.2,
        process_name: string_from(&r.3),
        service_name: None,
        managed_by: None,
        project: None,
        source: PortSource::Live,
    }
}

/// Sorts sockets by port and address, drops consecutive duplicates, and makes
/// live socket records of them.
pub fn finish_sockets(rows: &Vec<SocketRow>) -> (res: Vec<PortInfo>)
    ensures
        is_socket_listing(res@, socket_views(rows@)),
{
    let ghost raw = socket_views(rows@);
    let mut keys: Vec<(u16, Vec<char>)> = Vec::new();
    let mut k: usize = 0;
    while k < rows.len()
        invariant
            raw == socket_views(rows@),
            0 <= k <= rows@.len(),
            keys@.len() == k,
            forall|t: int| 0 <= t < k ==> #[trigger] key_views(keys@)[t] == socket_keys(raw)[t],
        decreases rows.len() - k,
    {
        let b = rows[k].1.clone();
        assert(b@ =~= rows@[k as int].1@);
        let ghost before = keys@;
        keys.push((rows[k].0, b));
        assert(forall|t: int| 0 <= t < k ==> keys@[t] == before[t]);
        assert(key_views(keys@)[k as int] == socket_keys(raw)[k as int]);
        assert forall|t: int| 0 <= t < k + 1 implies #[trigger] key_views(keys@)[t] == socket_keys(
            raw,
        )[t] by {
            if t < k {
                assert(key_views(before)[t] == socket_keys(raw)[t]);
            }
        }
        k = k + 1;
    }
    assert(key_views(keys@) =~= socket_keys(raw));
    let p = stable_order(&keys);
    let ghost sorted = Seq::new(rows@.len(), |t: int| raw[p@[t] as int]);
    assert(is_stable_sort_of(sorted, raw, socket_keys(raw)));
    let mut kept: Vec<SocketRow> = Vec::new();
    let mut k: usize = 0;
    while k < p.len()
        invariant
            raw == socket_views(rows@),
            is_stable_order(socket_keys(raw), p@),
            sorted == Seq::new(rows@.len(), |t: int| raw[p@[t] as int]),
            p@.len() == rows@.len(),
            0 <= k <= p@.len(),
            socket_views(kept@) == dedup_sockets(sorted.take(k as int)),
        decreases p.len() - k,
    {
        let r = &rows[p[k]];
        assert(sorted.take(k + 1).drop_last() == sorted.take(k as int));
        assert(sorted[k as int] == (r.0, r.1@, r.2, r.3@));
        let n = kept.len();
        let dup = n > 0 && kept[n - 1].0 == r.0 && same_chars(&kept[n - 1].1, &r.1)
            && kept[n - 1].2 == r.2;
        if !dup {
            let ghost before = kept@;
            kept.push(copy_row(r));
            assert(socket_views(kept@) == socket_views(before).push(
                (r.0, r.1@, r.2, r.3@),
            ));
        }
        k = k + 1;
    }
    assert(sorted.take(p@.len() as int) == sorted);
    let mut res: Vec<PortInfo> = Vec::new();
    let mut k: usize = 0;
    while k < kept.len()
        invariant
            0 <= k <= kept@.len(),
            res@.len() == k,
            forall|t: int|
                0 <= t < k ==> shows_socket(#[trigger] res@[t], socket_views(kept@)[t]),
        decreases kept.len() - k,
    {
        res.push(socket_info(&kept[k]));
        k = k + 1;
    }
    res
}

/// Parses `lsof -F pcRn` output: `p` lines start a process, `c` lines name its
/// command and `n` lines give `address:port`; the sockets are sorted by port and
/// address, and duplicates of port, address and process are dropped.
pub fn parse_lsof_output(output: &str) -> (res: Vec<PortInfo>)
    ensures
        is_socket_listing(res@, lsof_sockets(output@)),
{
    let chars = crate::text::chars_of(output);
    let ls = split_lines(&chars);
    let ghost lv = views(ls@);
    let mut rows: Vec<SocketRow> = Vec::new();
    let mut current_pid: Option<u32> = None;
    let mut current_cmd: Vec<char> = Vec::new();
    let mut entries: Vec<(Vec<char>, Vec<char>)> = Vec::new();
    let mut i: usize = 0;
    while i < ls.len()
        invariant
            lv == views(ls@),
            lv == lines(output@),
            0 <= i <= ls@.len(),
            lsof_fold(lv.take(i as int)) == (
                socket_views(rows@),
                current_pid,
                current_cmd@,
                entry_views(entries@),
            ),
        decreases ls.len() - i,
    {
        let line = &ls[i];
        assert(lv.take(i + 1).drop_last() == lv.take(i as int));
        assert(lv.take(i + 1).last() == line@);
        let ghost prev = lsof_fold(lv.take(i as int));
        assert(lsof_fold(lv.take(i + 1)) == lsof_step(prev, line@));
        if line.len() == 0 {
        } else if line[0] == 'p' {
            flush_into(&mut rows, &entries, current_pid, &current_cmd);
            entries = Vec::new();
            current_cmd = Vec::new();
            let rest = slice_chars(line, 1, line.len());
            assert(rest@ == line@.drop_first());
            current_pid = match parse_unsigned(&rest, 0xffff_ffff) {
                Some(v) => Some(v as u32),
                None => None,
            };
            assert(current_pid == parse_u32_spec(line@.drop_first()));
            assert(entry_views(entries@) =~= Seq::<(Seq<char>, Seq<char>)>::empty());
            assert(current_cmd@ =~= Seq::<char>::empty());
            assert(socket_views(rows@) == prev.0 + flush_entries(prev.3, prev.1, prev.2));
            assert(lsof_step(prev, line@) == (socket_views(rows@), current_pid, current_cmd@, entry_views(entries@)));
        } else if line[0] == 'c' {
            current_cmd = slice_chars(line, 1, line.len());
            assert(current_cmd@ == line@.drop_first());
            assert(lsof_step(prev, line@) == (socket_views(rows@), current_pid, current_cmd@, entry_views(entries@)));
        } else if line[0] == 'n' {
            let rest = slice_chars(line, 1, line.len());
            assert(rest@ == line@.drop_first());
            match rfind_char(&rest, ':') {
                Some(pos) => {
                    let head = slice_chars(&rest, 0, pos);
                    let addr = trim_chars(&head, '[', ']');
                    let port_text = slice_chars(&rest, pos + 1, rest.len());
                    assert(head@ == rest@.take(pos as int));
                    assert(port_text@ == rest@.skip(pos + 1));
                    let ghost before = entries@;
                    entries.push((addr, port_text));
                    assert(entry_views(entries@) == entry_views(before).push((addr@, port_text@)));
                },
                None => {},
            }
            assert(lsof_step(prev, line@) == (socket_views(rows@), current_pid, current_cmd@, entry_views(entries@)));
        } else {
            assert(lsof_step(prev, line@) == prev);
        }
        i = i + 1;
    }
    assert(lv.take(ls@.len() as int) == lv);
    flush_into(&mut rows, &entries, current_pid, &current_cmd);
    finish_sockets(&rows)
}


// ---------------------------------------------------------------------------
// `ss -tlnp`
// ---------------------------------------------------------------------------

/// Whether an `address:port` text can be split the way the scanner splits it:
/// with a `]`, the text must open with an ASCII character, and its last `]` must
/// not be the first character and must be followed by an ASCII character.
pub open spec fn address_port_ok(s: Seq<char>) -> bool {
    match last_index_of(s, ']') {
        Some(be) => 1 <= be && be < s.len() - 1 && s[0] <= '\u{7f}' && s[be + 1] <= '\u{7f}',
        None => true,
    }
}

/// An `address:port` text split into address and port: `[addr]:port` by the
/// last `]`, otherwise by the last `:`; without either, all address.
pub open spec fn address_port(s: Seq<char>) -> (Seq<char>, Seq<char>) {
    match last_index_of(s, ']') {
        Some(be) => (s.subrange(1, be), s.skip(be + 2)),
        None => match last_index_of(s, ':') {
            Some(c) => (s.take(c), s.skip(c + 1)),
            None => (s, Seq::empty()),
        },
    }
}

/// Splits an `address:port` text into address and port.
pub fn parse_address_port(s: &str) -> (res: (String, String))
    requires
        address_port_ok(s@),
    ensures
        res.0@ == address_port(s@).0,
        res.1@ == address_port(s@).1,
{
    let v = crate::text::chars_of(s);
    match rfind_char(&v, ']') {
        Some(be) => {
            assert(be + 2 <= v.len());
            assert(v@.skip(be + 2) == v@.subrange(be + 2, v@.len() as int));
            return (string_of_range(&v, 1, be), string_of_range(&v, be + 2, v.len()));
        },
        None => {},
    }
    match rfind_char(&v, ':') {
        Some(colon) => {
            assert(v@.take(colon as int) == v@.subrange(0, colon as int));
            assert(v@.skip(colon + 1) == v@.subrange(colon + 1, v@.len() as int));
            (string_of_range(&v, 0, colon), string_of_range(&v, colon + 1, v.len()))
        },
        None => (string_from(&v), String::new()),
    }
}

fn string_of_range(v: &Vec<char>, from: usize, to: usize) -> (res: String)
    requires
        from <= to <= v@.len(),
    ensures
        res@ == v@.subrange(from as int, to as int),
{
    crate::text::string_of(v, from, to)
}

/// The pattern for the process id in an `ss` process column.
pub const PID_PATTERN: &'static str = "pid=(\\d+)";

/// The pattern for the quoted process name in an `ss` process column.
pub const NAME_PATTERN: &'static str = "\"(\\w+)\"";

/// The process id in an `ss` process column: the digits after the first `pid=`,
/// when the pattern engine accepts the pattern and they form a valid id.
pub open spec fn ss_pid(info: Seq<char>) -> Option<u32> {
    if !regex_accepts(PID_PATTERN@) {
        None
    } else {
        pid_of(regex_captures(PID_PATTERN@, info))
    }
}

/// The process id given by the capture groups of a `pid=` match, if any.
pub open spec fn pid_of(caps: Option<Groups>) -> Option<u32> {
    match caps {
        Some(g) => match group(g, 1) {
            Some(d) => parse_u32_spec(d),
            None => None,
        },
        None => None,
    }
}

/// The first piece of the process column, split at `(`, `,` and `)`, that is
/// neither empty nor `users:`.
pub open spec fn first_name_piece(pieces: Seq<Seq<char>>) -> Option<Seq<char>>
    decreases pieces.len(),
{
    if pieces.len() == 0 {
        None
    } else if pieces[0].len() > 0 && pieces[0] != "users:"@ {
        Some(pieces[0])
    } else {
        first_name_piece(pieces.drop_first())
    }
}

/// The process name in an `ss` process column: the first quoted word, otherwise
/// the first piece between `(`, `,` and `)` other than `users:`, otherwise the
/// whole column.
pub open spec fn ss_name(info: Seq<char>) -> Seq<char> {
    name_of(
        info,
        if regex_accepts(NAME_PATTERN@) {
            regex_captures(NAME_PATTERN@, info)
        } else {
            None
        },
    )
}

/// The process name in a process column, given the capture groups of the
/// quoted-name match (`None` when there is none).
pub open spec fn name_of(info: Seq<char>, caps: Option<Groups>) -> Seq<char> {
    let quoted = match caps {
        Some(g) => group(g, 1),
        None => None,
    };
    match quoted {
        Some(n) => n,
        None => match first_name_piece(split_any(info, seq!['(', ',', ')'])) {
            Some(p) => p,
            None => info,
        },
    }
}

/// Finds the first piece that is neither empty nor `users:`.
fn first_piece(pieces: &Vec<Vec<char>>) -> (res: Option<usize>)
    ensures
        match res {
            Some(i) => i < pieces@.len() && first_name_piece(views(pieces@)) == Some(
                pieces@[i as int]@,
            ),
            None => first_name_piece(views(pieces@)) == None::<Seq<char>>,
        },
{
    let users = crate::text::chars_of("users:");
    let mut i: usize = 0;
    assert(views(pieces@).skip(0) == views(pieces@));
    while i < pieces.len()
        invariant
            0 <= i <= pieces@.len(),
            users@ == "users:"@,
            first_name_piece(views(pieces@)) == first_name_piece(views(pieces@).skip(i as int)),
        decreases pieces.len() - i,
    {
        assert(views(pieces@).skip(i as int)[0] == pieces@[i as int]@);
        if pieces[i].len() > 0 && !same_chars(&pieces[i], &users) {
            return Some(i);
        }
        assert(views(pieces@).skip(i as int).drop_first() == views(pieces@).skip(i + 1));
        i = i + 1;
    }
    None
}

/// The process id given by the capture groups of a `pid=` match (`None` when
/// there is no match).
pub fn pid_from_captures(caps: &Option<Vec<Option<(usize, String)>>>) -> (res: Option<u32>)
    ensures
        res == pid_of(caps.deep_view()),
{
    match caps {
        Some(g) => match group_chars(g, 1) {
            Some(d) => match parse_unsigned(&d, 0xffff_ffff) {
                Some(v) => Some(v as u32),
                None => None,
            },
            None => None,
        },
        None => None,
    }
}

/// The process name in the process column `info`, given the capture groups of
/// the quoted-name match (`None` when there is none).
pub fn name_from_captures(info: &str, caps: &Option<Vec<Option<(usize, String)>>>) -> (res: String)
    ensures
        res@ == name_of(info@, caps.deep_view()),
{
    let quoted = match caps {
        Some(g) => group_chars(g, 1),
        None => None,
    };
    match quoted {
        Some(n) => string_from(&n),
        None => {
            let chars = crate::text::chars_of(info);
            let seps = vec!['(', ',', ')'];
            let pieces = split_at_any(&chars, &seps);
            match first_piece(&pieces) {
                Some(i) => string_from(&pieces[i]),
                None => string_from(&chars),
            }
        },
    }
}

/// The process id and name in an `ss` process column such as
/// `users:(("node",pid=123,fd=20))`.
pub fn parse_process_info(info: &str) -> (res: (Option<u32>, String))
    ensures
        res.0 == ss_pid(info@),
        res.1@ == ss_name(info@),
{
    let pid = if pattern_accepted(PID_PATTERN) {
        match first_captures(PID_PATTERN, info) {
            Ok(c) => pid_from_captures(&c),
            Err(_) => None,
        }
    } else {
        None
    };
    let name_caps = if pattern_accepted(NAME_PATTERN) {
        match first_captures(NAME_PATTERN, info) {
            Ok(c) => c,
            Err(_) => None,
        }
    } else {
        None
    };
    let name = name_from_captures(info, &name_caps);
    (pid, name)
}

/// The socket that one `ss` line describes: the fourth column is the local
/// `address:port`, the sixth (or `-`) the process column.
pub open spec fn ss_line_socket(line: Seq<char>) -> Option<RawSocket> {
    let parts = words(line);
    if line.len() == 0 || parts.len() < 4 {
        None
    } else {
        let (addr, port_text) = address_port(parts[3]);
        match parse_u16_spec(port_text) {
            Some(port) => {
                let info = if parts.len() > 5 {
                    parts[5]
                } else {
                    "-"@
                };
                Some((port, addr, ss_pid(info), ss_name(info)))
            },
            None => None,
        }
    }
}

/// The sockets of the given `ss` lines, in order.
pub open spec fn ss_sockets(ls: Seq<Seq<char>>) -> Seq<RawSocket>
    decreases ls.len(),
{
    if ls.len() == 0 {
        seq![]
    } else {
        match ss_line_socket(ls.last()) {
            Some(r) => ss_sockets(ls.drop_last()).push(r),
            None => ss_sockets(ls.drop_last()),
        }
    }
}

/// Whether every `ss` line's address column can be split (see `address_port_ok`).
pub open spec fn ss_output_ok(output: Seq<char>) -> bool {
    forall|i: int|
        0 <= i < lines(output).len() ==> {
            let line = #[trigger] lines(output)[i];
            line.len() > 0 && words(line).len() >= 4 ==> address_port_ok(words(line)[3])
        }
}

/// Parses `ss -tlnp --no-header` output; the sockets are sorted by port and
/// address, and duplicates of port, address and process are dropped.
pub fn parse_ss_output(output: &str) -> (res: Vec<PortInfo>)
    requires
        ss_output_ok(output@),
    ensures
        is_socket_listing(res@, ss_sockets(lines(output@))),
{
    let chars = crate::text::chars_of(output);
    let ls = split_lines(&chars);
    let ghost lv = views(ls@);
    let mut rows: Vec<SocketRow> = Vec::new();
    let mut i: usize = 0;
    while i < ls.len()
        invariant
            lv == views(ls@),
            lv == lines(output@),
            ss_output_ok(output@),
            0 <= i <= ls@.len(),
            socket_views(rows@) == ss_sockets(lv.take(i as int)),
        decreases ls.len() - i,
    {
        let line = &ls[i];
        assert(lv.take(i + 1).drop_last() == lv.take(i as int));
        assert(lv.take(i + 1).last() == line@);
        assert(lv[i as int] == line@);
        let parts = split_words(line);
        if line.len() > 0 && parts.len() >= 4 {
            assert(views(parts@)[3] == parts@[3]@);
            let local = string_from(&parts[3]);
            let (addr, port_text) = parse_address_port(local.as_str());
            let port_chars = crate::text::chars_of(port_text.as_str());
            match parse_unsigned(&port_chars, 65535) {
                Some(port) => {
                    let info = if parts.len() > 5 {
                        assert(views(parts@)[5] == parts@[5]@);
                        string_from(&parts[5])
                    } else {
                        string_from_str("-")
                    };
                    let (pid, name) = parse_process_info(info.as_str());
                    let ghost before = rows@;
                    let addr_chars = crate::text::chars_of(addr.as_str());
                    let name_chars = crate::text::chars_of(name.as_str());
                    rows.push((port as u16, addr_chars, pid, name_chars));
                    assert(socket_views(rows@) == socket_views(before).push(
                        (port as u16, addr@, pid, name@),
                    ));
                },
                None => {},
            }
        }
        i = i + 1;
    }
    assert(lv.take(ls@.len() as int) == lv);
    finish_sockets(&rows)
}

// ---------------------------------------------------------------------------
// `netstat -ano -p TCP`
// ---------------------------------------------------------------------------

/// The pattern for a listening TCP line of `netstat -ano`.
pub const NETSTAT_PATTERN: &'static str = "TCP\\s+[\\[\\]]?([^\\]\\s:]+)[\\]:]?:(\\d+)\\s+\\S+\\s+LISTENING\\s+(\\d+)";

/// The socket that one `netstat` line describes, when the pattern matches it
/// with all three groups and its port group is a valid port.
pub open spec fn netstat_line_socket(line: Seq<char>) -> Option<RawSocket> {
    netstat_socket_of(regex_captures(NETSTAT_PATTERN@, line))
}

/// The socket given by the capture groups of a match of the `netstat` line
/// pattern (`None` when the line did not match).
pub open spec fn netstat_socket_of(caps: Option<Groups>) -> Option<RawSocket> {
    match caps {
        Some(g) => match (group(g, 1), group(g, 2), group(g, 3)) {
            (Some(addr), Some(port_text), Some(pid_text)) => match parse_u16_spec(port_text) {
                Some(port) => Some(
                    (
                        port,
                        if addr.len() == 0 {
                            "0.0.0.0"@
                        } else {
                            addr
                        },
                        parse_u32_spec(pid_text),
                        Seq::empty(),
                    ),
                ),
                None => None,
            },
            _ => None,
        },
        None => None,
    }
}

/// The sockets of the given `netstat` lines, in order.
pub open spec fn netstat_sockets(ls: Seq<Seq<char>>) -> Seq<RawSocket>
    decreases ls.len(),
{
    if ls.len() == 0 {
        seq![]
    } else {
        match netstat_line_socket(ls.last()) {
            Some(r) => netstat_sockets(ls.drop_last()).push(r),
            None => netstat_sockets(ls.drop_last()),
        }
    }
}

/// The live socket given by the capture groups of a match of the `netstat`
/// line pattern (`None` when the line did not match).
pub fn netstat_socket_from(caps: &Option<Vec<Option<(usize, String)>>>) -> (res: Option<PortInfo>)
    ensures
        match netstat_socket_of(caps.deep_view()) {
            Some(r) => res matches Some(p) && shows_socket(p, r),
            None => res is None,
        },
{
    match caps {
        Some(g) => match (group_chars(g, 1), group_chars(g, 2), group_chars(g, 3)) {
            (Some(addr), Some(port_text), Some(pid_text)) => match parse_unsigned(&port_text, 65535) {
                Some(port) => {
                    let bind = if addr.len() == 0 {
                        string_from_str("0.0.0.0")
                    } else {
                        string_from(&addr)
                    };
                    let pid = match parse_unsigned(&pid_text, 0xffff_ffff) {
                        Some(v) => Some(v as u32),
                        None => None,
                    };
                    Some(
                        PortInfo {
                            port: port as u16,
                            protocol: string_from_str("TCP"),
                            bind_address: bind,
                            pid,
                            process_name: String::new(),
                            service_name: None,
                            managed_by: None,
                            project: None,
                            source: PortSource::Live,
                        },
                    )
                },
                None => None,
            },
            _ => None,
        },
        None => None,
    }
}

/// Parses `netstat -ano -p TCP` output; the sockets are sorted by port and
/// address, and duplicates of port, address and process are dropped. Fails only
/// when the pattern engine refuses the line pattern.
pub fn parse_netstat_output(output: &str) -> (res: Result<Vec<PortInfo>, ParseError>)
    ensures
        match res {
            Ok(v) => regex_accepts(NETSTAT_PATTERN@) && is_socket_listing(
                v@,
                netstat_sockets(lines(output@)),
            ),
            Err(e) => !regex_accepts(NETSTAT_PATTERN@) && e == ParseError::PatternRejected,
        },
{
    if !pattern_accepted(NETSTAT_PATTERN) {
        return Err(ParseError::PatternRejected);
    }
    let chars = crate::text::chars_of(output);
    let ls = split_lines(&chars);
    let ghost lv = views(ls@);
    let mut rows: Vec<SocketRow> = Vec::new();
    let mut i: usize = 0;
    while i < ls.len()
        invariant
            lv == views(ls@),
            lv == lines(output@),
            regex_accepts(NETSTAT_PATTERN@),
            0 <= i <= ls@.len(),
            socket_views(rows@) == netstat_sockets(lv.take(i as int)),
        decreases ls.len() - i,
    {
        let line = string_from(&ls[i]);
        assert(lv.take(i + 1).drop_last() == lv.take(i as int));
        assert(lv.take(i + 1).last() == line@);
        let caps = match first_captures(NETSTAT_PATTERN, line.as_str()) {
            Ok(c) => c,
            Err(_) => None,
        };
        match netstat_socket_from(&caps) {
            Some(p) => {
                let ghost before = rows@;
                let bind = crate::text::chars_of(p.bind_address.as_str());
                let name = crate::text::chars_of(p.process_name.as_str());
                rows.push((p.port, bind, p.pid, name));
                assert(socket_views(rows@) == socket_views(before).push(
                    (p.port, bind@, p.pid, name@),
                ));
            },
            None => {},
        }
        i = i + 1;
    }
    assert(lv.take(ls@.len() as int) == lv);
    Ok(finish_sockets(&rows))
}


// ---------------------------------------------------------------------------
// Choosing the listing
// ---------------------------------------------------------------------------

/// The tool whose listing of listening sockets is parsed.
#[derive(Debug, Clone, Copy, PartialEq, Eq)]
pub enum ScanTool {
    /// `lsof -iTCP -sTCP:LISTEN -P -n -F pcRn` (macOS).
    Lsof,
    /// `ss -tlnp --no-header` (Linux).
    Ss,
    /// `netstat -ano -p TCP` (Windows).
    Netstat,
}

/// Whether an `ss` listing can be parsed without an address split failing.
pub fn ss_output_parsable(output: &str) -> (res: bool)
    ensures
        res == ss_output_ok(output@),
{
    let chars = crate::text::chars_of(output);
    let ls = split_lines(&chars);
    let ghost lv = views(ls@);
    let mut i: usize = 0;
    while i < ls.len()
        invariant
            lv == views(ls@),
            lv == lines(output@),
            0 <= i <= ls@.len(),
            forall|k: int|
                0 <= k < i ==> {
                    let line = #[trigger] lines(output@)[k];
                    line.len() > 0 && words(line).len() >= 4 ==> address_port_ok(words(line)[3])
                },
        decreases ls.len() - i,
    {
        let line = &ls[i];
        assert(lv[i as int] == line@);
        let parts = split_words(line);
        if line.len() > 0 && parts.len() >= 4 {
            assert(views(parts@)[3] == parts@[3]@);
            if !address_port_fits(&parts[3]) {
                return false;
            }
        }
        i = i + 1;
    }
    true
}

/// Whether an `address:port` text can be split (see `address_port_ok`).
fn address_port_fits(s: &Vec<char>) -> (res: bool)
    ensures
        res == address_port_ok(s@),
{
    match rfind_char(s, ']') {
        Some(be) => 1 <= be && be < s.len() - 1 && s[0] <= '\u{7f}' && s[be + 1] <= '\u{7f}',
        None => true,
    }
}

/// The listening sockets found in `output`, the listing that `tool` printed.
pub open spec fn live_listing(tool: ScanTool, output: Seq<char>) -> Seq<RawSocket> {
    match tool {
        ScanTool::Lsof => lsof_sockets(output),
        ScanTool::Ss => ss_sockets(lines(output)),
        ScanTool::Netstat => netstat_sockets(lines(output)),
    }
}

/// The listening TCP sockets in the listing that `tool` printed, sorted by port
/// and address, without duplicates of port, address and process. Fails only
/// when the pattern engine refuses the `netstat` line pattern.
pub fn scan_live_ports(tool: ScanTool, output: &str) -> (res: Result<Vec<PortInfo>, ParseError>)
    requires
        tool == ScanTool::Ss ==> ss_output_ok(output@),
    ensures
        match res {
            Ok(v) => is_socket_listing(v@, live_listing(tool, output@)),
            Err(e) => tool == ScanTool::Netstat && !regex_accepts(NETSTAT_PATTERN@) && e
                == ParseError::PatternRejected,
        },
        tool != ScanTool::Netstat || regex_accepts(NETSTAT_PATTERN@) ==> res is Ok,
{
    match tool {
        ScanTool::Lsof => Ok(parse_lsof_output(output)),
        ScanTool::Ss => Ok(parse_ss_output(output)),
        ScanTool::Netstat => parse_netstat_output(output),
    }
}

// ---------------------------------------------------------------------------
// One port
// ---------------------------------------------------------------------------

/// The first live socket on `port`.
pub open spec fn first_on_port(live: Seq<PortInfo>, port: u16) -> Option<int>
    decreases live.len(),
{
    if live.len() == 0 {
        None
    } else {
        match first_on_port(live.drop_last(), port) {
            Some(i) => Some(i),
            None => if live.last().port == port {
                Some(live.len() - 1)
            } else {
                None
            },
        }
    }
}

/// The check of `port` against the live sockets: in use when a socket listens
/// on it, naming the first such socket's process, and then suggesting the first
/// free port after it up to 65535.
pub open spec fn is_port_check(res: PortCheckResult, port: u16, live: Seq<PortInfo>) -> bool {
    &&& res.port == port
    &&& res.portmaster_entry == None::<crate::model::PortmasterEntry>
    &&& match first_on_port(live, port) {
        Some(i) => {
            &&& res.in_use
            &&& res.process == Some(live[i].process_name)
            &&& res.pid == live[i].pid
            &&& res.suggestion == if port < 65535 {
                first_free(live, port + 1, 65535)
            } else {
                None
            }
        },
        None => {
            &&& !res.in_use
            &&& res.process == None::<String>
            &&& res.pid == None::<u32>
            &&& res.suggestion == None::<u16>
        },
    }
}

/// Checks whether `port` is in use among `live_ports` (the live scan).
pub fn check_single_port(port: u16, live_ports: &[PortInfo]) -> (res: PortCheckResult)
    ensures
        is_port_check(res, port, live_ports@),
{
    let found = find_on_port(live_ports, port);
    match found {
        Some(i) => {
            let suggestion = if port < 65535 {
                find_free(live_ports, port + 1, 65535)
            } else {
                None
            };
            PortCheckResult {
                port,
                in_use: true,
                process: Some(live_ports[i].process_name.clone()),
                pid: live_ports[i].pid,
                portmaster_entry: None,
                suggestion,
            }
        },
        None => PortCheckResult {
            port,
            in_use: false,
            process: None,
            pid: None,
            portmaster_entry: None,
            suggestion: None,
        },
    }
}

fn find_on_port(live: &[PortInfo], port: u16) -> (res: Option<usize>)
    ensures
        match res {
            Some(i) => i < live@.len() && first_on_port(live@, port) == Some(i as int),
            None => first_on_port(live@, port) == None::<int>,
        },
{
    let mut i: usize = 0;
    while i < live.len()
        invariant
            0 <= i <= live@.len(),
            first_on_port(live@.take(i as int), port) == None::<int>,
        decreases live.len() - i,
    {
        assert(live@.take(i + 1).drop_last() == live@.take(i as int));
        if live[i].port == port {
            proof {
                assert(first_on_port(live@.take(i + 1), port) == Some(i as int));
                lemma_first_on_port_stays(live@, port, i + 1);
            }
            return Some(i);
        }
        i = i + 1;
    }
    assert(live@.take(live@.len() as int) == live@);
    None
}

proof fn lemma_first_on_port_stays(live: Seq<PortInfo>, port: u16, n: int)
    requires
        0 <= n <= live.len(),
        first_on_port(live.take(n), port) is Some,
    ensures
        first_on_port(live, port) == first_on_port(live.take(n), port),
    decreases live.len() - n,
{
    if n < live.len() {
        assert(live.take(n + 1).drop_last() == live.take(n));
        lemma_first_on_port_stays(live, port, n + 1);
    } else {
        assert(live.take(n) == live);
    }
}


// ---------------------------------------------------------------------------
// `docker ps --format "{{.Names}}\t{{.Ports}}"`
// ---------------------------------------------------------------------------

/// A published container port: container name, host port, host address.
pub type DockerMapping = (Seq<char>, u16, Seq<char>);

/// The host address recorded for a mapping: empty and `::` mean every interface.
pub open spec fn docker_bind(b: Seq<char>) -> Seq<char> {
    if b.len() == 0 || b == "::"@ {
        "0.0.0.0"@
    } else {
        b
    }
}

/// The published port in one mapping such as `0.0.0.0:8080->80/tcp`: the text
/// before the first `->`, split at its last `:` into host address and port.
pub open spec fn mapping_port(name: Seq<char>, mapping: Seq<char>) -> Option<DockerMapping> {
    match find_from(mapping, "->"@, 0) {
        Some(a) => {
            let host = mapping.take(a);
            match last_index_of(host, ':') {
                Some(c) => match parse_u16_spec(host.skip(c + 1)) {
                    Some(p) => Some(
                        (name, p, docker_bind(trim_end_char(trim_start_char(host.take(c), '['), ']'))),
                    ),
                    None => None,
                },
                None => None,
            }
        },
        None => None,
    }
}

/// The published ports among a container's mappings, in order.
pub open spec fn mappings_of(name: Seq<char>, ms: Seq<Seq<char>>) -> Seq<DockerMapping>
    decreases ms.len(),
{
    if ms.len() == 0 {
        seq![]
    } else {
        match mapping_port(name, ms.last()) {
            Some(m) => mappings_of(name, ms.drop_last()).push(m),
            None => mappings_of(name, ms.drop_last()),
        }
    }
}

/// The published ports of one `name<TAB>ports` line; lines without a port
/// column, or with a blank one, publish nothing.
pub open spec fn docker_line(line: Seq<char>) -> Seq<DockerMapping> {
    let parts = split_on(line, "\t"@);
    if parts.len() < 2 || trim(parts[1]).len() == 0 {
        seq![]
    } else {
        mappings_of(trim(parts[0]), split_on(parts[1], ", "@))
    }
}

/// The published ports of all lines, in order.
pub open spec fn docker_mappings(ls: Seq<Seq<char>>) -> Seq<DockerMapping>
    decreases ls.len(),
{
    if ls.len() == 0 {
        seq![]
    } else {
        docker_mappings(ls.drop_last()) + docker_line(ls.last())
    }
}

/// The views of exec mappings.
pub open spec fn mapping_views(v: Seq<(String, u16, String)>) -> Seq<DockerMapping> {
    v.map_values(|m: (String, u16, String)| (m.0@, m.1, m.2@))
}

fn push_mapping(out: &mut Vec<(String, u16, String)>, name: &Vec<char>, mapping: &Vec<char>)
    ensures
        mapping_views(final(out)@) == match mapping_port(name@, mapping@) {
            Some(m) => mapping_views(old(out)@).push(m),
            None => mapping_views(old(out)@),
        },
{
    let arrow_pat = crate::text::chars_of("->");
    match find_chars(mapping, &arrow_pat, 0) {
        Some(a) => {
            proof {
                crate::text::lemma_find_from(mapping@, arrow_pat@, 0);
                let j = find_from(mapping@, arrow_pat@, 0)->0;
                assert(0 <= j <= mapping.len());
                assert(j == a);
            }
            let host = slice_chars(mapping, 0, a);
            assert(host@ == mapping@.take(a as int));
            match rfind_char(&host, ':') {
                Some(c) => {
                    let port_text = slice_chars(&host, c + 1, host.len());
                    assert(port_text@ == host@.skip(c + 1));
                    match parse_unsigned(&port_text, 65535) {
                        Some(p) => {
                            let addr = slice_chars(&host, 0, c);
                            assert(addr@ == host@.take(c as int));
                            let inner = trim_chars(&addr, '[', ']');
                            let wild = crate::text::chars_of("::");
                            let bind = if inner.len() == 0 || same_chars(&inner, &wild) {
                                string_from_str("0.0.0.0")
                            } else {
                                string_from(&inner)
                            };
                            let ghost before = out@;
                            out.push((string_from(name), p as u16, bind));
                            assert(mapping_views(out@) == mapping_views(before).push(
                                (name@, p as u16, bind@),
                            ));
                        },
                        None => {},
                    }
                },
                None => {},
            }
        },
        None => {},
    }
}

/// Parses the output of `docker ps --format "{{.Names}}\t{{.Ports}}"` into
/// (container name, host port, host address) for each published port.
pub fn scan_docker_ports(output: &str) -> (res: Vec<(String, u16, String)>)
    ensures
        mapping_views(res@) == docker_mappings(lines(output@)),
{
    let chars = crate::text::chars_of(output);
    let ls = split_lines(&chars);
    let ghost lv = views(ls@);
    let tab = crate::text::chars_of("\t");
    let sep = crate::text::chars_of(", ");
    proof {
        reveal_strlit("\t");
        reveal_strlit(", ");
    }
    let mut res: Vec<(String, u16, String)> = Vec::new();
    let mut i: usize = 0;
    while i < ls.len()
        invariant
            lv == views(ls@),
            lv == lines(output@),
            tab@ == "\t"@,
            sep@ == ", "@,
            tab@.len() > 0,
            sep@.len() > 0,
            0 <= i <= ls@.len(),
            mapping_views(res@) == docker_mappings(lv.take(i as int)),
        decreases ls.len() - i,
    {
        let line = &ls[i];
        assert(lv.take(i + 1).drop_last() == lv.take(i as int));
        assert(lv.take(i + 1).last() == line@);
        let parts = split_chars(line, &tab);
        let ghost pv = views(parts@);
        if parts.len() >= 2 {
            assert(pv[1] == parts@[1]@);
            assert(pv[0] == parts@[0]@);
            let ports = trimmed(&parts[1]);
            if ports.len() > 0 {
                let name = trimmed(&parts[0]);
                let ms = split_chars(&parts[1], &sep);
                let ghost mv = views(ms@);
                let ghost start = mapping_views(res@);
                let mut k: usize = 0;
                while k < ms.len()
                    invariant
                        mv == views(ms@),
                        mv == split_on(parts@[1]@, ", "@),
                        0 <= k <= ms@.len(),
                        mapping_views(res@) == start + mappings_of(name@, mv.take(k as int)),
                    decreases ms.len() - k,
                {
                    assert(mv.take(k + 1).drop_last() == mv.take(k as int));
                    assert(mv.take(k + 1).last() == ms@[k as int]@);
                    push_mapping(&mut res, &name, &ms[k]);
                    k = k + 1;
                }
                assert(mv.take(ms@.len() as int) == mv);
            }
        }
        i = i + 1;
    }
    assert(lv.take(ls@.len() as int) == lv);
    res
}


// ---------------------------------------------------------------------------
// Laws
// ---------------------------------------------------------------------------

/// The sort key of a socket.
pub open spec fn socket_key(r: RawSocket) -> SortKey {
    (r.0, r.1)
}

/// Whether key `a` comes no later than key `b`.
pub open spec fn key_le(a: SortKey, b: SortKey) -> bool {
    key_lt(a, b) || a == b
}

/// Whether sockets are in order of key.
pub open spec fn sockets_sorted(s: Seq<RawSocket>) -> bool {
    forall|a: int, b: int|
        #![trigger s[a], s[b]]
        0 <= a < b < s.len() ==> key_le(socket_key(s[a]), socket_key(s[b]))
}

/// Whether `d` holds a socket of the same port, address and process as `x`.
pub open spec fn has_rep(d: Seq<RawSocket>, x: RawSocket) -> bool {
    exists|k: int| 0 <= k < d.len() && same_socket(#[trigger] d[k], x)
}

proof fn lemma_key_le_transitive(a: SortKey, b: SortKey, c: SortKey)
    requires
        key_le(a, b),
        key_le(b, c),
    ensures
        key_le(a, c),
{
    lemma_key_order(a, b, c);
}

proof fn lemma_dedup_sockets(s: Seq<RawSocket>)
    ensures
        s.len() > 0 ==> dedup_sockets(s).len() > 0 && socket_key(dedup_sockets(s).last())
            == socket_key(s.last()),
        sockets_sorted(s) ==> sockets_sorted(dedup_sockets(s)),
        forall|a: int|
            0 <= a < dedup_sockets(s).len() - 1 ==> !same_socket(
                #[trigger] dedup_sockets(s)[a],
                dedup_sockets(s)[a + 1],
            ),
        forall|i: int| 0 <= i < s.len() ==> has_rep(dedup_sockets(s), #[trigger] s[i]),
    decreases s.len(),
{
    if s.len() > 0 {
        let t = s.drop_last();
        lemma_dedup_sockets(t);
        let d = dedup_sockets(t);
        let x = s.last();
        if sockets_sorted(s) {
            assert(sockets_sorted(t)) by {
                assert forall|a: int, b: int|
                    #![trigger t[a], t[b]]
                    0 <= a < b < t.len() implies key_le(socket_key(t[a]), socket_key(t[b])) by {
                    assert(t[a] == s[a] && t[b] == s[b]);
                }
            }
        }
        if d.len() > 0 && same_socket(d.last(), x) {
            assert forall|i: int| 0 <= i < s.len() implies has_rep(dedup_sockets(s), #[trigger] s[i]) by {
                if i < t.len() {
                    assert(s[i] == t[i]);
                    assert(has_rep(d, t[i]));
                } else {
                    assert(same_socket(dedup_sockets(s)[d.len() - 1], s[i]));
                }
            }
        } else {
            let e = d.push(x);
            assert(dedup_sockets(s) == e);
            if sockets_sorted(s) {
                assert forall|a: int, b: int|
                    #![trigger e[a], e[b]]
                    0 <= a < b < e.len() implies key_le(socket_key(e[a]), socket_key(e[b])) by {
                    if b == e.len() - 1 && t.len() > 0 {
                        assert(e[b] == x);
                        assert(key_le(socket_key(s[t.len() - 1]), socket_key(x)));
                        assert(socket_key(d.last()) == socket_key(s[t.len() - 1]));
                        if a < d.len() - 1 {
                            assert(key_le(socket_key(d[a]), socket_key(d.last())));
                            lemma_key_le_transitive(
                                socket_key(d[a]),
                                socket_key(d.last()),
                                socket_key(x),
                            );
                        }
                    } else if b < e.len() - 1 {
                        assert(e[a] == d[a] && e[b] == d[b]);
                    }
                }
            }
            assert forall|a: int| 0 <= a < e.len() - 1 implies !same_socket(
                #[trigger] e[a],
                e[a + 1],
            ) by {
                if a < d.len() - 1 {
                    assert(e[a] == d[a] && e[a + 1] == d[a + 1]);
                }
            }
            assert forall|i: int| 0 <= i < s.len() implies has_rep(e, #[trigger] s[i]) by {
                if i < t.len() {
                    assert(s[i] == t[i]);
                    assert(has_rep(d, t[i]));
                    let k = choose|k: int| 0 <= k < d.len() && same_socket(#[trigger] d[k], t[i]);
                    assert(e[k] == d[k]);
                } else {
                    assert(same_socket(e[d.len() as int], s[i]));
                }
            }
        }
    }
}

proof fn lemma_stable_sockets(sorted: Seq<RawSocket>, raw: Seq<RawSocket>)
    requires
        is_stable_sort_of(sorted, raw, socket_keys(raw)),
    ensures
        sockets_sorted(sorted),
        forall|i: int| 0 <= i < raw.len() ==> sorted.contains(#[trigger] raw[i]),
{
    let keys = socket_keys(raw);
    let p = choose|p: Seq<usize>|
        #![trigger is_stable_order(keys, p)]
        is_stable_order(keys, p) && sorted.len() == p.len() && forall|k: int|
            0 <= k < sorted.len() ==> #[trigger] sorted[k] == raw[p[k] as int];
    assert forall|a: int, b: int|
        #![trigger sorted[a], sorted[b]]
        0 <= a < b < sorted.len() implies key_le(socket_key(sorted[a]), socket_key(sorted[b])) by {
        assert(placed_before(keys, p[a] as int, p[b] as int));
    }
    assert forall|i: int| 0 <= i < raw.len() implies sorted.contains(#[trigger] raw[i]) by {
        assert(crate::sorting::lists(p, i));
        let j = choose|j: int| 0 <= j < p.len() && p[j] == i;
        assert(sorted[j] == raw[i]);
    }
}

proof fn lemma_listing_sorted(res: Seq<PortInfo>, d: Seq<RawSocket>)
    requires
        res.len() == d.len(),
        forall|k: int| 0 <= k < res.len() ==> shows_socket(#[trigger] res[k], d[k]),
        sockets_sorted(d),
    ensures
        forall|a: int, b: int|
            0 <= a < b < res.len() ==> key_le(
                (#[trigger] res[a].port, res[a].bind_address@),
                (#[trigger] res[b].port, res[b].bind_address@),
            ),
{
    assert forall|a: int, b: int| 0 <= a < b < res.len() implies key_le(
        (#[trigger] res[a].port, res[a].bind_address@),
        (#[trigger] res[b].port, res[b].bind_address@),
    ) by {
        assert(shows_socket(res[a], d[a]));
        assert(shows_socket(res[b], d[b]));
        assert(key_le(socket_key(d[a]), socket_key(d[b])));
    }
}

proof fn lemma_listing_complete(
    res: Seq<PortInfo>,
    d: Seq<RawSocket>,
    raw: Seq<RawSocket>,
    sorted: Seq<RawSocket>,
)
    requires
        res.len() == d.len(),
        forall|k: int| 0 <= k < res.len() ==> shows_socket(#[trigger] res[k], d[k]),
        forall|i: int| 0 <= i < sorted.len() ==> has_rep(d, #[trigger] sorted[i]),
        forall|i: int| 0 <= i < raw.len() ==> sorted.contains(#[trigger] raw[i]),
    ensures
        forall|i: int| 0 <= i < raw.len() ==> lists_socket(res, #[trigger] raw[i]),
{
    assert forall|i: int| 0 <= i < raw.len() implies lists_socket(res, #[trigger] raw[i]) by {
        assert(sorted.contains(raw[i]));
        let j = choose|j: int| 0 <= j < sorted.len() && sorted[j] == raw[i];
        assert(has_rep(d, sorted[j]));
        let k = choose|k: int| 0 <= k < d.len() && same_socket(#[trigger] d[k], sorted[j]);
        assert(shows_socket(res[k], d[k]));
    }
}

/// Whether `res` has a record of the port, address and process of `r`.
pub open spec fn lists_socket(res: Seq<PortInfo>, r: RawSocket) -> bool {
    exists|k: int|
        0 <= k < res.len() && (#[trigger] res[k]).port == r.0 && res[k].bind_address@ == r.1
            && res[k].pid == r.2
}

/// A socket listing is sorted by port and then address, holds no two
/// consecutive records of the same port, address and process, and has a record
/// of every parsed socket's port, address and process.
pub proof fn socket_listing_is_sorted_and_complete(res: Seq<PortInfo>, raw: Seq<RawSocket>)
    requires
        is_socket_listing(res, raw),
    ensures
        forall|a: int, b: int|
            0 <= a < b < res.len() ==> key_le(
                (#[trigger] res[a].port, res[a].bind_address@),
                (#[trigger] res[b].port, res[b].bind_address@),
            ),
        forall|a: int|
            0 <= a < res.len() - 1 ==> !((#[trigger] res[a]).port == res[a + 1].port
                && res[a].bind_address@ == res[a + 1].bind_address@ && res[a].pid == res[a
                + 1].pid),
        forall|i: int| 0 <= i < raw.len() ==> lists_socket(res, #[trigger] raw[i]),
{
    let sorted = choose|sorted: Seq<RawSocket>|
        #![trigger is_stable_sort_of(sorted, raw, socket_keys(raw))]
        {
            &&& is_stable_sort_of(sorted, raw, socket_keys(raw))
            &&& res.len() == dedup_sockets(sorted).len()
            &&& forall|k: int|
                0 <= k < res.len() ==> shows_socket(#[trigger] res[k], dedup_sockets(sorted)[k])
        };
    lemma_stable_sockets(sorted, raw);
    lemma_dedup_sockets(sorted);
    let d = dedup_sockets(sorted);
    lemma_listing_sorted(res, d);
    lemma_listing_complete(res, d, raw, sorted);
}


/// A port in use gets a suggestion only when a later port up to 65535 is free,
/// and the suggestion is the first such port.
pub proof fn port_check_suggests_first_later_free(res: PortCheckResult, port: u16, live: Seq<PortInfo>)
    requires
        is_port_check(res, port, live),
    ensures
        res.suggestion matches Some(s) ==> res.in_use && port < s <= 65535 && !live_has(
            live,
            s as int,
        ) && forall|q: int| port < q < s ==> live_has(live, q),
        res.in_use && res.suggestion is None ==> forall|q: int|
            port < q <= 65535 ==> live_has(live, q),
{
    if port < 65535 {
        suggestion_is_first_free(live, port + 1, 65535);
    }
}

proof fn lemma_first_on_port(live: Seq<PortInfo>, port: u16)
    ensures
        match first_on_port(live, port) {
            Some(i) => 0 <= i < live.len() && live[i].port == port && forall|j: int|
                0 <= j < i ==> live[j].port != port,
            None => !live_has(live, port as int),
        },
    decreases live.len(),
{
    if live.len() > 0 {
        lemma_first_on_port(live.drop_last(), port);
        assert forall|j: int| 0 <= j < live.len() - 1 implies live[j] == live.drop_last()[j] by {}
    }
}

/// A port is reported in use exactly when a live socket listens on it; the
/// process and process id reported are those of the first such socket, and no
/// earlier socket listens on the port.
pub proof fn port_check_reports_first_listener(res: PortCheckResult, port: u16, live: Seq<PortInfo>)
    requires
        is_port_check(res, port, live),
    ensures
        res.port == port,
        res.in_use == live_has(live, port as int),
        res.in_use ==> exists|i: int|
            0 <= i < live.len() && (#[trigger] live[i]).port == port && res.process == Some(
                live[i].process_name,
            ) && res.pid == live[i].pid && forall|j: int| 0 <= j < i ==> live[j].port != port,
{
    lemma_first_on_port(live, port);
    match first_on_port(live, port) {
        Some(i) => {
            assert(live_has(live, port as int));
            assert(live[i].port == port);
        },
        None => {},
    }
}

proof fn lemma_last_index_none(x: Seq<char>, c: char)
    requires
        !x.contains(c),
    ensures
        last_index_of(x, c) == None::<int>,
    decreases x.len(),
{
    if x.len() > 0 {
        assert(x.last() == x[x.len() - 1]);
        assert forall|k: int| 0 <= k < x.drop_last().len() implies x.drop_last()[k] != c by {
            assert(x.drop_last()[k] == x[k]);
        }
        lemma_last_index_none(x.drop_last(), c);
    }
}

proof fn lemma_last_index_at(x: Seq<char>, c: char, y: Seq<char>)
    requires
        !y.contains(c),
    ensures
        last_index_of(x.push(c) + y, c) == Some(x.len() as int),
    decreases y.len(),
{
    let s = x.push(c) + y;
    if y.len() == 0 {
        assert(s == x.push(c));
    } else {
        assert(s.last() == y[y.len() - 1]);
        assert(s.drop_last() == x.push(c) + y.drop_last());
        assert forall|k: int| 0 <= k < y.drop_last().len() implies y.drop_last()[k] != c by {
            assert(y.drop_last()[k] == y[k]);
        }
        lemma_last_index_at(x, c, y.drop_last());
    }
}

/// Splitting `address:port` or `[address]:port` gives back the address and the
/// port, when the port holds no `:` and neither holds a `]` (the split is
/// defined on both texts).
pub proof fn address_port_round_trip(a: Seq<char>, p: Seq<char>)
    requires
        !a.contains(']'),
        !p.contains(']'),
        !p.contains(':'),
    ensures
        address_port_ok(a + ":"@ + p),
        address_port(a + ":"@ + p) == (a, p),
        address_port_ok("["@ + a + "]:"@ + p),
        address_port("["@ + a + "]:"@ + p) == (a, p),
{
    reveal_strlit(":");
    reveal_strlit("[");
    reveal_strlit("]:");
    let plain = a + ":"@ + p;
    assert(plain == a.push(':') + p);
    assert(!plain.contains(']')) by {
        if plain.contains(']') {
            let k = choose|k: int| 0 <= k < plain.len() && plain[k] == ']';
            if k < a.len() {
                assert(a[k] == ']');
            } else if k > a.len() {
                assert(p[k - a.len() - 1] == ']');
            }
        }
    }
    lemma_last_index_none(plain, ']');
    lemma_last_index_at(a, ':', p);
    assert(plain.take(a.len() as int) == a);
    assert(plain.skip(a.len() as int + 1) == p);
    let br = "["@ + a + "]:"@ + p;
    let head = "["@ + a;
    assert(br == head.push(']') + (seq![':'] + p));
    assert(!(seq![':'] + p).contains(']')) by {
        if (seq![':'] + p).contains(']') {
            let k = choose|k: int| 0 <= k < (seq![':'] + p).len() && (seq![':'] + p)[k] == ']';
            if k > 0 {
                assert(p[k - 1] == ']');
            }
        }
    }
    lemma_last_index_at(head, ']', seq![':'] + p);
    assert(br[0] == '[');
    assert(br[head.len() as int + 1] == ':');
    assert(br.subrange(1, head.len() as int) == a);
    assert(br.skip(head.len() as int + 2) == p);
}

/// The process id of the last process record among `ls`: parsed from the last
/// line that starts with `p`, or none before the first such line.
pub open spec fn last_record_pid(ls: Seq<Seq<char>>) -> Option<u32>
    decreases ls.len(),
{
    if ls.len() == 0 {
        None
    } else if ls.last().len() > 0 && ls.last()[0] == 'p' {
        parse_u32_spec(ls.last().drop_first())
    } else {
        last_record_pid(ls.drop_last())
    }
}

/// Reading an `lsof -F` line: an empty line, or one that starts with anything
/// but `p`, `c` or `n` (such as the parent-pid line `R` or the descriptor line
/// `f`), leaves the reader as it was; only a `p` line sets the process id, to
/// the number that follows the `p`, and it starts a record with no command and
/// no addresses; `c` and `n` lines keep the process id and the sockets found.
pub proof fn lsof_lines_set_only_their_field(st: LsofState, line: Seq<char>)
    ensures
        line.len() == 0 || (line[0] != 'p' && line[0] != 'c' && line[0] != 'n') ==> lsof_step(
            st,
            line,
        ) == st,
        line.len() > 0 && line[0] == 'p' ==> lsof_step(st, line).1 == parse_u32_spec(
            line.drop_first(),
        ) && lsof_step(st, line).2 == Seq::<char>::empty() && lsof_step(st, line).3 == Seq::<
            (Seq<char>, Seq<char>),
        >::empty(),
        line.len() > 0 && line[0] == 'c' ==> lsof_step(st, line).1 == st.1 && lsof_step(st, line).0
            == st.0 && lsof_step(st, line).2 == line.drop_first(),
        line.len() > 0 && line[0] == 'n' ==> lsof_step(st, line).1 == st.1 && lsof_step(st, line).0
            == st.0 && lsof_step(st, line).2 == st.2,
{
}

/// After any lines, the reader holds the process id of the last process record.
pub proof fn lsof_pid_is_last_record_pid(ls: Seq<Seq<char>>)
    ensures
        lsof_fold(ls).1 == last_record_pid(ls),
    decreases ls.len(),
{
    if ls.len() > 0 {
        lsof_pid_is_last_record_pid(ls.drop_last());
        lsof_lines_set_only_their_field(lsof_fold(ls.drop_last()), ls.last());
    }
}

/// Every socket a process record contributes carries that record's process id
/// and command.
pub proof fn lsof_sockets_carry_their_record(
    entries: Seq<(Seq<char>, Seq<char>)>,
    pid: Option<u32>,
    cmd: Seq<char>,
)
    ensures
        forall|k: int|
            0 <= k < flush_entries(entries, pid, cmd).len() ==> (#[trigger] flush_entries(
                entries,
                pid,
                cmd,
            )[k]).2 == pid && flush_entries(entries, pid, cmd)[k].3 == cmd,
    decreases entries.len(),
{
    if entries.len() > 0 {
        lsof_sockets_carry_their_record(entries.drop_last(), pid, cmd);
        let prev = flush_entries(entries.drop_last(), pid, cmd);
        assert forall|k: int| 0 <= k < flush_entries(entries, pid, cmd).len() implies (
        #[trigger] flush_entries(entries, pid, cmd)[k]).2 == pid && flush_entries(
            entries,
            pid,
            cmd,
        )[k].3 == cmd by {
            if k < prev.len() {
                assert(flush_entries(entries, pid, cmd)[k] == prev[k]);
            }
        }
    }
}

} // verus!
