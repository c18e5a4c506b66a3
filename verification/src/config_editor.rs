//! Proposing and applying port changes in configuration files.
use vstd::prelude::*;
use crate::model::FixPreview;
use crate::number::{
    decimal, decimal_parses_back, decimal_string, parse_u16_spec, parse_unsigned, write_decimal,
};
use crate::pattern::{
    all_captures, all_lie_in, group, group_at, group_chars, group_start, lies_in, pattern_accepted,
    regex_accepts, regex_captures_iter, Groups,
};
use crate::text::{
    append_str, find_chars, find_from, lemma_line_spans, line_spans, lines, same_chars,
    spans_of_lines, splice, splice_chars, split_lines, string_from, string_from_str, trim, trimmed,
    views,
};

verus! {

/// A port number of two to five digits standing as a word.
pub const PORT_PATTERN: &'static str = "\\b(\\d{2,5})\\b";

/// The message for a line number outside the file.
pub open spec fn out_of_range_message(line_number: usize, count: nat) -> Seq<char> {
    "Line "@ + decimal(line_number as nat) + " is out of range (file has "@ + decimal(count)
        + " lines)"@
}

/// Whether `line_number` (counting from 1) names a line of `content`.
pub open spec fn line_in_range(content: Seq<char>, line_number: usize) -> bool {
    1 <= line_number <= lines(content).len()
}

/// A proposed edit as text: old port, new port, new line.
pub type Proposal = (u16, u16, Seq<char>);

/// The edit proposed for one port match: a port of at least 1024 is moved to
/// the next port, the matched digits being replaced where they stand in the
/// line; nothing is proposed when the line would not change.
pub open spec fn proposal(line: Seq<char>, m: Groups) -> Option<Proposal> {
    match (group(m, 1), group_start(m, 1)) {
        (Some(d), Some(a)) => match parse_u16_spec(d) {
            Some(p) => if p >= 1024 {
                let nl = splice(line, a, d.len() as int, decimal((p + 1) as nat));
                if nl != line {
                    Some((p, (p + 1) as u16, nl))
                } else {
                    None
                }
            } else {
                None
            },
            None => None,
        },
        _ => None,
    }
}

/// The edits proposed for the port matches of a line, in order.
pub open spec fn proposals(line: Seq<char>, ms: Seq<Groups>) -> Seq<Proposal>
    decreases ms.len(),
{
    if ms.len() == 0 {
        seq![]
    } else {
        match proposal(line, ms.last()) {
            Some(q) => proposals(line, ms.drop_last()).push(q),
            None => proposals(line, ms.drop_last()),
        }
    }
}

/// Whether some port match of `line` is the largest port, which has no next port.
pub open spec fn has_last_port(ms: Seq<Groups>) -> bool {
    exists|k: int|
        0 <= k < ms.len() && (group(#[trigger] ms[k], 1) matches Some(d) && parse_u16_spec(d)
            == Some(65535u16))
}

/// Whether a preview of `line_number` in `content` can be made: the line must
/// be out of range, or the pattern engine must accept the port pattern and no
/// port on the line may be 65535.
pub open spec fn preview_defined(content: Seq<char>, line_number: usize) -> bool {
    line_in_range(content, line_number) ==> regex_accepts(PORT_PATTERN@) && !has_last_port(
        regex_captures_iter(PORT_PATTERN@, lines(content)[line_number - 1]),
    )
}

/// The text of a preview.
pub open spec fn preview_matches(
    v: FixPreview,
    file_path: Seq<char>,
    line_number: usize,
    old_line: Seq<char>,
    q: Proposal,
) -> bool {
    &&& v.file_path@ == file_path
    &&& v.line_number == line_number
    &&& v.old_line@ == old_line
    &&& v.new_line@ == q.2
    &&& v.old_port == q.0
    &&& v.new_port == q.1
}

/// `res` is the preview of changing line `line_number` of `content`: the
/// proposed edits, or a single unchanged line with ports 0 when none is
/// proposed; an error when the line is out of range.
pub open spec fn is_preview(
    res: Result<Vec<FixPreview>, String>,
    file_path: Seq<char>,
    line_number: usize,
    content: Seq<char>,
) -> bool {
    if !line_in_range(content, line_number) {
        res matches Err(msg) && msg@ == out_of_range_message(line_number, lines(content).len())
    } else {
        let old_line = lines(content)[line_number - 1];
        res matches Ok(v) && line_previews(
            v@,
            file_path,
            line_number,
            old_line,
            regex_captures_iter(PORT_PATTERN@, old_line),
        )
    }
}

/// `v` previews line `line_number` (text `old_line`) of the file at `file_path`,
/// given the port matches `ms` of the line: the proposed edits, or a single
/// unchanged line with ports 0 when none is proposed.
pub open spec fn line_previews(
    v: Seq<FixPreview>,
    file_path: Seq<char>,
    line_number: usize,
    old_line: Seq<char>,
    ms: Seq<Groups>,
) -> bool {
    let qs = proposals(old_line, ms);
    let expected = if qs.len() == 0 {
        seq![(0u16, 0u16, old_line)]
    } else {
        qs
    };
    v.len() == expected.len() && forall|k: int|
        0 <= k < expected.len() ==> preview_matches(
            #[trigger] v[k],
            file_path,
            line_number,
            old_line,
            expected[k],
        )
}

fn out_of_range(line_number: usize, count: usize) -> (res: String)
    ensures
        res@ == out_of_range_message(line_number, count as nat),
{
    let mut msg = string_from_str("Line ");
    write_decimal(line_number as u64, &mut msg);
    append_str(&mut msg, " is out of range (file has ");
    write_decimal(count as u64, &mut msg);
    append_str(&mut msg, " lines)");
    msg
}

/// Whether some port match is the largest port, which has no next port.
pub fn has_last_port_in(matches: &Vec<Vec<Option<(usize, String)>>>) -> (res: bool)
    ensures
        res == has_last_port(matches.deep_view()),
{
    let ghost mv = matches.deep_view();
    let mut i: usize = 0;
    while i < matches.len()
        invariant
            mv == matches.deep_view(),
            0 <= i <= matches@.len(),
            forall|k: int|
                0 <= k < i ==> !(group(#[trigger] mv[k], 1) matches Some(d) && parse_u16_spec(d)
                    == Some(65535u16)),
        decreases matches.len() - i,
    {
        assert(mv[i as int] == matches@[i as int].deep_view());
        match group_chars(&matches[i], 1) {
            Some(d) => match parse_unsigned(&d, 65535) {
                Some(p) => {
                    if p == 65535 {
                        assert(group(mv[i as int], 1) matches Some(d) && parse_u16_spec(d)
                            == Some(65535u16));
                        return true;
                    }
                },
                None => {},
            },
            None => {},
        }
        i = i + 1;
    }
    false
}

/// The preview of line `line_number` (text `old_line`) of the file at
/// `file_path`, given the port matches of the line (each the capture groups of
/// one match of `PORT_PATTERN`), none of which may be the port 65535.
pub fn previews_from_matches(
    file_path: &str,
    line_number: usize,
    old_line: &str,
    matches: &Vec<Vec<Option<(usize, String)>>>,
) -> (res: Vec<FixPreview>)
    requires
        !has_last_port(matches.deep_view()),
        all_lie_in(matches.deep_view(), old_line@),
    ensures
        line_previews(res@, file_path@, line_number, old_line@, matches.deep_view()),
{
    let old = crate::text::chars_of(old_line);
    let ghost mv = matches.deep_view();
    let mut previews: Vec<FixPreview> = Vec::new();
    let mut i: usize = 0;
    while i < matches.len()
        invariant
            mv == matches.deep_view(),
            old@ == old_line@,
            !has_last_port(mv),
            all_lie_in(mv, old@),
            0 <= i <= matches@.len(),
            previews@.len() == proposals(old@, mv.take(i as int)).len(),
            forall|k: int|
                0 <= k < previews@.len() ==> preview_matches(
                    #[trigger] previews@[k],
                    file_path@,
                    line_number,
                    old@,
                    proposals(old@, mv.take(i as int))[k],
                ),
        decreases matches.len() - i,
    {
        let g = &matches[i];
        assert(mv.take(i + 1).drop_last() == mv.take(i as int));
        assert(mv.take(i + 1).last() == g.deep_view());
        assert(mv[i as int] == g.deep_view());
        let ghost before = previews@;
        match group_at(g, 1) {
            Some((a, d)) => match parse_unsigned(&d, 65535) {
                Some(p) => {
                    if p >= 1024 {
                        assert(p != 65535);
                        let new_port = (p + 1) as u16;
                        let np = decimal_string(new_port as u64);
                        let np_chars = crate::text::chars_of(np.as_str());
                        assert(lies_in(mv[i as int], old@));
                        assert(mv[i as int][1] matches Some(m) && m.0 == a && m.1 == d@);
                        let nl = splice_chars(&old, a, d.len(), &np_chars);
                        if !same_chars(&nl, &old) {
                            previews.push(
                                FixPreview {
                                    file_path: string_from_str(file_path),
                                    line_number,
                                    old_line: string_from(&old),
                                    new_line: string_from(&nl),
                                    old_port: p as u16,
                                    new_port,
                                },
                            );
                        }
                    }
                },
                None => {},
            },
            None => {},
        }
        assert forall|k: int| 0 <= k < previews@.len() implies preview_matches(
            #[trigger] previews@[k],
            file_path@,
            line_number,
            old@,
            proposals(old@, mv.take(i + 1))[k],
        ) by {
            if k < before.len() {
                assert(previews@[k] == before[k]);
            }
        }
        i = i + 1;
    }
    assert(mv.take(matches@.len() as int) == mv);
    if previews.len() == 0 {
        previews.push(
            FixPreview {
                file_path: string_from_str(file_path),
                line_number,
                old_line: string_from(&old),
                new_line: string_from(&old),
                old_port: 0,
                new_port: 0,
            },
        );
    }
    previews
}

/// Previews moving each port (of at least 1024) on line `line_number` of
/// `content`, the text of the file at `file_path`, to the next port.
pub fn preview_fix(file_path: &str, line_number: usize, content: &str) -> (res: Result<
    Vec<FixPreview>,
    String,
>)
    requires
        preview_defined(content@, line_number),
    ensures
        is_preview(res, file_path@, line_number, content@),
{
    let chars = crate::text::chars_of(content);
    let ls = split_lines(&chars);
    assert(views(ls@) == lines(content@));
    if line_number == 0 || line_number > ls.len() {
        return Err(out_of_range(line_number, ls.len()));
    }
    let old = &ls[line_number - 1];
    assert(old@ == lines(content@)[line_number - 1]);
    let old_text = string_from(old);
    let matches = match all_captures(PORT_PATTERN, old_text.as_str()) {
        Ok(m) => m,
        Err(_) => {
            assert(false);
            return Ok(Vec::new());
        },
    };
    Ok(previews_from_matches(file_path, line_number, old_text.as_str(), &matches))
}


/// Whether the port pattern is accepted and no port on the line is 65535.
fn preview_possible(line_number: usize, content: &str) -> (res: bool)
    ensures
        res == preview_defined(content@, line_number),
{
    let chars = crate::text::chars_of(content);
    let ls = split_lines(&chars);
    assert(views(ls@) == lines(content@));
    if line_number == 0 || line_number > ls.len() {
        return true;
    }
    if !pattern_accepted(PORT_PATTERN) {
        return false;
    }
    let old = &ls[line_number - 1];
    assert(old@ == lines(content@)[line_number - 1]);
    let old_text = string_from(old);
    let matches = match all_captures(PORT_PATTERN, old_text.as_str()) {
        Ok(m) => m,
        Err(_) => {
            return false;
        },
    };
    !has_last_port_in(&matches)
}

/// Previews a fix where one can be made: `None` when the port pattern is
/// refused or a port on the line is 65535 (which has no next port).
pub fn try_preview_fix(file_path: &str, line_number: usize, content: &str) -> (res: Option<
    Result<Vec<FixPreview>, String>,
>)
    ensures
        match res {
            Some(r) => preview_defined(content@, line_number) && is_preview(
                r,
                file_path@,
                line_number,
                content@,
            ),
            None => !preview_defined(content@, line_number),
        },
{
    if preview_possible(line_number, content) {
        Some(preview_fix(file_path, line_number, content))
    } else {
        None
    }
}

/// The first port match on a line whose value is a port of at least 1024, as
/// the position where its digits start and the digits.
pub open spec fn first_replaceable(ms: Seq<Groups>) -> Option<(int, Seq<char>)>
    decreases ms.len(),
{
    if ms.len() == 0 {
        None
    } else if replaceable(ms[0]) {
        Some((group_start(ms[0], 1)->0, group(ms[0], 1)->0))
    } else {
        first_replaceable(ms.drop_first())
    }
}

/// The message reporting an applied fix.
pub open spec fn updated_message(
    file_path: Seq<char>,
    line_number: usize,
    old_line: Seq<char>,
    new_line: Seq<char>,
) -> Seq<char> {
    "Updated "@ + file_path + " line "@ + decimal(line_number as nat) + ": "@ + trim(old_line)
        + " -> "@ + trim(new_line)
}

/// The message for a line without a port to replace.
pub open spec fn no_port_message(file_path: Seq<char>, line_number: usize) -> Seq<char> {
    "No port number found on line "@ + decimal(line_number as nat) + " of "@ + file_path
}

/// `res` is the outcome of setting the first port (of at least 1024) on line
/// `line_number` of `content` to `new_port`: the matched digits are replaced
/// where they stand, and nothing else of the file changes (other lines and all
/// line endings are kept); `res` holds the new content and a message, or an
/// error message.
pub open spec fn is_applied(
    res: Result<(String, String), String>,
    file_path: Seq<char>,
    line_number: usize,
    new_port: u16,
    content: Seq<char>,
) -> bool {
    let ls = lines(content);
    if !line_in_range(content, line_number) {
        res matches Err(msg) && msg@ == out_of_range_message(line_number, ls.len())
    } else {
        applied_with(
            res,
            file_path,
            line_number,
            new_port,
            content,
            regex_captures_iter(PORT_PATTERN@, ls[line_number - 1]),
        )
    }
}

/// `res` is the outcome of setting the first port (of at least 1024) among the
/// port matches `ms` of line `line_number` (in range) of `content` to `new_port`.
pub open spec fn applied_with(
    res: Result<(String, String), String>,
    file_path: Seq<char>,
    line_number: usize,
    new_port: u16,
    content: Seq<char>,
    ms: Seq<Groups>,
) -> bool {
    let ls = lines(content);
    let old_line = ls[line_number - 1];
    let sp = line_spans(content)[line_number - 1];
    match first_replaceable(ms) {
        Some(f) => {
            let new_line = splice(old_line, f.0, f.1.len() as int, decimal(new_port as nat));
            res matches Ok(out) && out.0@ == content.take(sp.0) + new_line + content.skip(sp.1)
                && out.1@ == updated_message(file_path, line_number, old_line, new_line)
        },
        None => res matches Err(msg) && msg@ == no_port_message(file_path, line_number),
    }
}

/// Whether a fix can be applied: the line must be out of range or the pattern
/// engine must accept the port pattern.
pub open spec fn apply_defined(content: Seq<char>, line_number: usize) -> bool {
    line_in_range(content, line_number) ==> regex_accepts(PORT_PATTERN@)
}

/// Sets the first port (of at least 1024) among `matches`, the port matches of
/// line `line_number` of `content` (each the capture groups of one match of
/// `PORT_PATTERN`), to `new_port`. Gives the new content of the file at
/// `file_path` and a message.
pub fn apply_with_matches(
    file_path: &str,
    line_number: usize,
    new_port: u16,
    content: &str,
    matches: &Vec<Vec<Option<(usize, String)>>>,
) -> (res: Result<(String, String), String>)
    requires
        line_in_range(content@, line_number),
        all_lie_in(matches.deep_view(), lines(content@)[line_number - 1]),
    ensures
        applied_with(res, file_path@, line_number, new_port, content@, matches.deep_view()),
{
    let chars = crate::text::chars_of(content);
    let ls = split_lines(&chars);
    let ghost lv = views(ls@);
    assert(lv == lines(content@));
    let old = &ls[line_number - 1];
    assert(old@ == lv[line_number - 1]);
    let ghost mv = matches.deep_view();
    let mut i: usize = 0;
    let mut found: Option<(usize, Vec<char>)> = None;
    assert(mv.skip(0) == mv);
    while i < matches.len()
        invariant
            mv == matches.deep_view(),
            all_lie_in(mv, old@),
            0 <= i <= matches@.len(),
            first_replaceable(mv) == match found {
                Some(f) => Some((f.0 as int, f.1@)),
                None => first_replaceable(mv.skip(i as int)),
            },
            found matches Some(f) ==> f.0 + f.1@.len() <= old@.len(),
        decreases matches.len() - i,
    {
        assert(mv.skip(i as int)[0] == matches@[i as int].deep_view());
        assert(mv.skip(i as int).drop_first() == mv.skip(i + 1));
        if found.is_none() {
            match group_at(&matches[i], 1) {
                Some((a, d)) => match parse_unsigned(&d, 65535) {
                    Some(p) => {
                        if p >= 1024 {
                            assert(lies_in(mv[i as int], old@));
                            assert(mv[i as int][1] matches Some(m) && m.0 == a && m.1 == d@);
                            found = Some((a, d));
                        }
                    },
                    None => {},
                },
                None => {},
            }
        }
        i = i + 1;
    }
    assert(mv.skip(matches@.len() as int) =~= Seq::<Groups>::empty());
    let (at, d) = match found {
        Some(f) => f,
        None => {
            let mut msg = string_from_str("No port number found on line ");
            write_decimal(line_number as u64, &mut msg);
            append_str(&mut msg, " of ");
            append_str(&mut msg, file_path);
            return Err(msg);
        },
    };
    let np = decimal_string(new_port as u64);
    let np_chars = crate::text::chars_of(np.as_str());
    let new_line = splice_chars(old, at, d.len(), &np_chars);
    let spans = spans_of_lines(&chars);
    proof {
        lemma_line_spans(chars@);
    }
    let (start, end) = spans[line_number - 1];
    let mut out = String::new();
    crate::text::push_chars(&mut out, &chars, 0, start);
    crate::text::push_chars(&mut out, &new_line, 0, new_line.len());
    crate::text::push_chars(&mut out, &chars, end, chars.len());
    assert(chars@.subrange(0, start as int) == chars@.take(start as int));
    assert(new_line@.subrange(0, new_line@.len() as int) == new_line@);
    assert(chars@.subrange(end as int, chars@.len() as int) == chars@.skip(end as int));
    let mut msg = string_from_str("Updated ");
    append_str(&mut msg, file_path);
    append_str(&mut msg, " line ");
    write_decimal(line_number as u64, &mut msg);
    append_str(&mut msg, ": ");
    let old_trim = trimmed(old);
    crate::text::push_chars(&mut msg, &old_trim, 0, old_trim.len());
    append_str(&mut msg, " -> ");
    let new_trim = trimmed(&new_line);
    crate::text::push_chars(&mut msg, &new_trim, 0, new_trim.len());
    assert(old_trim@.subrange(0, old_trim@.len() as int) == old_trim@);
    assert(new_trim@.subrange(0, new_trim@.len() as int) == new_trim@);
    Ok((out, msg))
}

/// Sets the first port (of at least 1024) on line `line_number` of `content`,
/// the text of the file at `file_path`, to `new_port`. Gives the new content of
/// the file and a message.
pub fn apply_fix(file_path: &str, line_number: usize, new_port: u16, content: &str) -> (res: Result<
    (String, String),
    String,
>)
    requires
        apply_defined(content@, line_number),
    ensures
        is_applied(res, file_path@, line_number, new_port, content@),
{
    let chars = crate::text::chars_of(content);
    let ls = split_lines(&chars);
    let ghost lv = views(ls@);
    assert(lv == lines(content@));
    if line_number == 0 || line_number > ls.len() {
        return Err(out_of_range(line_number, ls.len()));
    }
    let old = &ls[line_number - 1];
    assert(old@ == lv[line_number - 1]);
    let old_text = string_from(old);
    let matches = match all_captures(PORT_PATTERN, old_text.as_str()) {
        Ok(m) => m,
        Err(_) => {
            assert(false);
            return Err(String::new());
        },
    };
    apply_with_matches(file_path, line_number, new_port, content, &matches)
}

/// Applies a fix where one can be made: `None` when the port pattern is refused.
pub fn try_apply_fix(file_path: &str, line_number: usize, new_port: u16, content: &str) -> (res:
    Option<Result<(String, String), String>>)
    ensures
        match res {
            Some(r) => apply_defined(content@, line_number) && is_applied(
                r,
                file_path@,
                line_number,
                new_port,
                content@,
            ),
            None => !apply_defined(content@, line_number),
        },
{
    let chars = crate::text::chars_of(content);
    let ls = split_lines(&chars);
    assert(views(ls@) == lines(content@));
    if line_number >= 1 && line_number <= ls.len() && !pattern_accepted(PORT_PATTERN) {
        return None;
    }
    Some(apply_fix(file_path, line_number, new_port, content))
}


/// The configuration files searched, in order, for a project's port.
pub open spec fn config_file_names() -> Seq<Seq<char>> {
    seq![
        ".env"@,
        ".env.local"@,
        ".env.development"@,
        "docker-compose.yml"@,
        "docker-compose.yaml"@,
        "package.json"@,
        "vite.config.js"@,
        "vite.config.ts"@,
        "next.config.js"@,
        "next.config.ts"@,
    ]
}

/// The paths of the configuration files searched for a project's port.
pub fn port_config_candidates(project_path: &str) -> (res: Vec<String>)
    ensures
        res@.len() == config_file_names().len(),
        forall|i: int|
            0 <= i < res@.len() ==> (#[trigger] res@[i])@ == project_path@ + "/"@
                + config_file_names()[i],
{
    let names = [
        ".env",
        ".env.local",
        ".env.development",
        "docker-compose.yml",
        "docker-compose.yaml",
        "package.json",
        "vite.config.js",
        "vite.config.ts",
        "next.config.js",
        "next.config.ts",
    ];
    let mut res: Vec<String> = Vec::new();
    let mut i: usize = 0;
    while i < 10
        invariant
            0 <= i <= 10,
            names@.len() == 10,
            forall|k: int| 0 <= k < 10 ==> (#[trigger] names@[k])@ == config_file_names()[k],
            res@.len() == i,
            forall|k: int|
                0 <= k < i ==> (#[trigger] res@[k])@ == project_path@ + "/"@
                    + config_file_names()[k],
        decreases 10 - i,
    {
        let mut path = string_from_str(project_path);
        append_str(&mut path, "/");
        append_str(&mut path, names[i]);
        res.push(path);
        i = i + 1;
    }
    res
}

/// Whether `needle` occurs in `s` (`str::contains`).
pub open spec fn contains_text(s: Seq<char>, needle: Seq<char>) -> bool {
    find_from(s, needle, 0) is Some
}

/// The first of the lines `ls[from..]` that contains `needle`.
pub open spec fn first_line_with(ls: Seq<Seq<char>>, needle: Seq<char>, from: int) -> Option<int>
    decreases ls.len() - from,
{
    if from < 0 || from >= ls.len() {
        None
    } else if contains_text(ls[from], needle) {
        Some(from)
    } else {
        first_line_with(ls, needle, from + 1)
    }
}

/// Where a project configures `port`: the first candidate file (from `i` on)
/// whose content is known and has a line containing the port's digits, with
/// that line's number (from 1) and text.
pub open spec fn port_config_from(
    project_path: Seq<char>,
    port: u16,
    contents: Seq<Option<String>>,
    i: int,
) -> Option<(Seq<char>, int, Seq<char>)>
    decreases 10 - i,
{
    if i < 0 || i >= 10 {
        None
    } else {
        let here = if i < contents.len() {
            match contents[i] {
                Some(c) => match first_line_with(lines(c@), decimal(port as nat), 0) {
                    Some(n) => Some(
                        (project_path + "/"@ + config_file_names()[i], n + 1, lines(c@)[n]),
                    ),
                    None => None,
                },
                None => None,
            }
        } else {
            None
        };
        match here {
            Some(r) => Some(r),
            None => port_config_from(project_path, port, contents, i + 1),
        }
    }
}

fn line_with(ls: &Vec<Vec<char>>, needle: &Vec<char>) -> (res: Option<usize>)
    ensures
        match res {
            Some(n) => n < ls@.len() && first_line_with(views(ls@), needle@, 0) == Some(n as int),
            None => first_line_with(views(ls@), needle@, 0) == None::<int>,
        },
{
    let mut n: usize = 0;
    while n < ls.len()
        invariant
            0 <= n <= ls@.len(),
            first_line_with(views(ls@), needle@, 0) == first_line_with(
                views(ls@),
                needle@,
                n as int,
            ),
        decreases ls.len() - n,
    {
        assert(views(ls@)[n as int] == ls@[n as int]@);
        if find_chars(&ls[n], needle, 0).is_some() {
            return Some(n);
        }
        n = n + 1;
    }
    None
}

/// Finds where a project configures `port`: `contents[i]` is the text of the
/// `i`-th file of `port_config_candidates(project_path)`, or `None` when that
/// file could not be read. Gives the file, the line number (from 1) and the line.
pub fn find_port_config(project_path: &str, port: u16, contents: &[Option<String>]) -> (res: Option<
    (String, usize, String),
>)
    ensures
        match port_config_from(project_path@, port, contents@, 0) {
            Some(r) => res matches Some(x) && x.0@ == r.0 && x.1 as int == r.1 && x.2@ == r.2,
            None => res is None,
        },
{
    let candidates = port_config_candidates(project_path);
    let digits = decimal_string(port as u64);
    let needle = crate::text::chars_of(digits.as_str());
    let mut i: usize = 0;
    while i < 10
        invariant
            0 <= i <= 10,
            candidates@.len() == 10,
            forall|k: int|
                0 <= k < 10 ==> (#[trigger] candidates@[k])@ == project_path@ + "/"@
                    + config_file_names()[k],
            needle@ == decimal(port as nat),
            port_config_from(project_path@, port, contents@, 0) == port_config_from(
                project_path@,
                port,
                contents@,
                i as int,
            ),
        decreases 10 - i,
    {
        if i < contents.len() {
            match &contents[i] {
                Some(c) => {
                    let chars = crate::text::chars_of(c.as_str());
                    let ls = split_lines(&chars);
                    match line_with(&ls, &needle) {
                        Some(n) => {
                            assert(n < ls.len());
                            assert(views(ls@)[n as int] == ls@[n as int]@);
                            return Some((candidates[i].clone(), n + 1, string_from(&ls[n])));
                        },
                        None => {},
                    }
                },
                None => {},
            }
        }
        i = i + 1;
    }
    None
}


proof fn lemma_proposals(line: Seq<char>, ms: Seq<Groups>)
    requires
        !has_last_port(ms),
    ensures
        forall|k: int|
            0 <= k < proposals(line, ms).len() ==> {
                let q = #[trigger] proposals(line, ms)[k];
                q.0 >= 1024 && q.1 == q.0 + 1 && q.2 != line
            },
    decreases ms.len(),
{
    if ms.len() > 0 {
        assert(!has_last_port(ms.drop_last())) by {
            if has_last_port(ms.drop_last()) {
                let k = choose|k: int|
                    0 <= k < ms.drop_last().len() && (group(#[trigger] ms.drop_last()[k], 1) matches Some(
                        d,
                    ) && parse_u16_spec(d) == Some(65535u16));
                assert(ms[k] == ms.drop_last()[k]);
            }
        }
        assert(!(group(ms[ms.len() - 1], 1) matches Some(d) && parse_u16_spec(d) == Some(65535u16)));
        lemma_proposals(line, ms.drop_last());
        let prev = proposals(line, ms.drop_last());
        assert forall|k: int| 0 <= k < proposals(line, ms).len() implies {
            let q = #[trigger] proposals(line, ms)[k];
            q.0 >= 1024 && q.1 == q.0 + 1 && q.2 != line
        } by {
            if k < prev.len() {
                assert(proposals(line, ms)[k] == prev[k]);
            }
        }
    }
}

/// Every proposed edit moves a port of at least 1024 to the next port and
/// changes the line; when no edit is proposed, the single preview keeps the
/// line and names port 0.
pub proof fn previews_move_to_next_port(
    res: Result<Vec<FixPreview>, String>,
    file_path: Seq<char>,
    line_number: usize,
    content: Seq<char>,
)
    requires
        is_preview(res, file_path, line_number, content),
        preview_defined(content, line_number),
        line_in_range(content, line_number),
    ensures
        res matches Ok(v) && forall|k: int|
            0 <= k < v@.len() ==> {
                let p = #[trigger] v@[k];
                ||| p.old_port >= 1024 && p.new_port == p.old_port + 1 && p.new_line@ != p.old_line@
                ||| p.old_port == 0 && p.new_port == 0 && p.new_line@ == p.old_line@ && v@.len()
                    == 1
            },
{
    let old_line = lines(content)[line_number - 1];
    lemma_proposals(old_line, regex_captures_iter(PORT_PATTERN@, old_line));
}

/// Whether a port match holds a port of at least 1024.
pub open spec fn replaceable(m: Groups) -> bool {
    group(m, 1) matches Some(e) && (parse_u16_spec(e) matches Some(p) && p >= 1024)
}

proof fn lemma_first_replaceable(ms: Seq<Groups>) -> (j: int)
    requires
        first_replaceable(ms) is Some,
    ensures
        0 <= j < ms.len(),
        replaceable(ms[j]),
        first_replaceable(ms) == Some((group_start(ms[j], 1)->0, group(ms[j], 1)->0)),
        forall|k: int| 0 <= k < j ==> !replaceable(#[trigger] ms[k]),
    decreases ms.len(),
{
    if replaceable(ms[0]) {
        0
    } else {
        let j = lemma_first_replaceable(ms.drop_first());
        assert forall|k: int| 0 <= k < j + 1 implies !replaceable(#[trigger] ms[k]) by {
            if k > 0 {
                assert(ms[k] == ms.drop_first()[k - 1]);
            }
        }
        assert(ms[j + 1] == ms.drop_first()[j]);
        j + 1
    }
}

proof fn lemma_proposals_prefix(line: Seq<char>, ms: Seq<Groups>, n: int)
    requires
        0 <= n <= ms.len(),
    ensures
        proposals(line, ms.take(n)).len() <= proposals(line, ms).len(),
        forall|t: int|
            0 <= t < proposals(line, ms.take(n)).len() ==> proposals(line, ms)[t]
                == #[trigger] proposals(line, ms.take(n))[t],
    decreases ms.len(),
{
    if n == ms.len() {
        assert(ms.take(n) == ms);
    } else {
        assert(ms.take(n) == ms.drop_last().take(n));
        lemma_proposals_prefix(line, ms.drop_last(), n);
    }
}

proof fn lemma_no_proposals_before(line: Seq<char>, ms: Seq<Groups>, n: int)
    requires
        0 <= n <= ms.len(),
        forall|k: int| 0 <= k < n ==> !replaceable(#[trigger] ms[k]),
    ensures
        proposals(line, ms.take(n)).len() == 0,
    decreases n,
{
    if n > 0 {
        assert(ms.take(n).drop_last() == ms.take(n - 1));
        assert(ms.take(n).last() == ms[n - 1]);
        assert(!replaceable(ms[n - 1]));
        lemma_no_proposals_before(line, ms, n - 1);
    }
}

/// Applying the port that a preview proposes first gives the file with the
/// previewed line in place of the old one and nothing else changed, when the
/// line holds a port of at least 1024 (each port match being the piece of the
/// line at its position, as the pattern engine reports it).
pub proof fn applying_a_preview_writes_its_line(
    file_path: Seq<char>,
    line_number: usize,
    content: Seq<char>,
    preview: Result<Vec<FixPreview>, String>,
    new_port: u16,
    applied: Result<(String, String), String>,
)
    requires
        line_in_range(content, line_number),
        preview_defined(content, line_number),
        all_lie_in(
            regex_captures_iter(PORT_PATTERN@, lines(content)[line_number - 1]),
            lines(content)[line_number - 1],
        ),
        first_replaceable(regex_captures_iter(PORT_PATTERN@, lines(content)[line_number - 1]))
            is Some,
        is_preview(preview, file_path, line_number, content),
        preview matches Ok(v) && v@.len() > 0 && v@[0].new_port == new_port,
        is_applied(applied, file_path, line_number, new_port, content),
    ensures
        preview matches Ok(v) && v@[0].old_port >= 1024 && v@[0].new_port == v@[0].old_port + 1,
        preview matches Ok(v) && (applied matches Ok(out) && out.0@ == content.take(
            line_spans(content)[line_number - 1].0,
        ) + v@[0].new_line@ + content.skip(line_spans(content)[line_number - 1].1)),
{
    let line = lines(content)[line_number - 1];
    let ms = regex_captures_iter(PORT_PATTERN@, line);
    let j = lemma_first_replaceable(ms);
    let d = group(ms[j], 1)->0;
    let a = group_start(ms[j], 1)->0;
    let p = parse_u16_spec(d)->0;
    assert(lies_in(ms[j], line));
    assert(ms[j][1] matches Some(m) && m.0 == a && m.1 == d);
    assert(line.subrange(a, a + d.len()) == d);
    assert(p != 65535) by {
        if p == 65535 {
            assert(has_last_port(ms));
        }
    }
    let r = decimal((p + 1) as nat);
    decimal_parses_back((p + 1) as u16);
    assert(r != d);
    let nl = splice(line, a, d.len() as int, r);
    assert(nl != line) by {
        if nl == line {
            if r.len() == d.len() {
                assert(nl.subrange(a, a + r.len()) == r);
            } else {
                assert(nl.len() != line.len());
            }
        }
    }
    assert(proposal(line, ms[j]) == Some((p, (p + 1) as u16, nl)));
    lemma_no_proposals_before(line, ms, j);
    assert(ms.take(j + 1).drop_last() == ms.take(j));
    assert(ms.take(j + 1).last() == ms[j]);
    assert(proposals(line, ms.take(j + 1)) == proposals(line, ms.take(j)).push(
        (p, (p + 1) as u16, nl),
    ));
    lemma_proposals_prefix(line, ms, j + 1);
    assert(proposals(line, ms)[0] == proposals(line, ms.take(j + 1))[0]);
}

} // verus!
