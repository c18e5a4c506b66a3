//! Regular-expression matching through the `regex` crate. The patterns are the
//! library's own; what the engine matches is named, not restated.
use vstd::prelude::*;

verus! {

/// `regex::Error`, the reason the engine refuses a pattern.
#[verifier::external_type_specification]
#[verifier::external_body]
pub struct ExRegexError(regex::Error);

/// The capture groups of one match: for each group that took part, the
/// position (in characters) in the haystack where it starts and its text.
pub type Groups = Seq<Option<(usize, Seq<char>)>>;

/// Whether each group that took part is the piece of `haystack` at its position.
pub open spec fn lies_in(g: Groups, haystack: Seq<char>) -> bool {
    forall|i: int|
        0 <= i < g.len() ==> (#[trigger] g[i] matches Some(m) ==> m.0 + m.1.len() <= haystack.len()
            && haystack.subrange(m.0 as int, m.0 + m.1.len()) == m.1)
}

/// Whether each group of each match lies in `haystack`.
pub open spec fn all_lie_in(ms: Seq<Groups>, haystack: Seq<char>) -> bool {
    forall|k: int| 0 <= k < ms.len() ==> lies_in(#[trigger] ms[k], haystack)
}

/// Whether `regex::Regex::new` accepts `pattern`.
pub uninterp spec fn regex_accepts(pattern: Seq<char>) -> bool;

/// The capture groups of the leftmost-first match of `pattern` in `haystack`, as
/// `Regex::captures` reports them (group 0 is the whole match; a group that did
/// not take part is `None`; each group with its starting position in
/// characters), or `None` when there is no match.
pub uninterp spec fn regex_captures(pattern: Seq<char>, haystack: Seq<char>) -> Option<
    Groups,
>;

/// The capture groups of the successive non-overlapping matches of `pattern` in
/// `haystack`, as `Regex::captures_iter` yields them.
pub uninterp spec fn regex_captures_iter(pattern: Seq<char>, haystack: Seq<char>) -> Seq<
    Groups,
>;

/// Whether `regex::Regex::new` accepts `pattern`. The contract claims only
/// that the answer is the one that `regex_accepts` names.
#[verifier::external_body]
pub(crate) fn pattern_accepted(pattern: &str) -> (res: bool)
    ensures
        res == regex_accepts(pattern@),
{
    regex::Regex::new(pattern).is_ok()
}

/// Compiles `pattern` with `regex::Regex::new` and reports the capture groups
/// of its first match in `haystack` (`Regex::captures`), each group as its start
/// (the byte offset `Match::start` counted in characters) and its text
/// (`Match::as_str`). The contract claims that compilation succeeds exactly when
/// `regex_accepts` holds of the pattern, that the groups are those that
/// `regex_captures` names, and that each group is the piece of the haystack at
/// its position (`as_str` is `haystack[start..end]`); what the engine matches is
/// not restated.
#[verifier::external_body]
pub(crate) fn first_captures(pattern: &str, haystack: &str) -> (res: Result<
    Option<Vec<Option<(usize, String)>>>,
    regex::Error,
>)
    ensures
        res is Ok <==> regex_accepts(pattern@),
        res matches Ok(c) ==> c.deep_view() == regex_captures(pattern@, haystack@),
        res matches Ok(c) ==> (c matches Some(g) ==> lies_in(g.deep_view(), haystack@)),
{
    let re = regex::Regex::new(pattern)?;
    let caps = match re.captures(haystack) {
        Some(caps) => caps,
        None => return Ok(None),
    };
    let mut groups = Vec::new();
    for m in caps.iter() {
        groups.push(match m {
            Some(m) => Some((haystack[..m.start()].chars().count(), m.as_str().to_string())),
            None => None,
        });
    }
    Ok(Some(groups))
}

/// Compiles `pattern` with `regex::Regex::new` and reports the capture groups
/// of each successive match in `haystack` (`Regex::captures_iter`), each group
/// as its start in characters and its text, as `first_captures` does. The
/// contract claims that compilation succeeds exactly when `regex_accepts` holds
/// of the pattern, that the groups are those that `regex_captures_iter` names,
/// and that each group is the piece of the haystack at its position.
#[verifier::external_body]
pub(crate) fn all_captures(pattern: &str, haystack: &str) -> (res: Result<
    Vec<Vec<Option<(usize, String)>>>,
    regex::Error,
>)
    ensures
        res is Ok <==> regex_accepts(pattern@),
        res matches Ok(c) ==> c.deep_view() == regex_captures_iter(pattern@, haystack@),
        res matches Ok(c) ==> all_lie_in(c.deep_view(), haystack@),
{
    let re = regex::Regex::new(pattern)?;
    let mut all = Vec::new();
    for caps in re.captures_iter(haystack) {
        let mut groups = Vec::new();
        for m in caps.iter() {
            groups.push(match m {
                Some(m) => Some((haystack[..m.start()].chars().count(), m.as_str().to_string())),
                None => None,
            });
        }
        all.push(groups);
    }
    Ok(all)
}

/// Group `i` of a set of capture groups, if present and taking part.
pub open spec fn group(g: Groups, i: int) -> Option<Seq<char>> {
    if 0 <= i < g.len() {
        match g[i] {
            Some(m) => Some(m.1),
            None => None,
        }
    } else {
        None
    }
}

/// The position in the haystack where group `i` starts, if present and taking part.
pub open spec fn group_start(g: Groups, i: int) -> Option<int> {
    if 0 <= i < g.len() {
        match g[i] {
            Some(m) => Some(m.0 as int),
            None => None,
        }
    } else {
        None
    }
}

/// Group `i` of a set of capture groups, as characters.
pub fn group_chars(g: &Vec<Option<(usize, String)>>, i: usize) -> (res: Option<Vec<char>>)
    ensures
        match res {
            Some(v) => group(g.deep_view(), i as int) == Some(v@),
            None => group(g.deep_view(), i as int) == None::<Seq<char>>,
        },
{
    if i < g.len() {
        match &g[i] {
            Some(m) => Some(crate::text::chars_of(m.1.as_str())),
            None => None,
        }
    } else {
        None
    }
}

/// Group `i` of a set of capture groups, as its start and its characters.
pub fn group_at(g: &Vec<Option<(usize, String)>>, i: usize) -> (res: Option<(usize, Vec<char>)>)
    ensures
        match res {
            Some(x) => group(g.deep_view(), i as int) == Some(x.1@) && group_start(
                g.deep_view(),
                i as int,
            ) == Some(x.0 as int),
            None => group(g.deep_view(), i as int) == None::<Seq<char>> && group_start(
                g.deep_view(),
                i as int,
            ) == None::<int>,
        },
{
    if i < g.len() {
        match &g[i] {
            Some(m) => Some((m.0, crate::text::chars_of(m.1.as_str()))),
            None => None,
        }
    } else {
        None
    }
}

} // verus!
