//! Character-level text handling shared by the parsers: the behaviour of the
//! `str` operations that the parsers rely on, stated over `Seq<char>`.
use vstd::prelude::*;

verus! {

// ---------------------------------------------------------------------------
// Building and reading strings
// ---------------------------------------------------------------------------

/// Appends one character to a string with `String::push`. The contract claims
/// that the string's characters afterwards are the old ones followed by `c`.
#[verifier::external_body]
pub(crate) fn push_char(s: &mut String, c: char)
    ensures
        final(s)@ == old(s)@.push(c),
{
    s.push(c);
}

/// The characters of a string slice, in order.
pub fn chars_of(s: &str) -> (res: Vec<char>)
    ensures
        res@ == s@,
{
    let mut res: Vec<char> = Vec::new();
    for c in it: s.chars()
        invariant
            res@ == it.seq().take(it.index() as int),
            it.seq() == s@,
    {
        res.push(c);
    }
    res
}

/// Appends the characters `s[from..to]` to `out`.
pub fn push_chars(out: &mut String, s: &Vec<char>, from: usize, to: usize)
    requires
        from <= to <= s@.len(),
    ensures
        final(out)@ == old(out)@ + s@.subrange(from as int, to as int),
{
    let mut i: usize = from;
    while i < to
        invariant
            from <= i <= to <= s@.len(),
            out@ == old(out)@ + s@.subrange(from as int, i as int),
        decreases to - i,
    {
        push_char(out, s[i]);
        i = i + 1;
        assert(s@.subrange(from as int, i as int) == s@.subrange(from as int, i - 1).push(
            s@[i - 1],
        ));
    }
}

/// Appends the characters of `s` to `out`.
pub fn append_str(out: &mut String, s: &str)
    ensures
        final(out)@ == old(out)@ + s@,
{
    let v = chars_of(s);
    push_chars(out, &v, 0, v.len());
    assert(v@.subrange(0, v@.len() as int) == v@);
}

/// A string holding the characters `s[from..to]`.
pub fn string_of(s: &Vec<char>, from: usize, to: usize) -> (res: String)
    requires
        from <= to <= s@.len(),
    ensures
        res@ == s@.subrange(from as int, to as int),
{
    let mut res = String::new();
    push_chars(&mut res, s, from, to);
    res
}

/// A string holding all characters of `s`.
pub fn string_from(s: &Vec<char>) -> (res: String)
    ensures
        res@ == s@,
{
    let res = string_of(s, 0, s.len());
    assert(s@.subrange(0, s@.len() as int) == s@);
    res
}

/// A string equal to `s`.
pub fn string_from_str(s: &str) -> (res: String)
    ensures
        res@ == s@,
{
    let v = chars_of(s);
    string_from(&v)
}

/// `a` followed by `b`.
pub fn concat(a: &String, b: &str) -> (res: String)
    ensures
        res@ == a@ + b@,
{
    let mut res = a.clone();
    let v = chars_of(b);
    push_chars(&mut res, &v, 0, v.len());
    assert(v@.subrange(0, v@.len() as int) == v@);
    res
}

/// Whether two character sequences are equal.
pub fn same_chars(a: &Vec<char>, b: &Vec<char>) -> (res: bool)
    ensures
        res == (a@ == b@),
{
    if a.len() != b.len() {
        return false;
    }
    let mut i: usize = 0;
    while i < a.len()
        invariant
            a@.len() == b@.len(),
            0 <= i <= a@.len(),
            forall|k: int| 0 <= k < i ==> a@[k] == b@[k],
        decreases a.len() - i,
    {
        if a[i] != b[i] {
            return false;
        }
        i = i + 1;
    }
    assert(a@ =~= b@);
    true
}

/// Whether the string `s` has exactly the characters of `lit`.
pub fn str_is(s: &str, lit: &str) -> (res: bool)
    ensures
        res == (s@ == lit@),
{
    let a = chars_of(s);
    let b = chars_of(lit);
    same_chars(&a, &b)
}


/// The characters `s[from..to]` as a new vector.
pub fn slice_chars(s: &Vec<char>, from: usize, to: usize) -> (res: Vec<char>)
    requires
        from <= to <= s@.len(),
    ensures
        res@ == s@.subrange(from as int, to as int),
{
    let mut res: Vec<char> = Vec::new();
    let mut i: usize = from;
    while i < to
        invariant
            from <= i <= to <= s@.len(),
            res@ == s@.subrange(from as int, i as int),
        decreases to - i,
    {
        res.push(s[i]);
        i = i + 1;
    }
    res
}

// ---------------------------------------------------------------------------
// Whitespace and trimming (`char::is_whitespace`, `str::trim`)
// ---------------------------------------------------------------------------

/// The Unicode `White_Space` characters, which `char::is_whitespace` accepts.
pub open spec fn is_white(c: char) -> bool {
    ('\u{9}' <= c && c <= '\u{d}') || c == ' ' || c == '\u{85}' || c == '\u{a0}'
        || c == '\u{1680}' || ('\u{2000}' <= c && c <= '\u{200a}') || c == '\u{2028}'
        || c == '\u{2029}' || c == '\u{202f}' || c == '\u{205f}' || c == '\u{3000}'
}

/// `char::is_whitespace`.
pub fn is_white_char(c: char) -> (res: bool)
    ensures
        res == is_white(c),
{
    ('\u{9}' <= c && c <= '\u{d}') || c == ' ' || c == '\u{85}' || c == '\u{a0}'
        || c == '\u{1680}' || ('\u{2000}' <= c && c <= '\u{200a}') || c == '\u{2028}'
        || c == '\u{2029}' || c == '\u{202f}' || c == '\u{205f}' || c == '\u{3000}'
}

/// `s` without its leading whitespace.
pub open spec fn trim_start(s: Seq<char>) -> Seq<char>
    decreases s.len(),
{
    if s.len() > 0 && is_white(s[0]) {
        trim_start(s.drop_first())
    } else {
        s
    }
}

/// `s` without its trailing whitespace.
pub open spec fn trim_end(s: Seq<char>) -> Seq<char>
    decreases s.len(),
{
    if s.len() > 0 && is_white(s.last()) {
        trim_end(s.drop_last())
    } else {
        s
    }
}

/// `str::trim`: `s` without leading and trailing whitespace.
pub open spec fn trim(s: Seq<char>) -> Seq<char> {
    trim_end(trim_start(s))
}

/// `s` without the leading characters equal to `c` (`str::trim_start_matches`).
pub open spec fn trim_start_char(s: Seq<char>, c: char) -> Seq<char>
    decreases s.len(),
{
    if s.len() > 0 && s[0] == c {
        trim_start_char(s.drop_first(), c)
    } else {
        s
    }
}

/// `s` without the trailing characters equal to `c` (`str::trim_end_matches`).
pub open spec fn trim_end_char(s: Seq<char>, c: char) -> Seq<char>
    decreases s.len(),
{
    if s.len() > 0 && s.last() == c {
        trim_end_char(s.drop_last(), c)
    } else {
        s
    }
}

/// The bounds of `s[from..to]` once leading and trailing whitespace are dropped.
pub fn trim_bounds(s: &Vec<char>, from: usize, to: usize) -> (res: (usize, usize))
    requires
        from <= to <= s@.len(),
    ensures
        from <= res.0 <= res.1 <= to,
        s@.subrange(res.0 as int, res.1 as int) == trim(s@.subrange(from as int, to as int)),
{
    let mut a: usize = from;
    while a < to && is_white_char(s[a])
        invariant
            from <= a <= to <= s@.len(),
            trim_start(s@.subrange(from as int, to as int)) == trim_start(
                s@.subrange(a as int, to as int),
            ),
        decreases to - a,
    {
        assert(s@.subrange(a as int, to as int).drop_first() == s@.subrange(a + 1, to as int));
        a = a + 1;
    }
    let mut b: usize = to;
    while b > a && is_white_char(s[b - 1])
        invariant
            from <= a <= b <= to <= s@.len(),
            trim_end(s@.subrange(a as int, to as int)) == trim_end(s@.subrange(a as int, b as int)),
        decreases b - a,
    {
        assert(s@.subrange(a as int, b as int).drop_last() == s@.subrange(a as int, b - 1));
        b = b - 1;
    }
    (a, b)
}

/// `str::trim` as a new vector.
pub fn trimmed(s: &Vec<char>) -> (res: Vec<char>)
    ensures
        res@ == trim(s@),
{
    let (a, b) = trim_bounds(s, 0, s.len());
    assert(s@.subrange(0, s@.len() as int) == s@);
    slice_chars(s, a, b)
}

/// `trim_start_matches(c)` followed by `trim_end_matches(d)`, as a new vector.
pub fn trim_chars(s: &Vec<char>, c: char, d: char) -> (res: Vec<char>)
    ensures
        res@ == trim_end_char(trim_start_char(s@, c), d),
{
    let mut a: usize = 0;
    assert(s@.subrange(0, s@.len() as int) == s@);
    while a < s.len() && s[a] == c
        invariant
            0 <= a <= s@.len(),
            trim_start_char(s@, c) == trim_start_char(s@.subrange(a as int, s@.len() as int), c),
        decreases s.len() - a,
    {
        assert(s@.subrange(a as int, s@.len() as int).drop_first() == s@.subrange(
            a + 1,
            s@.len() as int,
        ));
        a = a + 1;
    }
    let mut b: usize = s.len();
    while b > a && s[b - 1] == d
        invariant
            0 <= a <= b <= s@.len(),
            trim_end_char(trim_start_char(s@, c), d) == trim_end_char(
                s@.subrange(a as int, b as int),
                d,
            ),
        decreases b - a,
    {
        assert(s@.subrange(a as int, b as int).drop_last() == s@.subrange(a as int, b - 1));
        b = b - 1;
    }
    slice_chars(s, a, b)
}

// ---------------------------------------------------------------------------
// Searching
// ---------------------------------------------------------------------------

/// The position of the last `c` in `s` (`str::rfind` with a `char`).
pub open spec fn last_index_of(s: Seq<char>, c: char) -> Option<int>
    decreases s.len(),
{
    if s.len() == 0 {
        None
    } else if s.last() == c {
        Some(s.len() - 1)
    } else {
        last_index_of(s.drop_last(), c)
    }
}

/// Finds the last `c` in `s`.
pub fn rfind_char(s: &Vec<char>, c: char) -> (res: Option<usize>)
    ensures
        match res {
            Some(i) => i < s.len() && s@[i as int] == c && last_index_of(s@, c) == Some(i as int),
            None => last_index_of(s@, c) == None::<int>,
        },
{
    let mut b: usize = s.len();
    assert(s@.subrange(0, s@.len() as int) == s@);
    while b > 0
        invariant
            0 <= b <= s@.len(),
            last_index_of(s@, c) == last_index_of(s@.subrange(0, b as int), c),
        decreases b,
    {
        if s[b - 1] == c {
            return Some(b - 1);
        }
        assert(s@.subrange(0, b as int).drop_last() == s@.subrange(0, b - 1));
        b = b - 1;
    }
    None
}

/// Whether `p` occurs in `s` starting at `i`.
pub open spec fn occurs_at(s: Seq<char>, p: Seq<char>, i: int) -> bool {
    0 <= i && i + p.len() <= s.len() && s.subrange(i, i + p.len()) == p
}

/// The first position at or after `k` where `p` occurs in `s`.
pub open spec fn find_from(s: Seq<char>, p: Seq<char>, k: int) -> Option<int>
    decreases s.len() + 1 - k,
{
    if k < 0 || k + p.len() > s.len() {
        None
    } else if occurs_at(s, p, k) {
        Some(k)
    } else {
        find_from(s, p, k + 1)
    }
}

/// What `find_from` gives: the first occurrence at or after `k`, if any.
pub proof fn lemma_find_from(s: Seq<char>, p: Seq<char>, k: int)
    requires
        0 <= k,
    ensures
        match find_from(s, p, k) {
            Some(i) => k <= i && occurs_at(s, p, i) && forall|j: int|
                k <= j < i ==> !occurs_at(s, p, j),
            None => forall|j: int| k <= j ==> !occurs_at(s, p, j),
        },
    decreases s.len() + 1 - k,
{
    if k + p.len() > s.len() {
    } else if occurs_at(s, p, k) {
    } else {
        lemma_find_from(s, p, k + 1);
    }
}

/// Whether `p` occurs in `s` at `i`.
pub fn matches_at(s: &Vec<char>, p: &Vec<char>, i: usize) -> (res: bool)
    ensures
        res == occurs_at(s@, p@, i as int),
{
    if i > s.len() || p.len() > s.len() - i {
        return false;
    }
    let mut k: usize = 0;
    while k < p.len()
        invariant
            i + p@.len() <= s@.len(),
            i + p.len() <= s.len(),
            0 <= k <= p@.len(),
            forall|j: int| 0 <= j < k ==> s@[i + j] == p@[j],
        decreases p.len() - k,
    {
        if s[i + k] != p[k] {
            assert(s@.subrange(i as int, i + p@.len())[k as int] != p@[k as int]);
            return false;
        }
        k = k + 1;
    }
    assert(s@.subrange(i as int, i + p@.len()) =~= p@);
    true
}

/// Finds the first occurrence of `p` in `s` at or after `k`.
pub fn find_chars(s: &Vec<char>, p: &Vec<char>, k: usize) -> (res: Option<usize>)
    ensures
        res == match find_from(s@, p@, k as int) {
            Some(i) => Some(i as usize),
            None => None::<usize>,
        },
{
    if p.len() == 0 {
        if k <= s.len() {
            assert(s@.subrange(k as int, k as int) =~= p@);
            assert(occurs_at(s@, p@, k as int));
            return Some(k);
        }
        return None;
    }
    let mut i: usize = k;
    while i <= s.len() && p.len() <= s.len() - i
        invariant
            k <= i,
            p@.len() > 0,
            find_from(s@, p@, k as int) == find_from(s@, p@, i as int),
        decreases s.len() + 1 - i,
    {
        if matches_at(s, p, i) {
            return Some(i);
        }
        i = i + 1;
    }
    None
}


// ---------------------------------------------------------------------------
// Splitting (`str::lines`, `str::split_whitespace`, `str::split`)
// ---------------------------------------------------------------------------

/// The views of a vector of character vectors.
pub open spec fn views(v: Seq<Vec<char>>) -> Seq<Seq<char>> {
    v.map_values(|x: Vec<char>| x@)
}

/// A line without the `\r` of a `\r\n` ending.
pub open spec fn strip_cr(l: Seq<char>) -> Seq<char> {
    if l.len() > 0 && l.last() == '\r' {
        l.drop_last()
    } else {
        l
    }
}

/// The lines completed so far and the line in progress after reading `s`.
pub open spec fn lines_state(s: Seq<char>) -> (Seq<Seq<char>>, Seq<char>)
    decreases s.len(),
{
    if s.len() == 0 {
        (seq![], seq![])
    } else {
        let prev = lines_state(s.drop_last());
        if s.last() == '\n' {
            (prev.0.push(strip_cr(prev.1)), seq![])
        } else {
            (prev.0, prev.1.push(s.last()))
        }
    }
}

/// `str::lines`: the pieces of `s` between `\n` line endings, each without a
/// `\r` that precedes its `\n`; a final line ending adds no empty line.
pub open spec fn lines(s: Seq<char>) -> Seq<Seq<char>> {
    let st = lines_state(s);
    if st.1.len() == 0 {
        st.0
    } else {
        st.0.push(st.1)
    }
}

/// The spans of the lines completed so far and the start of the line in
/// progress after reading `s`: a line's span runs from its first character to
/// its `\n`, or to the `\r` before its `\n`.
pub open spec fn spans_state(s: Seq<char>) -> (Seq<(int, int)>, int)
    decreases s.len(),
{
    if s.len() == 0 {
        (seq![], 0)
    } else {
        let prev = spans_state(s.drop_last());
        if s.last() == '\n' {
            let e = s.len() - 1;
            let end = if e > prev.1 && s[e - 1] == '\r' {
                e - 1
            } else {
                e
            };
            (prev.0.push((prev.1, end)), s.len() as int)
        } else {
            prev
        }
    }
}

/// Where the lines of `str::lines` stand in `s`: line `i` is
/// `s[line_spans(s)[i].0 .. line_spans(s)[i].1]`, and its line ending follows.
pub open spec fn line_spans(s: Seq<char>) -> Seq<(int, int)> {
    let st = spans_state(s);
    if st.1 < s.len() {
        st.0.push((st.1, s.len() as int))
    } else {
        st.0
    }
}

proof fn lemma_spans_state(s: Seq<char>)
    ensures
        0 <= spans_state(s).1 <= s.len(),
        lines_state(s).1 == s.subrange(spans_state(s).1, s.len() as int),
        lines_state(s).0.len() == spans_state(s).0.len(),
        forall|j: int|
            0 <= j < spans_state(s).0.len() ==> {
                let sp = #[trigger] spans_state(s).0[j];
                &&& 0 <= sp.0 <= sp.1 <= spans_state(s).1
                &&& lines_state(s).0[j] == s.subrange(sp.0, sp.1)
            },
    decreases s.len(),
{
    if s.len() > 0 {
        let t = s.drop_last();
        lemma_spans_state(t);
        let pl = lines_state(t);
        let ps = spans_state(t);
        assert forall|x: int, y: int| 0 <= x <= y <= t.len() implies t.subrange(x, y) == s.subrange(
            x,
            y,
        ) by {
            assert(t.subrange(x, y) =~= s.subrange(x, y));
        }
        if s.last() == '\n' {
            let e = s.len() - 1;
            if e > ps.1 && s[e - 1] == '\r' {
                assert(pl.1.len() > 0);
                assert(pl.1.last() == s[e - 1]);
                assert(pl.1.drop_last() =~= t.subrange(ps.1, e - 1));
            } else {
                assert(pl.1 == t.subrange(ps.1, e));
            }
            assert(s.subrange(s.len() as int, s.len() as int) =~= Seq::<char>::empty());
            let sp2 = spans_state(s).0;
            assert forall|j: int| 0 <= j < sp2.len() implies {
                let sp = #[trigger] sp2[j];
                &&& 0 <= sp.0 <= sp.1 <= spans_state(s).1
                &&& lines_state(s).0[j] == s.subrange(sp.0, sp.1)
            } by {
                if j < ps.0.len() {
                    assert(sp2[j] == ps.0[j]);
                    assert(lines_state(s).0[j] == pl.0[j]);
                }
            }
        } else {
            assert(pl.1.push(s.last()) =~= s.subrange(ps.1, s.len() as int));
            let sp2 = spans_state(s).0;
            assert forall|j: int| 0 <= j < sp2.len() implies {
                let sp = #[trigger] sp2[j];
                &&& 0 <= sp.0 <= sp.1 <= spans_state(s).1
                &&& lines_state(s).0[j] == s.subrange(sp.0, sp.1)
            } by {
                assert(sp2[j] == ps.0[j]);
                assert(lines_state(s).0[j] == pl.0[j]);
            }
        }
    }
}

/// Line `i` of `str::lines` is the text at its span, and the spans lie in `s`.
pub proof fn lemma_line_spans(s: Seq<char>)
    ensures
        line_spans(s).len() == lines(s).len(),
        forall|i: int|
            0 <= i < line_spans(s).len() ==> {
                let sp = #[trigger] line_spans(s)[i];
                &&& 0 <= sp.0 <= sp.1 <= s.len()
                &&& lines(s)[i] == s.subrange(sp.0, sp.1)
            },
{
    lemma_spans_state(s);
    let st = spans_state(s);
    let ls = lines_state(s);
    if st.1 < s.len() {
        assert(ls.1.len() > 0);
    } else {
        assert(ls.1.len() == 0);
    }
    assert forall|i: int| 0 <= i < line_spans(s).len() implies {
        let sp = #[trigger] line_spans(s)[i];
        &&& 0 <= sp.0 <= sp.1 <= s.len()
        &&& lines(s)[i] == s.subrange(sp.0, sp.1)
    } by {
        if i < st.0.len() {
            assert(line_spans(s)[i] == st.0[i]);
            assert(lines(s)[i] == ls.0[i]);
        }
    }
}

/// The spans of the lines of `s`, as `line_spans` gives them.
pub fn spans_of_lines(s: &Vec<char>) -> (res: Vec<(usize, usize)>)
    ensures
        res@.len() == line_spans(s@).len(),
        forall|i: int|
            0 <= i < res@.len() ==> (#[trigger] res@[i]).0 as int == line_spans(s@)[i].0
                && res@[i].1 as int == line_spans(s@)[i].1,
{
    let mut done: Vec<(usize, usize)> = Vec::new();
    let mut start: usize = 0;
    let mut i: usize = 0;
    while i < s.len()
        invariant
            0 <= i <= s@.len(),
            start as int == spans_state(s@.take(i as int)).1,
            start <= i,
            done@.len() == spans_state(s@.take(i as int)).0.len(),
            forall|k: int|
                0 <= k < done@.len() ==> (#[trigger] done@[k]).0 as int == spans_state(
                    s@.take(i as int),
                ).0[k].0 && done@[k].1 as int == spans_state(s@.take(i as int)).0[k].1,
        decreases s.len() - i,
    {
        let ghost t = s@.take(i + 1);
        assert(t.drop_last() == s@.take(i as int));
        assert(t.last() == s@[i as int]);
        if s[i] == '\n' {
            assert(forall|k: int| 0 <= k < i ==> t[k] == s@[k]);
            let end = if i > start && s[i - 1] == '\r' {
                i - 1
            } else {
                i
            };
            let ghost before = done@;
            done.push((start, end));
            assert forall|k: int| 0 <= k < done@.len() implies (#[trigger] done@[k]).0 as int
                == spans_state(t).0[k].0 && done@[k].1 as int == spans_state(t).0[k].1 by {
                if k < before.len() {
                    assert(done@[k] == before[k]);
                }
            }
            start = i + 1;
        }
        i = i + 1;
    }
    assert(s@.take(s@.len() as int) == s@);
    if start < s.len() {
        let ghost before = done@;
        done.push((start, s.len()));
        assert forall|k: int| 0 <= k < done@.len() implies (#[trigger] done@[k]).0 as int
            == line_spans(s@)[k].0 && done@[k].1 as int == line_spans(s@)[k].1 by {
            if k < before.len() {
                assert(done@[k] == before[k]);
            }
        }
    }
    done
}

/// Splits `s` into lines as `str::lines` does.
pub fn split_lines(s: &Vec<char>) -> (res: Vec<Vec<char>>)
    ensures
        views(res@) == lines(s@),
{
    let mut done: Vec<Vec<char>> = Vec::new();
    let mut cur: Vec<char> = Vec::new();
    let mut i: usize = 0;
    while i < s.len()
        invariant
            0 <= i <= s@.len(),
            views(done@) == lines_state(s@.take(i as int)).0,
            cur@ == lines_state(s@.take(i as int)).1,
        decreases s.len() - i,
    {
        let c = s[i];
        assert(s@.take(i + 1).drop_last() == s@.take(i as int));
        if c == '\n' {
            if cur.len() > 0 && cur[cur.len() - 1] == '\r' {
                cur.pop();
            }
            let ghost before = done@;
            done.push(cur);
            assert(views(done@) == views(before).push(done@.last()@));
            cur = Vec::new();
        } else {
            cur.push(c);
        }
        i = i + 1;
    }
    assert(s@.take(s@.len() as int) == s@);
    if cur.len() > 0 {
        let ghost before = done@;
        done.push(cur);
        assert(views(done@) == views(before).push(done@.last()@));
    }
    done
}

/// The words completed so far and the word in progress after reading `s`.
pub open spec fn words_state(s: Seq<char>) -> (Seq<Seq<char>>, Seq<char>)
    decreases s.len(),
{
    if s.len() == 0 {
        (seq![], seq![])
    } else {
        let prev = words_state(s.drop_last());
        if is_white(s.last()) {
            if prev.1.len() > 0 {
                (prev.0.push(prev.1), seq![])
            } else {
                prev
            }
        } else {
            (prev.0, prev.1.push(s.last()))
        }
    }
}

/// `str::split_whitespace`: the maximal runs of non-whitespace characters.
pub open spec fn words(s: Seq<char>) -> Seq<Seq<char>> {
    let st = words_state(s);
    if st.1.len() == 0 {
        st.0
    } else {
        st.0.push(st.1)
    }
}

/// Splits `s` at whitespace as `str::split_whitespace` does.
pub fn split_words(s: &Vec<char>) -> (res: Vec<Vec<char>>)
    ensures
        views(res@) == words(s@),
{
    let mut done: Vec<Vec<char>> = Vec::new();
    let mut cur: Vec<char> = Vec::new();
    let mut i: usize = 0;
    while i < s.len()
        invariant
            0 <= i <= s@.len(),
            views(done@) == words_state(s@.take(i as int)).0,
            cur@ == words_state(s@.take(i as int)).1,
        decreases s.len() - i,
    {
        let c = s[i];
        assert(s@.take(i + 1).drop_last() == s@.take(i as int));
        if is_white_char(c) {
            if cur.len() > 0 {
                let ghost before = done@;
                done.push(cur);
                assert(views(done@) == views(before).push(done@.last()@));
                cur = Vec::new();
            }
        } else {
            cur.push(c);
        }
        i = i + 1;
    }
    assert(s@.take(s@.len() as int) == s@);
    if cur.len() > 0 {
        let ghost before = done@;
        done.push(cur);
        assert(views(done@) == views(before).push(done@.last()@));
    }
    done
}

/// The pieces completed so far and the piece in progress after reading `s`,
/// cutting at every character that occurs in `seps`.
pub open spec fn split_any_state(s: Seq<char>, seps: Seq<char>) -> (Seq<Seq<char>>, Seq<char>)
    decreases s.len(),
{
    if s.len() == 0 {
        (seq![], seq![])
    } else {
        let prev = split_any_state(s.drop_last(), seps);
        if seps.contains(s.last()) {
            (prev.0.push(prev.1), seq![])
        } else {
            (prev.0, prev.1.push(s.last()))
        }
    }
}

/// `str::split` with a set of separator characters (empty pieces kept).
pub open spec fn split_any(s: Seq<char>, seps: Seq<char>) -> Seq<Seq<char>> {
    split_any_state(s, seps).0.push(split_any_state(s, seps).1)
}

/// Whether `c` occurs in `seps`.
pub fn has_char(seps: &Vec<char>, c: char) -> (res: bool)
    ensures
        res == seps@.contains(c),
{
    let mut i: usize = 0;
    while i < seps.len()
        invariant
            0 <= i <= seps@.len(),
            forall|k: int| 0 <= k < i ==> seps@[k] != c,
        decreases seps.len() - i,
    {
        if seps[i] == c {
            assert(seps@[i as int] == c);
            return true;
        }
        i = i + 1;
    }
    false
}

/// Splits `s` at every character of `seps`.
pub fn split_at_any(s: &Vec<char>, seps: &Vec<char>) -> (res: Vec<Vec<char>>)
    ensures
        views(res@) == split_any(s@, seps@),
{
    let mut done: Vec<Vec<char>> = Vec::new();
    let mut cur: Vec<char> = Vec::new();
    let mut i: usize = 0;
    while i < s.len()
        invariant
            0 <= i <= s@.len(),
            views(done@) == split_any_state(s@.take(i as int), seps@).0,
            cur@ == split_any_state(s@.take(i as int), seps@).1,
        decreases s.len() - i,
    {
        assert(s@.take(i + 1).drop_last() == s@.take(i as int));
        if has_char(seps, s[i]) {
            let ghost before = done@;
            done.push(cur);
            assert(views(done@) == views(before).push(done@.last()@));
            cur = Vec::new();
        } else {
            cur.push(s[i]);
        }
        i = i + 1;
    }
    assert(s@.take(s@.len() as int) == s@);
    let ghost before = done@;
    done.push(cur);
    assert(views(done@) == views(before).push(done@.last()@));
    done
}

/// Whether `s` ends with `p`.
pub open spec fn ends_with(s: Seq<char>, p: Seq<char>) -> bool {
    s.len() >= p.len() && s.subrange(s.len() - p.len(), s.len() as int) == p
}

/// The pieces completed so far and the piece in progress after reading `s`,
/// cutting at each occurrence of the non-empty separator `p` from left to right.
pub open spec fn split_state(s: Seq<char>, p: Seq<char>) -> (Seq<Seq<char>>, Seq<char>)
    decreases s.len(),
{
    if s.len() == 0 {
        (seq![], seq![])
    } else {
        let prev = split_state(s.drop_last(), p);
        let cur = prev.1.push(s.last());
        if p.len() > 0 && ends_with(cur, p) {
            (prev.0.push(cur.subrange(0, cur.len() - p.len())), seq![])
        } else {
            (prev.0, cur)
        }
    }
}

/// `str::split` with a non-empty separator: the pieces between its
/// non-overlapping occurrences, found from left to right (empty pieces kept).
pub open spec fn split_on(s: Seq<char>, p: Seq<char>) -> Seq<Seq<char>> {
    split_state(s, p).0.push(split_state(s, p).1)
}

/// Splits `s` at each occurrence of the non-empty separator `p`.
pub fn split_chars(s: &Vec<char>, p: &Vec<char>) -> (res: Vec<Vec<char>>)
    requires
        p@.len() > 0,
    ensures
        views(res@) == split_on(s@, p@),
{
    let mut done: Vec<Vec<char>> = Vec::new();
    let mut cur: Vec<char> = Vec::new();
    let mut i: usize = 0;
    while i < s.len()
        invariant
            0 <= i <= s@.len(),
            p@.len() > 0,
            views(done@) == split_state(s@.take(i as int), p@).0,
            cur@ == split_state(s@.take(i as int), p@).1,
        decreases s.len() - i,
    {
        assert(s@.take(i + 1).drop_last() == s@.take(i as int));
        cur.push(s[i]);
        if cur.len() >= p.len() && matches_at(&cur, p, cur.len() - p.len()) {
            let n = cur.len() - p.len();
            cur.truncate(n);
            let ghost before = done@;
            done.push(cur);
            assert(views(done@) == views(before).push(done@.last()@));
            cur = Vec::new();
        }
        i = i + 1;
    }
    assert(s@.take(s@.len() as int) == s@);
    let ghost before = done@;
    done.push(cur);
    assert(views(done@) == views(before).push(done@.last()@));
    done
}

/// `s` with the `len` characters starting at `at` replaced by `r`.
pub open spec fn splice(s: Seq<char>, at: int, len: int, r: Seq<char>) -> Seq<char> {
    s.take(at) + r + s.skip(at + len)
}

/// Replaces the `len` characters of `s` starting at `at` by `r`.
pub fn splice_chars(s: &Vec<char>, at: usize, len: usize, r: &Vec<char>) -> (res: Vec<char>)
    requires
        at + len <= s@.len(),
    ensures
        res@ == splice(s@, at as int, len as int, r@),
{
    let n = s.len();
    let mut out = slice_chars(s, 0, at);
    let mut k: usize = 0;
    while k < r.len()
        invariant
            0 <= k <= r@.len(),
            n == s@.len(),
            at + len <= s@.len(),
            out@ == s@.take(at as int) + r@.subrange(0, k as int),
        decreases r.len() - k,
    {
        out.push(r[k]);
        k = k + 1;
    }
    assert(r@.subrange(0, r@.len() as int) == r@);
    let mut k: usize = at + len;
    while k < s.len()
        invariant
            at + len <= k <= s@.len(),
            out@ == s@.take(at as int) + r@ + s@.subrange(at + len, k as int),
        decreases s.len() - k,
    {
        out.push(s[k]);
        k = k + 1;
    }
    assert(s@.subrange(at + len, s@.len() as int) == s@.skip(at + len));
    out
}


} // verus!
