//! Stable sorting by a key made of a port and a text, as `sort_by` with
//! `port.cmp(..).then(text.cmp(..))` orders records.
use vstd::prelude::*;

verus! {

/// Lexicographic order of character sequences (the order of `str::cmp`).
pub open spec fn lex_lt(a: Seq<char>, b: Seq<char>) -> bool
    decreases a.len(),
{
    if a.len() == 0 {
        b.len() > 0
    } else if b.len() == 0 {
        false
    } else if a[0] != b[0] {
        a[0] < b[0]
    } else {
        lex_lt(a.drop_first(), b.drop_first())
    }
}

/// A sort key: a port, then a text that orders records with the same port.
pub type SortKey = (u16, Seq<char>);

/// The strict order of sort keys.
pub open spec fn key_lt(a: SortKey, b: SortKey) -> bool {
    a.0 < b.0 || (a.0 == b.0 && lex_lt(a.1, b.1))
}

/// Whether record `i` comes before record `j` in a stable sort by `keys`:
/// a smaller key first, and among equal keys the earlier record first.
pub open spec fn placed_before(keys: Seq<SortKey>, i: int, j: int) -> bool {
    key_lt(keys[i], keys[j]) || (keys[i] == keys[j] && i < j)
}

/// Whether position `j` occurs in `p`.
pub open spec fn lists(p: Seq<usize>, j: int) -> bool {
    exists|k: int| 0 <= k < p.len() && p[k] == j
}

/// `p` lists the positions of `keys` in the order of a stable sort by key.
pub open spec fn is_stable_order(keys: Seq<SortKey>, p: Seq<usize>) -> bool {
    &&& p.len() == keys.len()
    &&& forall|k: int| 0 <= k < p.len() ==> #[trigger] p[k] < keys.len()
    &&& forall|j: int| 0 <= j < keys.len() ==> #[trigger] lists(p, j)
    &&& forall|a: int, b: int|
        #![trigger p[a], p[b]]
        0 <= a < b < p.len() ==> placed_before(keys, p[a] as int, p[b] as int)
}

/// `out` is `items` stably sorted by `keys` (the key of `items[i]` is `keys[i]`).
pub open spec fn is_stable_sort_of<T>(out: Seq<T>, items: Seq<T>, keys: Seq<SortKey>) -> bool {
    exists|p: Seq<usize>|
        #![trigger is_stable_order(keys, p)]
        is_stable_order(keys, p) && out.len() == p.len() && forall|k: int|
            0 <= k < out.len() ==> #[trigger] out[k] == items[p[k] as int]
}

/// The order is irreflexive.
pub proof fn lemma_lex_irreflexive(a: Seq<char>)
    ensures
        !lex_lt(a, a),
    decreases a.len(),
{
    if a.len() > 0 {
        lemma_lex_irreflexive(a.drop_first());
    }
}

/// The order is transitive.
pub proof fn lemma_lex_transitive(a: Seq<char>, b: Seq<char>, c: Seq<char>)
    requires
        lex_lt(a, b),
        lex_lt(b, c),
    ensures
        lex_lt(a, c),
    decreases a.len(),
{
    if a.len() > 0 && b.len() > 0 && c.len() > 0 && a[0] == b[0] && b[0] == c[0] {
        lemma_lex_transitive(a.drop_first(), b.drop_first(), c.drop_first());
    }
}

/// Any two sequences are equal or ordered one way.
pub proof fn lemma_lex_total(a: Seq<char>, b: Seq<char>)
    ensures
        a == b || lex_lt(a, b) || lex_lt(b, a),
    decreases a.len(),
{
    if a.len() > 0 && b.len() > 0 && a[0] == b[0] {
        lemma_lex_total(a.drop_first(), b.drop_first());
        if a.drop_first() == b.drop_first() {
            assert(a =~= seq![a[0]] + a.drop_first());
            assert(b =~= seq![b[0]] + b.drop_first());
        }
    } else if a.len() == 0 && b.len() == 0 {
        assert(a =~= b);
    }
}

/// The key order is a strict total order.
pub proof fn lemma_key_order(a: SortKey, b: SortKey, c: SortKey)
    ensures
        !key_lt(a, a),
        key_lt(a, b) && key_lt(b, c) ==> key_lt(a, c),
        a == b || key_lt(a, b) || key_lt(b, a),
{
    lemma_lex_irreflexive(a.1);
    if key_lt(a, b) && key_lt(b, c) && a.0 == b.0 && b.0 == c.0 {
        lemma_lex_transitive(a.1, b.1, c.1);
    }
    lemma_lex_total(a.1, b.1);
}

/// The views of exec sort keys.
pub open spec fn key_views(keys: Seq<(u16, Vec<char>)>) -> Seq<SortKey> {
    keys.map_values(|k: (u16, Vec<char>)| (k.0, k.1@))
}

/// Whether `a` comes strictly before `b` in lexicographic order.
pub fn chars_less(a: &Vec<char>, b: &Vec<char>) -> (res: bool)
    ensures
        res == lex_lt(a@, b@),
{
    let mut i: usize = 0;
    assert(a@.skip(0) == a@);
    assert(b@.skip(0) == b@);
    while i < a.len() && i < b.len() && a[i] == b[i]
        invariant
            0 <= i <= a@.len(),
            i <= b@.len(),
            lex_lt(a@, b@) == lex_lt(a@.skip(i as int), b@.skip(i as int)),
        decreases a.len() - i,
    {
        assert(a@.skip(i as int).drop_first() == a@.skip(i + 1));
        assert(b@.skip(i as int).drop_first() == b@.skip(i + 1));
        i = i + 1;
    }
    if i == a.len() {
        i < b.len()
    } else if i == b.len() {
        false
    } else {
        a[i] < b[i]
    }
}

/// Whether key `a` comes strictly before key `b`.
pub fn key_less(a: &(u16, Vec<char>), b: &(u16, Vec<char>)) -> (res: bool)
    ensures
        res == key_lt((a.0, a.1@), (b.0, b.1@)),
{
    a.0 < b.0 || (a.0 == b.0 && chars_less(&a.1, &b.1))
}

/// The positions of `keys` in the order of a stable sort by key.
pub fn stable_order(keys: &Vec<(u16, Vec<char>)>) -> (p: Vec<usize>)
    ensures
        is_stable_order(key_views(keys@), p@),
{
    let ghost kv = key_views(keys@);
    let n = keys.len();
    let mut p: Vec<usize> = Vec::new();
    let mut i: usize = 0;
    while i < n
        invariant
            n == keys@.len(),
            kv == key_views(keys@),
            kv.len() == n,
            0 <= i <= n,
            p@.len() == i,
            forall|k: int| 0 <= k < p@.len() ==> #[trigger] p@[k] < i,
            forall|j: int| 0 <= j < i ==> #[trigger] lists(p@, j),
            forall|a: int, b: int|
                #![trigger p@[a], p@[b]]
                0 <= a < b < p@.len() ==> placed_before(kv, p@[a] as int, p@[b] as int),
        decreases n - i,
    {
        let mut pos: usize = 0;
        while pos < p.len() && !key_less(&keys[i], &keys[p[pos]])
            invariant
                n == keys@.len(),
                kv == key_views(keys@),
                0 <= i < n,
                0 <= pos <= p@.len(),
                p@.len() == i,
                forall|k: int| 0 <= k < p@.len() ==> #[trigger] p@[k] < i,
                forall|k: int| 0 <= k < pos ==> !key_lt(kv[i as int], kv[#[trigger] p@[k] as int]),
            decreases p.len() - pos,
        {
            pos = pos + 1;
        }
        let ghost old_p = p@;
        proof {
            assert forall|k: int| pos <= k < old_p.len() implies key_lt(
                kv[i as int],
                kv[#[trigger] old_p[k] as int],
            ) by {
                if k > pos {
                    assert(placed_before(kv, old_p[pos as int] as int, old_p[k] as int));
                    lemma_key_order(kv[i as int], kv[old_p[pos as int] as int], kv[old_p[k] as int]);
                }
            }
            assert forall|k: int| 0 <= k < pos implies placed_before(
                kv,
                #[trigger] old_p[k] as int,
                i as int,
            ) by {
                lemma_key_order(kv[i as int], kv[old_p[k] as int], kv[i as int]);
            }
        }
        p.insert(pos, i);
        assert(p@ == old_p.insert(pos as int, i));
        assert forall|a: int, b: int|
            #![trigger p@[a], p@[b]]
            0 <= a < b < p@.len() implies placed_before(kv, p@[a] as int, p@[b] as int) by {
            if b < pos {
                assert(p@[a] == old_p[a] && p@[b] == old_p[b]);
            } else if b == pos {
                assert(p@[a] == old_p[a]);
            } else if a < pos {
                assert(p@[a] == old_p[a] && p@[b] == old_p[b - 1]);
            } else if a == pos {
                assert(p@[b] == old_p[b - 1]);
            } else {
                assert(p@[a] == old_p[a - 1] && p@[b] == old_p[b - 1]);
            }
        }
        assert forall|j: int| 0 <= j < i + 1 implies #[trigger] lists(p@, j) by {
            if j == i {
                assert(p@[pos as int] == j);
            } else {
                assert(lists(old_p, j));
                let k = choose|k: int| 0 <= k < old_p.len() && old_p[k] == j;
                if k < pos {
                    assert(p@[k] == j);
                } else {
                    assert(p@[k + 1] == j);
                }
            }
        }
        assert forall|k: int| 0 <= k < p@.len() implies #[trigger] p@[k] < i + 1 by {
            if k < pos {
                assert(p@[k] == old_p[k]);
            } else if k > pos {
                assert(p@[k] == old_p[k - 1]);
            }
        }
        i = i + 1;
    }
    p
}

} // verus!
