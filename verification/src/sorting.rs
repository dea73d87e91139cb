//! Ordering rows by a pair of keys: the first key descending, then the
//! second key ascending, then the row's position ascending (a stable sort).
use vstd::prelude::*;

verus! {

/// Row `a` comes before row `b`.
pub open spec fn precedes(keys: Seq<(i64, i64)>, a: int, b: int) -> bool {
    ||| keys[a].0 > keys[b].0
    ||| (keys[a].0 == keys[b].0 && keys[a].1 < keys[b].1)
    ||| (keys[a].0 == keys[b].0 && keys[a].1 == keys[b].1 && a < b)
}

/// `ord` lists every row exactly once, in the order `precedes` sets.
pub open spec fn sorted_by(keys: Seq<(i64, i64)>, ord: Seq<usize>) -> bool {
    &&& ord.len() == keys.len()
    &&& forall|i: int| 0 <= i < ord.len() ==> #[trigger] ord[i] < keys.len()
    &&& forall|x: usize| x < keys.len() ==> #[trigger] ord.contains(x)
    &&& forall|i: int, j: int|
        0 <= i < j < ord.len() ==> precedes(keys, #[trigger] ord[i] as int, #[trigger] ord[j] as int)
}

/// The rows in sorted order (there is exactly one such sequence, see
/// `lemma_sorted_unique`).
pub open spec fn sorted_order(keys: Seq<(i64, i64)>) -> Seq<usize> {
    choose|ord: Seq<usize>| sorted_by(keys, ord)
}

proof fn lemma_precedes_transitive(keys: Seq<(i64, i64)>, a: int, b: int, c: int)
    requires
        precedes(keys, a, b),
        precedes(keys, b, c),
    ensures
        precedes(keys, a, c),
{
}

/// At most one sequence lists the rows in sorted order.
pub proof fn lemma_sorted_unique(keys: Seq<(i64, i64)>, o1: Seq<usize>, o2: Seq<usize>)
    requires
        sorted_by(keys, o1),
        sorted_by(keys, o2),
    ensures
        o1 == o2,
{
    if o1.len() > 0 {
        lemma_sorted_prefix(keys, o1, o2, o1.len() - 1);
    }
    assert(o1 =~= o2);
}

/// Two sorted listings agree on every position up to `k`.
proof fn lemma_sorted_prefix(keys: Seq<(i64, i64)>, o1: Seq<usize>, o2: Seq<usize>, k: int)
    requires
        sorted_by(keys, o1),
        sorted_by(keys, o2),
        0 <= k < o1.len(),
    ensures
        forall|m: int| 0 <= m <= k ==> o1[m] == o2[m],
    decreases k,
{
    if k > 0 {
        lemma_sorted_prefix(keys, o1, o2, k - 1);
    }
    if o1[k] != o2[k] {
        let a = o1[k];
        let b = o2[k];
        assert(o1.contains(b));
        let p = choose|p: int| 0 <= p < o1.len() && o1[p] == b;
        assert(o2.contains(a));
        let q = choose|q: int| 0 <= q < o2.len() && o2[q] == a;
        if p < k {
            assert(o1[p] == o2[p]);
            assert(precedes(keys, o2[p] as int, o2[k] as int));
        }
        if q < k {
            assert(o1[q] == o2[q]);
            assert(precedes(keys, o1[q] as int, o1[k] as int));
        }
        assert(p > k);
        assert(q > k);
        assert(precedes(keys, o1[k] as int, o1[p] as int));
        assert(precedes(keys, o2[k] as int, o2[q] as int));
    }
}

/// The rows below `x` in sorted order: `ord` lists each of them once, in the
/// order `precedes` sets.
pub open spec fn sorts_prefix(keys: Seq<(i64, i64)>, ord: Seq<usize>, x: int) -> bool {
    &&& ord.len() == x
    &&& forall|i: int| 0 <= i < ord.len() ==> #[trigger] ord[i] < x
    &&& forall|y: usize| y < x ==> #[trigger] ord.contains(y)
    &&& forall|i: int, j: int|
        0 <= i < j < ord.len() ==> precedes(keys, #[trigger] ord[i] as int, #[trigger] ord[j] as int)
}

/// The first place in `ord`, from `i` on, whose row does not come before
/// row `x`.
proof fn lemma_first_not_before(keys: Seq<(i64, i64)>, ord: Seq<usize>, x: int, i: int) -> (p: int)
    requires
        0 <= i <= ord.len(),
        forall|j: int| 0 <= j < i ==> precedes(keys, #[trigger] ord[j] as int, x),
    ensures
        i <= p <= ord.len(),
        forall|j: int| 0 <= j < p ==> precedes(keys, #[trigger] ord[j] as int, x),
        p < ord.len() ==> !precedes(keys, ord[p] as int, x),
    decreases ord.len() - i,
{
    if i == ord.len() || !precedes(keys, ord[i] as int, x) {
        i
    } else {
        lemma_first_not_before(keys, ord, x, i + 1)
    }
}

/// The rows below `x` can be put in sorted order.
proof fn lemma_prefix_sortable(keys: Seq<(i64, i64)>, x: int) -> (ord: Seq<usize>)
    requires
        0 <= x <= keys.len(),
        keys.len() <= usize::MAX,
    ensures
        sorts_prefix(keys, ord, x),
    decreases x,
{
    if x == 0 {
        Seq::empty()
    } else {
        let old_ord = lemma_prefix_sortable(keys, x - 1);
        let xu = (x - 1) as usize;
        let p = lemma_first_not_before(keys, old_ord, x - 1, 0);
        let ord = old_ord.insert(p, xu);
        if p < old_ord.len() {
            assert(precedes(keys, x - 1, old_ord[p] as int));
        }
        assert forall|i: int, j: int| 0 <= i < j < ord.len() implies precedes(
            keys,
            #[trigger] ord[i] as int,
            #[trigger] ord[j] as int,
        ) by {
            if i < p && j == p {
            } else if i < p && j > p {
                assert(ord[j] == old_ord[j - 1]);
            } else if i == p && j > p {
                assert(ord[j] == old_ord[j - 1]);
                if j - 1 > p {
                    assert(precedes(keys, old_ord[p] as int, old_ord[j - 1] as int));
                    lemma_precedes_transitive(keys, x - 1, old_ord[p] as int, old_ord[j - 1] as int);
                }
            } else if i > p {
                assert(ord[i] == old_ord[i - 1]);
                assert(ord[j] == old_ord[j - 1]);
            }
        }
        assert forall|y: usize| y < x implies #[trigger] ord.contains(y) by {
            if y < x - 1 {
                assert(old_ord.contains(y));
                let k = choose|k: int| 0 <= k < old_ord.len() && old_ord[k] == y;
                if k < p {
                    assert(ord[k] == y);
                } else {
                    assert(ord[k + 1] == y);
                }
            } else {
                assert(ord[p] == y);
            }
        }
        assert forall|i: int| 0 <= i < ord.len() implies #[trigger] ord[i] < x by {
            if i < p {
                assert(ord[i] == old_ord[i]);
            } else if i > p {
                assert(ord[i] == old_ord[i - 1]);
            }
        }
        ord
    }
}

/// `sorted_order` puts the rows in sorted order.
pub proof fn lemma_sorted_order(keys: Seq<(i64, i64)>)
    requires
        keys.len() <= usize::MAX,
    ensures
        sorted_by(keys, sorted_order(keys)),
{
    let ord = lemma_prefix_sortable(keys, keys.len() as int);
    assert(sorted_by(keys, ord));
}

/// Whether row `a` comes before row `b`.
fn row_precedes(keys: &Vec<(i64, i64)>, a: usize, b: usize) -> (r: bool)
    requires
        a < keys@.len(),
        b < keys@.len(),
    ensures
        r == precedes(keys@, a as int, b as int),
{
    let ka = keys[a];
    let kb = keys[b];
    ka.0 > kb.0 || (ka.0 == kb.0 && ka.1 < kb.1) || (ka.0 == kb.0 && ka.1 == kb.1 && a < b)
}

/// The positions of the rows, in sorted order (an insertion sort).
pub fn sort_rows(keys: &Vec<(i64, i64)>) -> (ord: Vec<usize>)
    ensures
        sorted_by(keys@, ord@),
        ord@ == sorted_order(keys@),
{
    let n = keys.len();
    let mut ord: Vec<usize> = Vec::new();
    let mut x: usize = 0;
    while x < n
        invariant
            n == keys@.len(),
            x <= n,
            ord@.len() == x,
            forall|i: int| 0 <= i < ord@.len() ==> #[trigger] ord@[i] < x,
            forall|y: usize| y < x ==> #[trigger] ord@.contains(y),
            forall|i: int, j: int|
                0 <= i < j < ord@.len() ==> precedes(keys@, #[trigger] ord@[i] as int, #[trigger] ord@[j] as int),
        decreases n - x,
    {
        let mut p: usize = 0;
        while p < ord.len() && row_precedes(keys, ord[p], x)
            invariant
                n == keys@.len(),
                x < n,
                p <= ord@.len(),
                forall|i: int| 0 <= i < ord@.len() ==> #[trigger] ord@[i] < x,
                forall|i: int| 0 <= i < p ==> precedes(keys@, #[trigger] ord@[i] as int, x as int),
            decreases ord@.len() - p,
        {
            p = p + 1;
        }
        let ghost old_ord = ord@;
        ord.insert(p, x);
        proof {
            assert(ord@ == old_ord.insert(p as int, x));
            if p < old_ord.len() {
                assert(!precedes(keys@, old_ord[p as int] as int, x as int));
                assert(precedes(keys@, x as int, old_ord[p as int] as int));
            }
            assert forall|i: int, j: int| 0 <= i < j < ord@.len() implies precedes(
                keys@,
                #[trigger] ord@[i] as int,
                #[trigger] ord@[j] as int,
            ) by {
                if i < p && j == p {
                } else if i < p && j > p {
                    assert(ord@[j] == old_ord[j - 1]);
                } else if i == p && j > p {
                    assert(ord@[j] == old_ord[j - 1]);
                    if j - 1 > p {
                        assert(precedes(keys@, old_ord[p as int] as int, old_ord[j - 1] as int));
                        lemma_precedes_transitive(keys@, x as int, old_ord[p as int] as int, old_ord[j - 1] as int);
                    }
                } else if i > p {
                    assert(ord@[i] == old_ord[i - 1]);
                    assert(ord@[j] == old_ord[j - 1]);
                }
            }
            assert forall|y: usize| y < x + 1 implies #[trigger] ord@.contains(y) by {
                if y < x {
                    assert(old_ord.contains(y));
                    let k = choose|k: int| 0 <= k < old_ord.len() && old_ord[k] == y;
                    if k < p {
                        assert(ord@[k] == y);
                    } else {
                        assert(ord@[k + 1] == y);
                    }
                } else {
                    assert(ord@[p as int] == y);
                }
            }
        }
        x = x + 1;
    }
    proof {
        assert(sorted_by(keys@, ord@));
        lemma_sorted_unique(keys@, ord@, sorted_order(keys@));
    }
    ord
}

} // verus!
