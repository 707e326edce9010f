//! Putting things in the order of a real-valued key, the largest first.

use crate::scalar::Scalar;
use vstd::prelude::*;

verus! {

/// Whether item `a` comes before item `b`: the larger key first, and of two
/// equal keys the earlier item.
pub open spec fn precedes(keys: Seq<Scalar>, a: int, b: int) -> bool {
    ||| keys[a].rank() > keys[b].rank()
    ||| keys[a].rank() == keys[b].rank() && a < b
}

/// Whether `r` names every item once, in order.
pub open spec fn is_order(keys: Seq<Scalar>, r: Seq<usize>) -> bool {
    &&& r.len() == keys.len()
    &&& forall|i: int| 0 <= i < r.len() ==> (#[trigger] r[i]) < keys.len()
    &&& forall|i: int, j: int|
        0 <= i < j < r.len() ==> #[trigger] precedes(keys, r[i] as int, r[j] as int)
    &&& forall|k: int| 0 <= k < keys.len() ==> #[trigger] r.contains(k as usize)
}

/// Whether the keys can be ordered at all.
pub open spec fn all_numbers(keys: Seq<Scalar>) -> bool {
    forall|i: int| 0 <= i < keys.len() ==> !(#[trigger] keys[i]).nan()
}

/// The items by falling key, each by its place in `keys`.
pub fn falling(keys: &Vec<Scalar>) -> (r: Vec<usize>)
    requires
        all_numbers(keys@),
    ensures
        is_order(keys@, r@),
{
    let mut out: Vec<usize> = Vec::new();
    let mut n: usize = 0;
    assert(keys@.take(0).len() == 0);
    while n < keys.len()
        invariant
            n <= keys@.len(),
            all_numbers(keys@),
            is_order(keys@.take(n as int), out@),
        decreases keys.len() - n,
    {
        let ghost done = keys@.take(n as int);
        let ghost was = out@;
        let mut p: usize = 0;
        while p < out.len() && !keys[out[p]].lt(keys[n])
            invariant
                p <= out@.len(),
                n < keys@.len(),
                all_numbers(keys@),
                out@ == was,
                done == keys@.take(n as int),
                is_order(done, was),
                forall|i: int| 0 <= i < p ==> keys@[#[trigger] was[i] as int].rank() >= keys@[n as int].rank(),
            decreases out.len() - p,
        {
            p = p + 1;
        }
        out.insert(p, n);
        proof {
            lemma_inserted(keys@, n as int, was, p as int, out@);
        }
        n = n + 1;
    }
    assert(keys@.take(n as int) =~= keys@);
    out
}

proof fn lemma_inserted(keys: Seq<Scalar>, n: int, was: Seq<usize>, p: int, now: Seq<usize>)
    requires
        0 <= n < keys.len() <= usize::MAX,
        is_order(keys.take(n), was),
        0 <= p <= was.len(),
        now == was.insert(p, n as usize),
        forall|i: int| 0 <= i < p ==> keys[#[trigger] was[i] as int].rank() >= keys[n].rank(),
        p < was.len() ==> keys[was[p] as int].rank() < keys[n].rank(),
    ensures
        is_order(keys.take(n + 1), now),
{
    let done = keys.take(n);
    let next = keys.take(n + 1);
    assert forall|i: int| 0 <= i < now.len() implies (#[trigger] now[i]) < next.len() by {
        if i < p {
            assert(now[i] == was[i]);
        } else if i > p {
            assert(now[i] == was[i - 1]);
        }
    }
    assert forall|i: int, j: int| 0 <= i < j < now.len() implies #[trigger] precedes(
        next,
        now[i] as int,
        now[j] as int,
    ) by {
        let oi = if i < p {
            i
        } else {
            i - 1
        };
        let oj = if j < p {
            j
        } else {
            j - 1
        };
        if i != p && j != p {
            assert(precedes(done, was[oi] as int, was[oj] as int));
        } else if j == p {
            assert(now[i] == was[i]);
            assert(was[i] < done.len());
        } else {
            assert(now[j] == was[j - 1]);
            if j - 1 > p {
                assert(precedes(done, was[p] as int, was[j - 1] as int));
            }
        }
    }
    assert forall|k: int| 0 <= k < next.len() implies #[trigger] now.contains(k as usize) by {
        if k == n {
            assert(now[p] == n as usize);
        } else {
            assert(was.contains(k as usize));
            let w = choose|w: int| 0 <= w < was.len() && was[w] == k as usize;
            if w < p {
                assert(now[w] == k as usize);
            } else {
                assert(now[w + 1] == k as usize);
            }
        }
    }
}

/// There is only one such order.
pub proof fn law_order_is_unique(keys: Seq<Scalar>, a: Seq<usize>, b: Seq<usize>)
    requires
        is_order(keys, a),
        is_order(keys, b),
    ensures
        a == b,
{
    if a != b {
        lemma_first_difference(a, b);
        let i = choose|i: int| 0 <= i < a.len() && a[i] != b[i] && a.take(i) == b.take(i);
        // What stands at `i` in one of them stands further on in the other.
        assert(b.contains((a[i] as int) as usize));
        assert(a.contains((b[i] as int) as usize));
        let p = choose|p: int| 0 <= p < b.len() && b[p] == a[i];
        let q = choose|q: int| 0 <= q < a.len() && a[q] == b[i];
        if p < i {
            assert(a.take(i)[p] == b.take(i)[p]);
            assert(precedes(keys, a[p] as int, a[i] as int));
        }
        if q < i {
            assert(a.take(i)[q] == b.take(i)[q]);
            assert(precedes(keys, b[q] as int, b[i] as int));
        }
        assert(precedes(keys, a[i] as int, a[q] as int));
        assert(precedes(keys, b[i] as int, b[p] as int));
    }
}

proof fn lemma_first_difference(a: Seq<usize>, b: Seq<usize>)
    requires
        a.len() == b.len(),
        a != b,
    ensures
        exists|i: int| 0 <= i < a.len() && a[i] != b[i] && a.take(i) == b.take(i),
    decreases a.len(),
{
    if a.len() == 0 {
        assert(a =~= b);
    } else if a.drop_last() != b.drop_last() {
        let (c, d) = (a.drop_last(), b.drop_last());
        lemma_first_difference(c, d);
        let i = choose|i: int| 0 <= i < c.len() && c[i] != d[i] && c.take(i) == d.take(i);
        assert(a.take(i) =~= c.take(i));
        assert(b.take(i) =~= d.take(i));
    } else {
        let i = a.len() - 1;
        if a[i] == b[i] {
            assert(a =~= a.drop_last().push(a[i]));
            assert(b =~= b.drop_last().push(b[i]));
        }
        assert(a.take(i) =~= a.drop_last());
        assert(b.take(i) =~= b.drop_last());
    }
}

/// In order, no key is followed by a larger one, equal keys keep the order they
/// came in, and every item is there once.
pub proof fn law_keys_fall(keys: Seq<Scalar>, r: Seq<usize>, i: int, j: int)
    requires
        is_order(keys, r),
        0 <= i < j < r.len(),
    ensures
        r.len() == keys.len(),
        r[i] < keys.len() && r[j] < keys.len(),
        keys[r[i] as int].rank() >= keys[r[j] as int].rank(),
        keys[r[i] as int].rank() == keys[r[j] as int].rank() ==> r[i] < r[j],
        r[i] != r[j],
        forall|k: int| 0 <= k < keys.len() ==> #[trigger] r.contains(k as usize),
{
    assert(precedes(keys, r[i] as int, r[j] as int));
}

} // verus!
