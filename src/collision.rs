use vstd::prelude::*;

use crate::util::{dedup, lemma_dedup_contains, lemma_dedup_no_duplicates, reduce2d, rows_of};

verus! {

/// The indices `j < k`, in increasing order, other than `i`, for which
/// `row[j]` holds.
pub open spec fn partners(row: Seq<bool>, i: int, k: int) -> Seq<usize>
    decreases k,
{
    if k <= 0 {
        Seq::empty()
    } else {
        let p = partners(row, i, k - 1);
        if row[k - 1] && k - 1 != i {
            p.push((k - 1) as usize)
        } else {
            p
        }
    }
}

/// The group built for body `i` from its row of the hit matrix: `i` itself,
/// then each other body whose path its extended path meets.
pub open spec fn group(row: Seq<bool>, i: int) -> Seq<usize> {
    seq![i as usize] + partners(row, i, row.len() as int)
}

/// The groups of the first `k` bodies that have at least one partner, in
/// body order.
pub open spec fn groups(hits: Seq<Seq<bool>>, k: int) -> Seq<Seq<usize>>
    decreases k,
{
    if k <= 0 {
        Seq::empty()
    } else {
        let g = groups(hits, k - 1);
        if group(hits[k - 1], k - 1).len() > 1 {
            g.push(group(hits[k - 1], k - 1))
        } else {
            g
        }
    }
}

/// Body `x` takes part in a detected pair: the path of some body `i` meets
/// that of another body `j`, and `x` is one of the two.
pub open spec fn in_pair(hits: Seq<Seq<bool>>, x: int) -> bool {
    exists|i: int, j: int|
        0 <= i < hits.len() && 0 <= j < hits[i].len() && i != j && #[trigger] hits[i][j] && (x
            == i || x == j)
}

proof fn lemma_partners_contains(row: Seq<bool>, i: int, k: int, x: usize)
    requires
        0 <= k <= row.len() <= usize::MAX,
    ensures
        partners(row, i, k).contains(x) <==> (x < k && x != i && row[x as int]),
    decreases k,
{
    if k > 0 {
        let p = partners(row, i, k - 1);
        lemma_partners_contains(row, i, k - 1, x);
        if row[k - 1] && k - 1 != i {
            if p.contains(x) {
                let m = choose|m: int| 0 <= m < p.len() && p[m] == x;
                assert(p.push((k - 1) as usize)[m] == x);
            }
            if x == k - 1 {
                assert(p.push((k - 1) as usize)[p.len() as int] == x);
            }
            if p.push((k - 1) as usize).contains(x) && x != k - 1 {
                let m = choose|m: int|
                    0 <= m < p.len() + 1 && #[trigger] p.push((k - 1) as usize)[m] == x;
                assert(p[m] == x);
            }
        }
    }
}

proof fn lemma_group_contains(row: Seq<bool>, i: int, x: usize)
    requires
        0 <= i <= usize::MAX,
        row.len() <= usize::MAX,
    ensures
        group(row, i).contains(x) <==> (x == i || (x < row.len() && x != i && row[x as int])),
        group(row, i).len() > 1 <==> exists|j: int| 0 <= j < row.len() && j != i && #[trigger] row[j],
{
    let p = partners(row, i, row.len() as int);
    lemma_partners_contains(row, i, row.len() as int, x);
    let g = group(row, i);
    if p.contains(x) {
        let m = choose|m: int| 0 <= m < p.len() && p[m] == x;
        assert(g[m + 1] == x);
    }
    if x == i {
        assert(g[0] == x);
    }
    if g.contains(x) && x != i {
        let m = choose|m: int| 0 <= m < g.len() && g[m] == x;
        assert(p[m - 1] == x);
    }
    if g.len() > 1 {
        assert(p.contains(p[0]));
        lemma_partners_contains(row, i, row.len() as int, p[0]);
        assert(row[p[0] as int]);
    }
    if exists|j: int| 0 <= j < row.len() && j != i && #[trigger] row[j] {
        let j = choose|j: int| 0 <= j < row.len() && j != i && #[trigger] row[j];
        lemma_partners_contains(row, i, row.len() as int, j as usize);
        assert(p.contains(j as usize));
    }
}

proof fn lemma_groups_contains(hits: Seq<Seq<bool>>, k: int, x: usize)
    requires
        0 <= k <= hits.len(),
        hits.len() <= usize::MAX,
        forall|i: int| 0 <= i < hits.len() ==> #[trigger] hits[i].len() <= usize::MAX,
    ensures
        groups(hits, k).flatten().contains(x) <==> exists|i: int, j: int|
            0 <= i < k && 0 <= j < hits[i].len() && i != j && #[trigger] hits[i][j] && (x == i
                || x == j),
    decreases k,
{
    if k > 0 {
        let g = groups(hits, k - 1);
        let row = hits[k - 1];
        let last = group(row, k - 1);
        lemma_groups_contains(hits, k - 1, x);
        lemma_group_contains(row, k - 1, x);
        let before = exists|i: int, j: int|
            0 <= i < k - 1 && 0 <= j < hits[i].len() && i != j && #[trigger] hits[i][j] && (x == i
                || x == j);
        let now = exists|i: int, j: int|
            0 <= i < k && 0 <= j < hits[i].len() && i != j && #[trigger] hits[i][j] && (x == i
                || x == j);
        let here = exists|j: int|
            0 <= j < row.len() && j != k - 1 && #[trigger] row[j] && (x == k - 1 || x == j);
        assert(now <==> (before || here)) by {
            if now {
                let (i, j) = choose|i: int, j: int|
                    0 <= i < k && 0 <= j < hits[i].len() && i != j && #[trigger] hits[i][j] && (x
                        == i || x == j);
                if i == k - 1 {
                    assert(row[j]);
                }
            }
            if here {
                let j = choose|j: int|
                    0 <= j < row.len() && j != k - 1 && #[trigger] row[j] && (x == k - 1 || x == j);
                assert(hits[k - 1][j]);
            }
        }
        assert(here <==> (last.len() > 1 && last.contains(x))) by {
            if here {
                let j = choose|j: int|
                    0 <= j < row.len() && j != k - 1 && #[trigger] row[j] && (x == k - 1 || x == j);
                assert(row[j]);
            }
            if last.len() > 1 && last.contains(x) && x == k - 1 {
                let j = choose|j: int| 0 <= j < row.len() && j != k - 1 && #[trigger] row[j];
                assert(row[j] && (x == k - 1 || x == j));
            }
            if last.len() > 1 && last.contains(x) && x != k - 1 {
                assert(row[x as int] && (x == k - 1 || x == x as int));
            }
        }
        if last.len() > 1 {
            g.lemma_flatten_push(last);
            let f = g.flatten();
            assert((f + last).contains(x) <==> (f.contains(x) || last.contains(x))) by {
                if f.contains(x) {
                    let m = choose|m: int| 0 <= m < f.len() && f[m] == x;
                    assert((f + last)[m] == x);
                }
                if last.contains(x) {
                    let m = choose|m: int| 0 <= m < last.len() && last[m] == x;
                    assert((f + last)[f.len() + m] == x);
                }
                if (f + last).contains(x) {
                    let m = choose|m: int| 0 <= m < (f + last).len() && (f + last)[m] == x;
                    if m >= f.len() {
                        assert(last[m - f.len()] == x);
                    } else {
                        assert(f[m] == x);
                    }
                }
            }
        }
    }
}

/// The group of body `i`: `i` itself, then, in index order, every other body
/// `j` for which `row[j]` holds.
fn collision_group(row: &Vec<bool>, i: usize) -> (r: Vec<usize>)
    ensures
        r@ == group(row@, i as int),
{
    let mut r: Vec<usize> = vec![i];
    let mut j: usize = 0;
    while j < row.len()
        invariant
            j <= row.len(),
            r@ == seq![i] + partners(row@, i as int, j as int),
        decreases row.len() - j,
    {
        if row[j] && j != i {
            r.push(j);
        }
        proof {
            assert(seq![i] + partners(row@, i as int, j + 1) =~= r@);
        }
        j = j + 1;
    }
    r
}

/// Builds the collision groups from a hit matrix, in which `hits[i][j]`
/// holds when the extended path of body `i` meets the path of body `j`.
/// Each body with at least one partner other than itself gives the group
/// made of its own index followed by its partners' indices.
pub fn collision_groups(hits: &Vec<Vec<bool>>) -> (r: Vec<Vec<usize>>)
    ensures
        rows_of(r@) == groups(rows_of(hits@), hits.len() as int),
{
    let ghost h = rows_of(hits@);
    let mut r: Vec<Vec<usize>> = Vec::new();
    let mut i: usize = 0;
    while i < hits.len()
        invariant
            i <= hits.len(),
            h == rows_of(hits@),
            rows_of(r@) == groups(h, i as int),
        decreases hits.len() - i,
    {
        let g = collision_group(&hits[i], i);
        assert(h[i as int] == hits@[i as int]@);
        if g.len() > 1 {
            r.push(g);
        }
        proof {
            assert(rows_of(r@) =~= groups(h, i + 1));
        }
        i = i + 1;
    }
    r
}

/// The distinct indices of all bodies that take part in a collision, in the
/// order in which they first appear in the groups of `collision_groups`.
pub fn colliding_indices(hits: &Vec<Vec<bool>>) -> (r: Vec<usize>)
    ensures
        r@ == dedup(groups(rows_of(hits@), hits.len() as int).flatten()),
        r@.no_duplicates(),
        forall|x: usize| r@.contains(x) <==> in_pair(rows_of(hits@), x as int),
{
    let groups_found = collision_groups(hits);
    proof {
        broadcast use vstd::laws_eq::group_laws_eq;
    }
    let r = reduce2d(groups_found);
    proof {
        let h = rows_of(hits@);
        let all = groups(h, hits.len() as int).flatten();
        assert forall|i: int| 0 <= i < h.len() implies #[trigger] h[i].len() <= usize::MAX by {
            assert(h[i] == hits@[i]@);
            assert(hits@[i].len() == hits@[i]@.len());
        }
        lemma_dedup_no_duplicates(all);
        assert forall|x: usize| r@.contains(x) <==> in_pair(h, x as int) by {
            lemma_dedup_contains(all, x);
            lemma_groups_contains(h, hits.len() as int, x);
        }
    }
    r
}

} // verus!
