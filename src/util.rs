use vstd::prelude::*;

verus! {

/// The distinct items of `s`, each kept at the place where it first occurs.
pub open spec fn dedup<T>(s: Seq<T>) -> Seq<T>
    decreases s.len(),
{
    if s.len() == 0 {
        Seq::empty()
    } else {
        let d = dedup(s.drop_last());
        if d.contains(s.last()) {
            d
        } else {
            d.push(s.last())
        }
    }
}

/// An item stands in the deduplicated sequence exactly when it stands in the
/// sequence itself.
pub proof fn lemma_dedup_contains<T>(s: Seq<T>, x: T)
    ensures
        dedup(s).contains(x) <==> s.contains(x),
    decreases s.len(),
{
    if s.len() > 0 {
        let p = s.drop_last();
        let d = dedup(p);
        lemma_dedup_contains(p, x);
        assert(s =~= p.push(s.last()));
        assert(p.push(s.last()).contains(x) <==> (p.contains(x) || x == s.last())) by {
            if p.contains(x) {
                let k = choose|k: int| 0 <= k < p.len() && p[k] == x;
                assert(p.push(s.last())[k] == x);
            }
            if x == s.last() {
                assert(p.push(s.last())[p.len() as int] == x);
            }
        }
        assert(d.push(s.last()).contains(x) <==> (d.contains(x) || x == s.last())) by {
            if d.contains(x) {
                let k = choose|k: int| 0 <= k < d.len() && d[k] == x;
                assert(d.push(s.last())[k] == x);
            }
            if x == s.last() {
                assert(d.push(s.last())[d.len() as int] == x);
            }
        }
    }
}

/// No item stands twice in the deduplicated sequence.
pub proof fn lemma_dedup_no_duplicates<T>(s: Seq<T>)
    ensures
        dedup(s).no_duplicates(),
    decreases s.len(),
{
    if s.len() > 0 {
        lemma_dedup_no_duplicates(s.drop_last());
    }
}

/// The rows of `v`, each as a sequence.
pub open spec fn rows_of<T>(v: Seq<Vec<T>>) -> Seq<Seq<T>> {
    v.map_values(|row: Vec<T>| row@)
}

/// Whether `v` holds `x`.
fn holds<T: PartialEq>(v: &Vec<T>, x: &T) -> (r: bool)
    requires
        vstd::laws_eq::obeys_concrete_eq::<T>(),
    ensures
        r == v@.contains(*x),
{
    let mut i: usize = 0;
    while i < v.len()
        invariant
            i <= v.len(),
            vstd::laws_eq::obeys_concrete_eq::<T>(),
            forall|k: int| 0 <= k < i ==> v@[k] != *x,
        decreases v.len() - i,
    {
        proof {
            reveal(vstd::laws_eq::obeys_concrete_eq);
        }
        if v[i] == *x {
            return true;
        }
        i = i + 1;
    }
    false
}

/// Flattens a list of lists into one list in which each item stands once,
/// at the place where it first occurs.
pub fn reduce2d<T: PartialEq>(v: Vec<Vec<T>>) -> (r: Vec<T>)
    requires
        vstd::laws_eq::obeys_concrete_eq::<T>(),
    ensures
        r@ == dedup(rows_of(v@).flatten()),
        r@.no_duplicates(),
        forall|x: T| r@.contains(x) <==> rows_of(v@).flatten().contains(x),
{
    let ghost rows = rows_of(v@);
    let ghost seen: Seq<T> = Seq::empty();
    let mut reduced: Vec<T> = Vec::new();
    for i in outer: v
        invariant
            vstd::laws_eq::obeys_concrete_eq::<T>(),
            rows == rows_of(outer.seq()),
            seen == rows.take(outer.index()).flatten_alt(),
            reduced@ == dedup(seen),
    {
        let ghost before = seen;
        let ghost row = i@;
        for j in inner: i
            invariant
                vstd::laws_eq::obeys_concrete_eq::<T>(),
                row == inner.seq(),
                seen == before + row.take(inner.index()),
                reduced@ == dedup(seen),
        {
            proof {
                let next = seen.push(j);
                assert(next.drop_last() =~= seen);
                assert(before + row.take(inner.index() + 1) =~= next);
                seen = next;
            }
            if !holds(&reduced, &j) {
                reduced.push(j);
            }
        }
        proof {
            let k = outer.index();
            assert(rows.take(k + 1).drop_last() =~= rows.take(k));
            assert(row.take(row.len() as int) =~= row);
        }
    }
    proof {
        assert(rows.take(rows.len() as int) =~= rows);
        rows.lemma_flatten_and_flatten_alt_are_equivalent();
        lemma_dedup_no_duplicates(rows.flatten());
        assert forall|x: T| reduced@.contains(x) <==> rows.flatten().contains(x) by {
            lemma_dedup_contains(rows.flatten(), x);
        }
    }
    reduced
}

} // verus!
