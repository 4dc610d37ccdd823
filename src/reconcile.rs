//! The reference order: string indices in the order in which the bytecode
//! first names them, then every index it never names, in ascending order.
use vstd::prelude::*;

verus! {

/// The distinct indices below `n` of `ids`, in order of first appearance.
pub open spec fn first_seen(ids: Seq<u32>, n: nat) -> Seq<u32>
    decreases ids.len(),
{
    if ids.len() == 0 {
        seq![]
    } else {
        let r = first_seen(ids.drop_last(), n);
        let x = ids.last();
        if (x as nat) < n && !r.contains(x) { r.push(x) } else { r }
    }
}

/// The indices below `k` that `r` does not hold, in ascending order.
pub open spec fn unseen(r: Seq<u32>, k: nat) -> Seq<u32>
    decreases k,
{
    if k == 0 {
        seq![]
    } else {
        let p = unseen(r, (k - 1) as nat);
        if r.contains((k - 1) as u32) { p } else { p.push((k - 1) as u32) }
    }
}

/// The final order of a table of `n` strings whose bytecode names `ids`.
pub open spec fn reference_order(ids: Seq<u32>, n: nat) -> Seq<u32> {
    first_seen(ids, n) + unseen(first_seen(ids, n), n)
}

/// `order` lists each index below `n` exactly once.
pub open spec fn is_permutation(order: Seq<u32>, n: nat) -> bool {
    &&& order.len() == n
    &&& order.no_duplicates()
    &&& forall|i: int| 0 <= i < order.len() ==> (#[trigger] order[i] as nat) < n
    &&& forall|k: u32| (k as nat) < n ==> #[trigger] order.contains(k)
}

/// How many of the indices below `k` occur in `r`.
pub open spec fn count_below(r: Seq<u32>, k: nat) -> nat
    decreases k,
{
    if k == 0 {
        0
    } else {
        count_below(r, (k - 1) as nat) + if r.contains((k - 1) as u32) { 1nat } else { 0nat }
    }
}

proof fn lemma_count_below_push(r: Seq<u32>, x: u32, k: nat)
    requires
        !r.contains(x),
        k <= u32::MAX + 1,
    ensures
        count_below(r.push(x), k) == count_below(r, k) + if (x as nat) < k { 1nat } else { 0nat },
    decreases k,
{
    if k > 0 {
        lemma_count_below_push(r, x, (k - 1) as nat);
        lemma_push_contains(r, x, (k - 1) as u32);
    }
}

proof fn lemma_count_below_empty(k: nat)
    ensures
        count_below(Seq::<u32>::empty(), k) == 0,
    decreases k,
{
    if k > 0 {
        lemma_count_below_empty((k - 1) as nat);
    }
}

proof fn lemma_first_seen(ids: Seq<u32>, n: nat)
    requires
        n <= u32::MAX + 1,
    ensures
        first_seen(ids, n).no_duplicates(),
        forall|i: int| 0 <= i < first_seen(ids, n).len() ==> (#[trigger] first_seen(ids, n)[i] as nat) < n,
        count_below(first_seen(ids, n), n) == first_seen(ids, n).len(),
    decreases ids.len(),
{
    if ids.len() == 0 {
        lemma_count_below_empty(n);
    } else {
        let r = first_seen(ids.drop_last(), n);
        let x = ids.last();
        lemma_first_seen(ids.drop_last(), n);
        if (x as nat) < n && !r.contains(x) {
            lemma_count_below_push(r, x, n);
            assert forall|i: int, j: int| 0 <= i < j < r.push(x).len() implies r.push(x)[i] != r.push(x)[j] by {
                if j == r.len() {
                    assert(r[i] == r.push(x)[i]);
                }
            }
        }
    }
}

proof fn lemma_unseen(r: Seq<u32>, k: nat)
    requires
        k <= u32::MAX + 1,
    ensures
        unseen(r, k).len() + count_below(r, k) == k,
        unseen(r, k).no_duplicates(),
        forall|i: int| 0 <= i < unseen(r, k).len() ==> (#[trigger] unseen(r, k)[i] as nat) < k,
        forall|i: int| 0 <= i < unseen(r, k).len() ==> !r.contains(#[trigger] unseen(r, k)[i]),
        forall|j: u32| (j as nat) < k && !r.contains(j) ==> #[trigger] unseen(r, k).contains(j),
    decreases k,
{
    if k > 0 {
        lemma_unseen(r, (k - 1) as nat);
        let p = unseen(r, (k - 1) as nat);
        let y = (k - 1) as u32;
        if !r.contains(y) {
            assert(p.push(y)[p.len() as int] == y);
            assert forall|j: u32| (j as nat) < k && !r.contains(j) implies #[trigger] p.push(y).contains(j) by {
                if j != y {
                    assert(unseen(r, (k - 1) as nat).contains(j));
                    let i = choose|i: int| 0 <= i < p.len() && p[i] == j;
                    assert(p.push(y)[i] == j);
                }
            }
        }
    }
}

/// The reference order of a table of `n` strings lists each index below `n`
/// exactly once, whatever indices the bytecode names.
pub proof fn lemma_reference_order_is_permutation(ids: Seq<u32>, n: nat)
    requires
        n <= u32::MAX,
    ensures
        is_permutation(reference_order(ids, n), n),
{
    let r = first_seen(ids, n);
    let u = unseen(r, n);
    let o = r + u;
    lemma_first_seen(ids, n);
    lemma_unseen(r, n);
    assert forall|i: int| 0 <= i < o.len() implies (#[trigger] o[i] as nat) < n by {
        if i >= r.len() {
            assert(o[i] == u[i - r.len()]);
        }
    }
    assert forall|i: int, j: int| 0 <= i < j < o.len() implies o[i] != o[j] by {
        if j >= r.len() {
            assert(o[j] == u[j - r.len()]);
            if i < r.len() {
                assert(r.contains(o[i]));
            } else {
                assert(o[i] == u[i - r.len()]);
            }
        }
    }
    assert forall|k: u32| (k as nat) < n implies #[trigger] o.contains(k) by {
        if r.contains(k) {
            let i = choose|i: int| 0 <= i < r.len() && r[i] == k;
            assert(o[i] == k);
        } else {
            assert(unseen(r, n).contains(k));
            let i = choose|i: int| 0 <= i < u.len() && u[i] == k;
            assert(o[r.len() + i] == k);
        }
    }
}

proof fn lemma_push_contains(r: Seq<u32>, x: u32, j: u32)
    ensures
        r.push(x).contains(j) == (r.contains(j) || j == x),
{
    if r.push(x).contains(j) {
        let i = choose|i: int| 0 <= i < r.push(x).len() && r.push(x)[i] == j;
        if i < r.len() {
            assert(r[i] == j);
        }
    }
    if r.contains(j) {
        let i = choose|i: int| 0 <= i < r.len() && r[i] == j;
        assert(r.push(x)[i] == j);
    }
    if j == x {
        assert(r.push(x)[r.len() as int] == j);
    }
}

/// The reference order of a table of `n` strings whose bytecode names `ids`
/// in stream order: indices at or above `n` are dropped, repeats are
/// dropped, and the indices never named follow in ascending order. Also
/// returns how many indices were named, which is where the unused ones start.
pub fn order_references(ids: &[u32], n: u32) -> (r: (Vec<u32>, usize))
    ensures
        r.0@ == reference_order(ids@, n as nat),
        is_permutation(r.0@, n as nat),
        r.1 == first_seen(ids@, n as nat).len(),
{
    let mut seen: Vec<bool> = Vec::new();
    let mut k: u32 = 0;
    while k < n
        invariant
            k <= n,
            seen@.len() == k,
            forall|j: int| 0 <= j < k ==> !seen@[j],
        decreases n - k,
    {
        seen.push(false);
        k = k + 1;
    }
    let mut order: Vec<u32> = Vec::new();
    let mut i: usize = 0;
    while i < ids.len()
        invariant
            i <= ids@.len(),
            seen@.len() == n,
            order@ == first_seen(ids@.take(i as int), n as nat),
            forall|j: u32| j < n ==> seen@[j as int] == order@.contains(j),
        decreases ids@.len() - i,
    {
        let x: u32 = ids[i];
        proof {
            assert(ids@.take(i + 1).drop_last() =~= ids@.take(i as int));
            assert(ids@.take(i + 1).last() == x);
        }
        if x < n && !seen[x as usize] {
            proof {
                assert forall|j: u32| j < n implies (if j == x { true } else { seen@[j as int] }) == order@.push(x).contains(j) by {
                    lemma_push_contains(order@, x, j);
                }
            }
            order.push(x);
            seen.set(x as usize, true);
        }
        i = i + 1;
    }
    assert(ids@.take(ids@.len() as int) =~= ids@);
    let ghost r = order@;
    let referenced: usize = order.len();
    let mut k: u32 = 0;
    while k < n
        invariant
            k <= n,
            seen@.len() == n,
            r == first_seen(ids@, n as nat),
            forall|j: u32| j < n ==> seen@[j as int] == r.contains(j),
            order@ == r + unseen(r, k as nat),
        decreases n - k,
    {
        if !seen[k as usize] {
            assert((r + unseen(r, k as nat)).push(k) =~= r + unseen(r, k as nat).push(k));
            order.push(k);
        }
        k = k + 1;
    }
    proof {
        lemma_reference_order_is_permutation(ids@, n as nat);
    }
    (order, referenced)
}

/// The elements of `a` picked in the order `p`.
pub open spec fn pick<T>(a: Seq<T>, p: Seq<int>) -> Seq<T> {
    Seq::new(p.len(), |i: int| a[p[i]])
}

/// Picking every element of a sequence exactly once, in any order, keeps
/// its multiset of elements.
pub proof fn lemma_pick_permutation_multiset<T>(a: Seq<T>, p: Seq<int>)
    requires
        p.len() == a.len(),
        p.no_duplicates(),
        forall|i: int| 0 <= i < p.len() ==> 0 <= #[trigger] p[i] < a.len(),
    ensures
        pick(a, p).to_multiset() == a.to_multiset(),
    decreases p.len(),
{
    broadcast use vstd::seq_lib::group_to_multiset_ensures;
    if p.len() == 0 {
        assert(pick(a, p) =~= a);
    } else {
        let n = p.len() - 1;
        let j = p[n];
        let a2 = a.remove(j);
        let p2 = Seq::new(n as nat, |i: int| if p[i] < j { p[i] } else { p[i] - 1 });
        assert forall|i: int| 0 <= i < p2.len() implies 0 <= #[trigger] p2[i] < a2.len() by {
            assert(p[i] != p[n]);
        }
        assert forall|i: int, k: int| 0 <= i < k < p2.len() implies p2[i] != p2[k] by {
            assert(p[i] != p[k]);
            assert(p[i] != p[n]);
            assert(p[k] != p[n]);
        }
        lemma_pick_permutation_multiset(a2, p2);
        let b = pick(a, p);
        assert forall|i: int| 0 <= i < n implies b.drop_last()[i] == #[trigger] pick(a2, p2)[i] by {
            assert(p[i] != p[n]);
        }
        assert(b.drop_last() =~= pick(a2, p2));
        assert(b =~= b.drop_last().push(a[j]));
        vstd::seq_lib::to_multiset_remove(a, j);
        assert(a.to_multiset().remove(a[j]).insert(a[j]) =~= a.to_multiset());
    }
}

} // verus!
