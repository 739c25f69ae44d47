//! Stable top-k selection by key, the ordering behind both kinds of search.
use vstd::prelude::*;

verus! {

/// Position `q` goes before position `p`: a larger key, or an equal key and
/// an earlier position.
pub open spec fn precedes(keys: Seq<u64>, q: int, p: int) -> bool {
    keys[q] > keys[p] || (keys[q] == keys[p] && q < p)
}

/// `pos` lists, best first, the `k` eligible positions that go before all
/// others (all eligible positions when there are fewer): entry `i` is the
/// first, in the order of `precedes`, of the eligible positions not listed
/// before it.
pub open spec fn is_top_selection(keys: Seq<u64>, eligible: Seq<bool>, k: int, pos: Seq<int>) -> bool {
    &&& pos.len() <= k
    &&& forall|i: int|
        0 <= i < pos.len() ==> 0 <= #[trigger] pos[i] < keys.len() && eligible[pos[i]]
    &&& forall|i: int, j: int| 0 <= i < j < pos.len() ==> pos[i] != pos[j]
    &&& pos.len() < k ==> forall|q: int|
        0 <= q < keys.len() && #[trigger] eligible[q] ==> pos.contains(q)
    &&& forall|i: int, q: int|
        0 <= i < pos.len() && 0 <= q < keys.len() && eligible[q] && !#[trigger] pos.take(
            i,
        ).contains(q) ==> !precedes(keys, q, #[trigger] pos[i])
}

/// The positions of `v` as integers.
pub open spec fn as_ints(v: Seq<usize>) -> Seq<int> {
    v.map_values(|x: usize| x as int)
}

/// The eligible positions of `keys`, best first, at most `k` of them; ties
/// keep the earlier position first.
pub fn select_top(keys: &Vec<u64>, eligible: &Vec<bool>, k: usize) -> (r: Vec<usize>)
    requires
        keys.len() == eligible.len(),
    ensures
        is_top_selection(keys@, eligible@, k as int, as_ints(r@)),
{
    let n = keys.len();
    let mut chosen: Vec<bool> = Vec::new();
    while chosen.len() < n
        invariant
            chosen.len() <= n,
            forall|q: int| 0 <= q < chosen.len() ==> !#[trigger] chosen[q],
        decreases n - chosen.len(),
    {
        chosen.push(false);
    }
    let mut r: Vec<usize> = Vec::new();
    let mut done = false;
    while !done && r.len() < k
        invariant
            n == keys.len() == eligible.len() == chosen.len(),
            r.len() <= k,
            forall|q: int| 0 <= q < n ==> (#[trigger] chosen[q] <==> as_ints(r@).contains(q)),
            forall|i: int| 0 <= i < r.len() ==> #[trigger] r[i] < n && eligible[r[i] as int],
            forall|i: int, j: int| 0 <= i < j < r.len() ==> r[i] != r[j],
            done ==> forall|q: int| 0 <= q < n && #[trigger] eligible[q] ==> chosen[q],
            forall|i: int, q: int|
                0 <= i < r.len() && 0 <= q < n && eligible[q] && !#[trigger] as_ints(r@).take(
                    i,
                ).contains(q) ==> !precedes(keys@, q, #[trigger] as_ints(r@)[i]),
        decreases 2 * (k - r.len()) + if done {
            0int
        } else {
            1int
        },
    {
        let mut best: usize = n;
        for j in 0..n
            invariant
                n == keys.len() == eligible.len() == chosen.len(),
                best == n || (best < j && eligible[best as int] && !chosen[best as int]),
                best == n ==> forall|q: int|
                    0 <= q < j ==> !(#[trigger] eligible[q] && !chosen[q]),
                best < n ==> forall|q: int|
                    0 <= q < j && #[trigger] eligible[q] && !chosen[q] ==> !precedes(
                        keys@,
                        q,
                        best as int,
                    ),
        {
            if eligible[j] && !chosen[j] && (best == n || keys[j] > keys[best]) {
                best = j;
            }
        }
        if best == n {
            done = true;
        } else {
            let ghost old_r = as_ints(r@);
            let ghost old_rv = r@;
            assert(!old_r.contains(best as int));
            chosen.set(best, true);
            r.push(best);
            proof {
                let nr = as_ints(r@);
                assert(nr =~= old_r.push(best as int));
                assert forall|i: int, j: int| 0 <= i < j < r.len() implies r[i] != r[j] by {
                    if j == old_rv.len() {
                        assert(old_r[i] == old_rv[i] as int);
                    }
                }
                assert forall|q: int| 0 <= q < n implies (#[trigger] chosen[q] <==> nr.contains(
                    q,
                )) by {
                    if q == best as int {
                        assert(nr[old_r.len() as int] == q);
                    } else if old_r.contains(q) {
                        let t = choose|t: int| 0 <= t < old_r.len() && old_r[t] == q;
                        assert(nr[t] == q);
                    } else if nr.contains(q) {
                        let t = choose|t: int| 0 <= t < nr.len() && nr[t] == q;
                        assert(old_r[t] == q);
                    }
                }
                assert forall|i: int, q: int|
                    0 <= i < r.len() && 0 <= q < n && eligible[q] && !#[trigger] nr.take(
                        i,
                    ).contains(q) implies !precedes(keys@, q, #[trigger] nr[i]) by {
                    if i < old_r.len() {
                        assert(nr.take(i) =~= old_r.take(i));
                        assert(nr[i] == old_r[i]);
                    } else {
                        assert(nr.take(i) =~= old_r);
                        assert(!chosen[q] || q == best as int);
                    }
                }
            }
        }
    }
    proof {
        let nr = as_ints(r@);
        if nr.len() < k {
            assert forall|q: int| 0 <= q < n && #[trigger] eligible[q] implies nr.contains(q) by {
                assert(chosen[q]);
            }
        }
        assert forall|i: int| 0 <= i < nr.len() implies 0 <= #[trigger] nr[i] < n
            && eligible[nr[i]] by {
            assert(nr[i] == r[i] as int);
        }
    }
    r
}

} // verus!
