//! A stable insertion sort for lists ordered by a rank.
use vstd::prelude::*;

verus! {

/// An order by rank: `before(a, b)` when `a` ranks strictly ahead of `b`.
pub trait Ranked: Sized {
    spec fn before(a: Self, b: Self) -> bool;

    /// Ranking ahead is irreflexive and transitive, and whatever ranks
    /// between never breaks it up (negative transitivity).
    proof fn lemma_rank(a: Self, b: Self, c: Self)
        ensures
            !Self::before(a, a),
            Self::before(a, b) && Self::before(b, c) ==> Self::before(a, c),
            Self::before(a, b) ==> Self::before(a, c) || Self::before(c, b),
    ;

    fn ranks_before(&self, other: &Self) -> (r: bool)
        ensures
            r == Self::before(*self, *other),
    ;
}

/// `r` is `v` rearranged by `perm` (position in `r` to position in `v`, with
/// inverse `inv`), in rank order, and elements of equal rank keep their order.
pub open spec fn stable_sorted<T: Ranked>(v: Seq<T>, r: Seq<T>, perm: Seq<int>, inv: Seq<int>) -> bool {
    &&& r.len() == v.len()
    &&& perm.len() == v.len()
    &&& inv.len() == v.len()
    &&& forall|k: int| 0 <= k < r.len() ==> 0 <= #[trigger] perm[k] < v.len() && r[k] == v[perm[k]] && inv[perm[k]] == k
    &&& forall|j: int| 0 <= j < v.len() ==> 0 <= #[trigger] inv[j] < r.len() && perm[inv[j]] == j
    &&& forall|a: int, b: int| 0 <= a < b < r.len() ==> !T::before(#[trigger] r[b], #[trigger] r[a])
    &&& forall|a: int, b: int| 0 <= a < b < r.len() && !T::before(#[trigger] r[a], #[trigger] r[b]) ==> perm[a] < perm[b]
}

/// Sorts `v` by rank, keeping elements of equal rank in their order.
pub fn sort_ranked<T: Ranked>(v: Vec<T>) -> (r: Vec<T>)
    ensures
        exists|perm: Seq<int>, inv: Seq<int>| stable_sorted(v@, r@, perm, inv),
{
    let ghost orig = v@;
    let n = v.len();
    let mut v = v;
    let mut out: Vec<T> = Vec::new();
    let ghost mut perm: Seq<int> = Seq::empty();
    let ghost mut inv: Seq<int> = Seq::new(n as nat, |j: int| 0int);
    while v.len() > 0
        invariant
            n == orig.len(),
            v.len() <= n,
            v@ == orig.take(v.len() as int),
            out@.len() == n - v.len(),
            perm.len() == out@.len(),
            inv.len() == n,
            forall|k: int| 0 <= k < out@.len() ==> v.len() <= #[trigger] perm[k] < n && out@[k] == orig[perm[k]] && inv[perm[k]] == k,
            forall|j: int| v.len() <= j < n ==> 0 <= #[trigger] inv[j] < out@.len() && perm[inv[j]] == j,
            forall|a: int, b: int| 0 <= a < b < out@.len() ==> !T::before(#[trigger] out@[b], #[trigger] out@[a]),
            forall|a: int, b: int| 0 <= a < b < out@.len() && !T::before(#[trigger] out@[a], #[trigger] out@[b]) ==> perm[a] < perm[b],
        decreases v.len(),
    {
        let ghost m = v.len() as int;
        let e = v.pop().unwrap();
        assert(e == orig[m - 1]);
        assert(v@ =~= orig.take(m - 1));
        let mut p: usize = 0;
        while p < out.len() && out[p].ranks_before(&e)
            invariant
                p <= out@.len(),
                forall|a: int| 0 <= a < p ==> T::before(#[trigger] out@[a], e),
            decreases out.len() - p,
        {
            p = p + 1;
        }
        let ghost old_out = out@;
        let ghost old_perm = perm;
        let ghost old_inv = inv;
        out.insert(p, e);
        proof {
            perm = old_perm.insert(p as int, m - 1);
            inv = Seq::new(
                n as nat,
                |j: int|
                    if j == m - 1 {
                        p as int
                    } else if j >= m && old_inv[j] >= p {
                        old_inv[j] + 1
                    } else {
                        old_inv[j]
                    },
            );
            assert forall|k: int| 0 <= k < out@.len() implies m - 1 <= #[trigger] perm[k] < n && out@[k] == orig[perm[k]]
                && inv[perm[k]] == k by {
                if k < p {
                    assert(out@[k] == old_out[k]);
                    assert(perm[k] == old_perm[k]);
                } else if k > p {
                    assert(out@[k] == old_out[k - 1]);
                    assert(perm[k] == old_perm[k - 1]);
                }
            }
            assert forall|j: int| m - 1 <= j < n implies 0 <= #[trigger] inv[j] < out@.len() && perm[inv[j]] == j by {
                if j >= m {
                    let k = old_inv[j];
                    if k >= p {
                        assert(perm[k + 1] == old_perm[k]);
                    } else {
                        assert(perm[k] == old_perm[k]);
                    }
                }
            }
            assert forall|a: int, b: int| 0 <= a < b < out@.len() implies !T::before(#[trigger] out@[b], #[trigger] out@[a]) by {
                if a == p {
                    if b - 1 > p {
                        T::lemma_rank(out@[b], e, old_out[p as int]);
                        assert(!T::before(old_out[b - 1], old_out[p as int]));
                    } else if p < old_out.len() {
                        T::lemma_rank(out@[b], e, old_out[p as int]);
                    }
                } else if b == p {
                    T::lemma_rank(out@[a], e, out@[a]);
                } else {
                    let a0 = if a < p { a } else { a - 1 };
                    let b0 = if b < p { b } else { b - 1 };
                    assert(out@[a] == old_out[a0]);
                    assert(out@[b] == old_out[b0]);
                }
            }
            assert forall|a: int, b: int| 0 <= a < b < out@.len() && !T::before(#[trigger] out@[a], #[trigger] out@[b]) implies perm[a]
                < perm[b] by {
                if a == p {
                } else if b == p {
                } else {
                    let a0 = if a < p { a } else { a - 1 };
                    let b0 = if b < p { b } else { b - 1 };
                    assert(out@[a] == old_out[a0]);
                    assert(out@[b] == old_out[b0]);
                    assert(perm[a] == old_perm[a0]);
                    assert(perm[b] == old_perm[b0]);
                }
            }
        }
    }
    assert(v.len() == 0);
    assert(stable_sorted(orig, out@, perm, inv));
    out
}

} // verus!
