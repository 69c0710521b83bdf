//! Stable sorting: a sorted sequence that keeps tied items in the order
//! they came in.
use vstd::prelude::*;

verus! {

/// `perm` takes each position of `out` to the position in `inp` its item
/// came from, one to one, and items that `tie` keep the order they had in
/// `inp`.
pub open spec fn stable_perm<T>(out: Seq<T>, inp: Seq<T>, perm: Seq<int>, tie: spec_fn(T, T) -> bool) -> bool {
    &&& perm.len() == out.len()
    &&& out.len() == inp.len()
    &&& forall|k: int| 0 <= k < out.len() ==> 0 <= #[trigger] perm[k] < inp.len() && out[k] == inp[perm[k]]
    &&& forall|a: int, b: int|
        0 <= a < out.len() && 0 <= b < out.len() && a != b ==> #[trigger] perm[a] != #[trigger] perm[b]
    &&& forall|a: int, b: int| 0 <= a < b < out.len() && tie(out[a], out[b]) ==> #[trigger] perm[a] < #[trigger] perm[b]
}

/// Inserting the next input item `x` into a sorted prefix, before the first
/// item it precedes, keeps the sort stable: every item tied with `x` came
/// earlier and stays before it.
pub proof fn lemma_insert_stable<T>(
    s: Seq<T>,
    inp: Seq<T>,
    perm: Seq<int>,
    p: int,
    x: T,
    lt: spec_fn(T, T) -> bool,
    tie: spec_fn(T, T) -> bool,
)
    requires
        forall|a: int, b: int| 0 <= a < b < s.len() ==> !lt(#[trigger] s[b], #[trigger] s[a]),
        stable_perm(s, inp, perm, tie),
        0 <= p <= s.len(),
        p < s.len() ==> lt(x, s[p]),
        forall|a: T| !#[trigger] lt(a, a),
        forall|a: T, b: T, c: T| #[trigger] tie(a, b) && #[trigger] lt(a, c) ==> lt(b, c),
    ensures
        stable_perm(s.insert(p, x), inp.push(x), perm.insert(p, inp.len() as int), tie),
{
    let t = s.insert(p, x);
    let n = inp.len() as int;
    let q = perm.insert(p, n);
    let inp2 = inp.push(x);
    assert forall|k: int| 0 <= k < t.len() implies 0 <= #[trigger] q[k] < inp2.len() && t[k] == inp2[q[k]] by {
        if k < p {
            assert(q[k] == perm[k] && t[k] == s[k]);
        } else if k == p {
            assert(q[k] == n && t[k] == x);
        } else {
            assert(q[k] == perm[k - 1] && t[k] == s[k - 1]);
        }
    }
    assert forall|a: int, b: int| 0 <= a < t.len() && 0 <= b < t.len() && a != b implies #[trigger] q[a]
        != #[trigger] q[b] by {
        let pa = if a < p { a } else { a - 1 };
        let pb = if b < p { b } else { b - 1 };
        if a != p && b != p {
            assert(q[a] == perm[pa] && q[b] == perm[pb]);
        } else if a == p {
            assert(q[b] == perm[pb] && perm[pb] < n);
        } else {
            assert(q[a] == perm[pa] && perm[pa] < n);
        }
    }
    assert forall|a: int, b: int| 0 <= a < b < t.len() && tie(t[a], t[b]) implies #[trigger] q[a] < #[trigger] q[b] by {
        if b < p {
            assert(q[a] == perm[a] && q[b] == perm[b] && t[a] == s[a] && t[b] == s[b]);
        } else if b == p {
            assert(q[a] == perm[a] && perm[a] < n);
        } else if a < p {
            assert(q[a] == perm[a] && q[b] == perm[b - 1] && t[a] == s[a] && t[b] == s[b - 1]);
        } else if a == p {
            assert(t[a] == x && t[b] == s[b - 1]);
            assert(lt(x, s[p]));
            assert(lt(s[b - 1], s[p]));
            assert(!lt(s[p], s[p]));
            if b - 1 > p {
                assert(!lt(s[b - 1], s[p]));
            }
            assert(false);
        } else {
            assert(q[a] == perm[a - 1] && q[b] == perm[b - 1] && t[a] == s[a - 1] && t[b] == s[b - 1]);
        }
    }
}

} // verus!
