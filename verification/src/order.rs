//! Stable sorting by an integer key (`slice::sort_by_key` semantics).
use vstd::prelude::*;

verus! {

/// `p` lists the positions `0..keys.len()` once each, ordered by key and,
/// among equal keys, by position: the permutation a stable sort applies.
pub open spec fn stable_order(keys: Seq<i128>, p: Seq<int>) -> bool {
    &&& p.len() == keys.len()
    &&& forall|k: int| 0 <= k < p.len() ==> 0 <= #[trigger] p[k] < keys.len()
    &&& forall|a: int, b: int| 0 <= a < b < p.len() ==> #[trigger] p[a] != #[trigger] p[b]
    &&& forall|a: int, b: int|
        0 <= a < b < p.len() ==> (keys[#[trigger] p[a]] < keys[#[trigger] p[b]] || (keys[p[a]]
            == keys[p[b]] && p[a] < p[b]))
}

/// `out` is `inp` stably sorted by `keys` (one key per element of `inp`).
pub open spec fn is_stable_sort<T>(out: Seq<T>, inp: Seq<T>, keys: Seq<i128>) -> bool {
    exists|p: Seq<int>|
        stable_order(keys, p) && out.len() == inp.len() && forall|k: int|
            0 <= k < out.len() ==> #[trigger] out[k] == inp[p[k]]
}

/// Stable sort of `items` by the parallel `keys`.
pub fn stable_sort<T>(items: Vec<T>, keys: &Vec<i128>) -> (r: Vec<T>)
    requires
        items@.len() == keys@.len(),
    ensures
        is_stable_sort(r@, items@, keys@),
{
    let ghost orig = items@;
    let n = items.len();
    let mut rest = items;
    let mut out: Vec<T> = Vec::new();
    let mut out_keys: Vec<i128> = Vec::new();
    let ghost mut p: Seq<int> = Seq::empty();
    while rest.len() > 0
        invariant
            n == orig.len() == keys@.len(),
            rest@ == orig.subrange(0, rest@.len() as int),
            out@.len() == p.len() == out_keys@.len(),
            p.len() + rest@.len() == n,
            forall|k: int| 0 <= k < p.len() ==> rest@.len() <= #[trigger] p[k] < n,
            forall|a: int, b: int| 0 <= a < b < p.len() ==> #[trigger] p[a] != #[trigger] p[b],
            forall|k: int| 0 <= k < p.len() ==> #[trigger] out@[k] == orig[p[k]],
            forall|k: int| 0 <= k < p.len() ==> #[trigger] out_keys@[k] == keys@[p[k]],
            forall|a: int, b: int|
                0 <= a < b < p.len() ==> (keys@[#[trigger] p[a]] < keys@[#[trigger] p[b]] || (
                keys@[p[a]] == keys@[p[b]] && p[a] < p[b])),
        decreases rest@.len(),
    {
        let x = rest.pop().unwrap();
        let i = rest.len();
        let k = keys[i];
        let mut pos: usize = 0;
        while pos < out_keys.len() && out_keys[pos] < k
            invariant
                pos <= out_keys@.len(),
                forall|t: int| 0 <= t < pos ==> out_keys@[t] < k,
            decreases out_keys@.len() - pos,
        {
            pos = pos + 1;
        }
        proof {
            assert(x == orig[i as int]);
            let np = p.insert(pos as int, i as int);
            assert forall|a: int, b: int| 0 <= a < b < np.len() implies (keys@[#[trigger] np[a]]
                < keys@[#[trigger] np[b]] || (keys@[np[a]] == keys@[np[b]] && np[a] < np[b])) by {
                if a < pos && b < pos {
                    assert(np[a] == p[a] && np[b] == p[b]);
                } else if a < pos && b == pos {
                    assert(np[a] == p[a]);
                    assert(out_keys@[a] < k);
                } else if a < pos && b > pos {
                    assert(np[a] == p[a] && np[b] == p[b - 1]);
                } else if a == pos {
                    assert(np[b] == p[b - 1]);
                    if b - 1 > pos {
                        assert(keys@[p[pos as int]] <= keys@[p[b - 1]]);
                    }
                    assert(out_keys@[b - 1] >= k);
                } else {
                    assert(np[a] == p[a - 1] && np[b] == p[b - 1]);
                }
            }
            assert forall|a: int, b: int| 0 <= a < b < np.len() implies #[trigger] np[a]
                != #[trigger] np[b] by {
                if a < pos && b < pos {
                } else if a < pos && b == pos {
                    assert(np[a] == p[a]);
                } else if a < pos && b > pos {
                    assert(np[a] == p[a] && np[b] == p[b - 1]);
                } else if a == pos {
                    assert(np[b] == p[b - 1]);
                } else {
                    assert(np[a] == p[a - 1] && np[b] == p[b - 1]);
                }
            }
            p = np;
        }
        out.insert(pos, x);
        out_keys.insert(pos, k);
        proof {
            assert forall|t: int| 0 <= t < p.len() implies #[trigger] out@[t] == orig[p[t]] by {
                if t < pos {
                } else if t == pos {
                } else {
                }
            }
            assert forall|t: int| 0 <= t < p.len() implies #[trigger] out_keys@[t] == keys@[p[t]] by {
                if t < pos {
                } else if t == pos {
                } else {
                }
            }
            assert(rest@ =~= orig.subrange(0, rest@.len() as int));
        }
    }
    assert(stable_order(keys@, p));
    out
}

} // verus!
