//! Ordering rows in memory, since the database engine cannot order them.
use vstd::prelude::*;

verus! {

/// `ord` lists each of `0..n` exactly once.
pub open spec fn is_permutation(ord: Seq<usize>, n: nat) -> bool {
    &&& ord.len() == n
    &&& forall|i: int| 0 <= i < ord.len() ==> (#[trigger] ord[i]) < n
    &&& forall|i: int, j: int| 0 <= i < j < ord.len() ==> ord[i] != ord[j]
}

/// Keys taken in the order `ord` are ascending (or descending).
pub open spec fn ordered_by(keys: Seq<i64>, ord: Seq<usize>, descending: bool) -> bool {
    forall|i: int, j: int| 0 <= i < j < ord.len() ==>
        if descending { keys[ord[i] as int] >= keys[ord[j] as int] } else { keys[ord[i] as int] <= keys[ord[j] as int] }
}

/// Positions of `keys` in ascending (or descending) key order.
pub fn sort_order(keys: &Vec<i64>, descending: bool) -> (r: Vec<usize>)
    ensures
        is_permutation(r@, keys.len() as nat),
        ordered_by(keys@, r@, descending),
{
    let n = keys.len();
    let mut taken: Vec<bool> = Vec::new();
    let mut i: usize = 0;
    while i < n
        invariant
            i <= n,
            taken.len() == i,
            forall|k: int| 0 <= k < i ==> !taken@[k],
        decreases n - i,
    {
        taken.push(false);
        i = i + 1;
    }
    let mut out: Vec<usize> = Vec::new();
    while out.len() < n
        invariant
            n == keys.len(),
            taken.len() == n,
            out.len() <= n,
            forall|k: int| 0 <= k < out.len() ==> (#[trigger] out@[k]) < n && taken@[out@[k] as int],
            forall|a: int, b: int| 0 <= a < b < out.len() ==> out@[a] != out@[b],
            forall|x: int| 0 <= x < n && #[trigger] taken@[x] ==> exists|k: int| 0 <= k < out.len() && out@[k] == x,
            ordered_by(keys@, out@, descending),
            forall|k: int, x: int| 0 <= k < out.len() && 0 <= x < n && !(#[trigger] taken@[x]) ==>
                if descending { keys@[(#[trigger] out@[k]) as int] >= keys@[x] } else { keys@[out@[k] as int] <= keys@[x] },
        decreases n - out.len(),
    {
        // Some position is still free: fewer than `n` distinct positions are taken.
        let mut best: usize = n;
        let mut x: usize = 0;
        while x < n
            invariant
                n == keys.len(),
                taken.len() == n,
                x <= n,
                best == n || (best < x && !taken@[best as int]),
                best == n ==> forall|y: int| 0 <= y < x ==> taken@[y],
                best < n ==> forall|y: int| 0 <= y < x && !taken@[y] ==>
                    if descending { keys@[best as int] >= keys@[y] } else { keys@[best as int] <= keys@[y] },
            decreases n - x,
        {
            if !taken[x] {
                if best == n || (descending && keys[x] > keys[best]) || (!descending && keys[x] < keys[best]) {
                    best = x;
                }
            }
            x = x + 1;
        }
        proof {
            if best == n {
                lemma_all_taken(out@, taken@, n as int);
                assert(false);
            }
        }
        proof {
            assert forall|k: int| 0 <= k < out.len() implies (#[trigger] out@[k]) != best by {
                assert(taken@[out@[k] as int]);
            }
        }
        let ghost old_taken = taken@;
        let ghost old_out = out@;
        taken.set(best, true);
        out.push(best);
        proof {
            assert forall|x2: int| 0 <= x2 < n && #[trigger] taken@[x2] implies exists|k: int| 0 <= k < out.len() && out@[k] == x2 by {
                if x2 == best {
                    assert(out@[out.len() - 1] == x2);
                } else {
                    assert(old_taken[x2]);
                    let k = choose|k: int| 0 <= k < old_out.len() && old_out[k] == x2;
                    assert(out@[k] == x2);
                }
            }
        }
    }
    out
}

/// When every free position is gone, all `n` positions were taken.
proof fn lemma_all_taken(out: Seq<usize>, taken: Seq<bool>, n: int)
    requires
        taken.len() == n,
        out.len() <= n,
        forall|k: int| 0 <= k < out.len() ==> (#[trigger] out[k]) < n,
        forall|a: int, b: int| 0 <= a < b < out.len() ==> out[a] != out[b],
        forall|x: int| 0 <= x < n && #[trigger] taken[x] ==> exists|k: int| 0 <= k < out.len() && out[k] == x,
        forall|y: int| 0 <= y < n ==> taken[y],
    ensures
        out.len() == n,
{
    // The map from positions to their place in `out` is one-to-one into `0..out.len()`.
    let s = Set::new(|x: int| 0 <= x < n);
    let f = |x: int| choose|k: int| 0 <= k < out.len() && out[k] == x;
    let img = s.map(f);
    assert forall|x: int| #[trigger] s.contains(x) implies 0 <= f(x) < out.len() && out[f(x)] == x by {
        assert(taken[x]);
    }
    vstd::set_lib::lemma_int_range(0, n);
    vstd::set_lib::lemma_int_range(0, out.len() as int);
    assert(s =~= vstd::set_lib::set_int_range(0, n));
    assert forall|k: int| #[trigger] img.contains(k) implies vstd::set_lib::set_int_range(0, out.len() as int).contains(k) by {
        let x = choose|x: int| s.contains(x) && f(x) == k;
    }
    vstd::set_lib::lemma_len_subset(img, vstd::set_lib::set_int_range(0, out.len() as int));
    assert forall|a: int, b: int| s.contains(a) && s.contains(b) && #[trigger] f(a) == #[trigger] f(b) implies a == b by {
        assert(out[f(a)] == a);
        assert(out[f(b)] == b);
    }
    assert(vstd::relations::injective_on(f, s));
    vstd::set_lib::lemma_map_size(s, img, f);
}

} // verus!
