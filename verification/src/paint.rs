//! The order in which an element's children are painted, by z-index.
use vstd::prelude::*;

verus! {

/// The z-index a child is painted at: its own, or 0 when it has none.
pub open spec fn z_of(z: Option<i32>) -> int {
    match z {
        Some(v) => v as int,
        None => 0,
    }
}

/// Child `x` is painted before child `y`: lower z-index first, and at
/// equal z-index in tree order.
pub open spec fn painted_before(zs: Seq<Option<i32>>, x: int, y: int) -> bool {
    z_of(zs[x]) < z_of(zs[y]) || (z_of(zs[x]) == z_of(zs[y]) && x < y)
}

/// The order in which to paint children with z-indices `z_indices`:
/// children with a negative z-index first (lowest first), then those
/// without one (or with 0) in tree order, then those with a positive
/// z-index (lowest first); equal z-indices keep tree order.
pub fn paint_order(z_indices: &Vec<Option<i32>>) -> (r: Vec<usize>)
    ensures
        r.len() == z_indices.len(),
        forall|a: int| 0 <= a < r.len() ==> #[trigger] r[a] < z_indices.len(),
        forall|a: int, b: int| 0 <= a < b < r.len() ==> painted_before(z_indices@, #[trigger] r[a] as int, #[trigger] r[b] as int),
        forall|i: int| 0 <= i < z_indices.len() ==> #[trigger] listed_at(r@, i),
{
    let mut out: Vec<usize> = Vec::new();
    let mut i: usize = 0;
    while i < z_indices.len()
        invariant
            i <= z_indices.len(),
            out.len() == i,
            forall|a: int| 0 <= a < out.len() ==> #[trigger] out[a] < i,
            forall|a: int, b: int| 0 <= a < b < out.len() ==> painted_before(z_indices@, #[trigger] out[a] as int, #[trigger] out[b] as int),
            forall|j: int| 0 <= j < i ==> #[trigger] listed_at(out@, j),
        decreases z_indices.len() - i,
    {
        let zi = z_at(z_indices, i);
        let mut p: usize = 0;
        while p < out.len() && z_at(z_indices, out[p]) <= zi
            invariant
                p <= out.len(),
                i < z_indices.len(),
                zi as int == z_of(z_indices@[i as int]),
                forall|a: int| 0 <= a < out.len() ==> #[trigger] out[a] < i,
                forall|a: int| 0 <= a < p ==> z_of(z_indices@[#[trigger] out[a] as int]) <= zi,
            decreases out.len() - p,
        {
            p = p + 1;
        }
        let ghost o = out@;
        out.insert(p, i);
        proof {
            assert forall|a: int| 0 <= a < out.len() implies #[trigger] out[a] < i + 1 by {
                if a < p {
                    assert(out[a] == o[a]);
                } else if a > p {
                    assert(out[a] == o[a - 1]);
                }
            }
            assert forall|a: int, b: int| 0 <= a < b < out.len() implies painted_before(z_indices@, #[trigger] out[a] as int, #[trigger] out[b] as int) by {
                let oa = if a < p { a } else { a - 1 };
                let ob = if b < p { b } else { b - 1 };
                if a != p as int && b != p as int {
                    assert(out[a] == o[oa] && out[b] == o[ob]);
                    assert(painted_before(z_indices@, o[oa] as int, o[ob] as int));
                } else if a == p as int {
                    assert(out[b] == o[ob]);
                    assert(z_of(z_indices@[o[p as int] as int]) > zi);
                    if ob > p {
                        assert(painted_before(z_indices@, o[p as int] as int, o[ob] as int));
                    }
                } else {
                    assert(out[a] == o[oa]);
                    assert(z_of(z_indices@[o[oa] as int]) <= zi);
                    assert(o[oa] < i);
                }
            }
            assert forall|j: int| 0 <= j < i + 1 implies #[trigger] listed_at(out@, j) by {
                if j == i {
                    assert(out@[p as int] == i);
                } else {
                    assert(listed_at(o, j));
                    let a0 = choose|a: int| 0 <= a < o.len() && #[trigger] o[a] == j;
                    if a0 < p {
                        assert(out@[a0] == j);
                    } else {
                        assert(out@[a0 + 1] == j);
                    }
                }
            }
        }
        i = i + 1;
    }
    out
}

/// Position `j` occurs in `r`.
pub open spec fn listed_at(r: Seq<usize>, j: int) -> bool {
    exists|a: int| 0 <= a < r.len() && #[trigger] r[a] == j
}

/// The z-index child `k` is painted at.
fn z_at(z_indices: &Vec<Option<i32>>, k: usize) -> (z: i32)
    requires
        k < z_indices.len(),
    ensures
        z as int == z_of(z_indices@[k as int]),
{
    match z_indices[k] {
        Some(v) => v,
        None => 0,
    }
}

/// Without z-indices, children are painted in tree order.
pub proof fn lemma_no_z_index_tree_order(zs: Seq<Option<i32>>, r: Seq<usize>)
    requires
        forall|i: int| 0 <= i < zs.len() ==> #[trigger] zs[i] is None,
        r.len() == zs.len(),
        forall|a: int| 0 <= a < r.len() ==> #[trigger] r[a] < zs.len(),
        forall|a: int, b: int| 0 <= a < b < r.len() ==> painted_before(zs, #[trigger] r[a] as int, #[trigger] r[b] as int),
    ensures
        forall|a: int| 0 <= a < r.len() ==> #[trigger] r[a] == a,
{
    assert forall|a: int, b: int| 0 <= a < b < r.len() implies #[trigger] r[a] < #[trigger] r[b] by {
        assert(zs[r[a] as int] is None && zs[r[b] as int] is None);
        assert(painted_before(zs, r[a] as int, r[b] as int));
    }
    lemma_increasing_is_identity(r, zs.len() as int);
}

proof fn lemma_increasing_is_identity(r: Seq<usize>, n: int)
    requires
        r.len() == n,
        forall|a: int| 0 <= a < r.len() ==> #[trigger] r[a] < n,
        forall|a: int, b: int| 0 <= a < b < r.len() ==> #[trigger] r[a] < #[trigger] r[b],
    ensures
        forall|a: int| 0 <= a < r.len() ==> #[trigger] r[a] == a,
    decreases n,
{
    if n > 0 {
        let s = r.drop_last();
        assert forall|a: int| 0 <= a < s.len() implies #[trigger] s[a] < n - 1 by {
            assert(r[a] < r[n - 1]);
        }
        lemma_increasing_is_identity(s, n - 1);
        assert forall|a: int| 0 <= a < r.len() implies #[trigger] r[a] == a by {
            if a < n - 1 {
                assert(s[a] == a);
            } else if n > 1 {
                assert(s[n - 2] == n - 2);
                assert(r[n - 2] < r[n - 1]);
            }
        }
    }
}

} // verus!
