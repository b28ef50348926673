//! Hit testing over an element tree: the deepest interactive element under
//! the pointer, and the path from it up to the root.
//!
//! The tree is given in pre-order, entry `i` being the element with
//! pre-order index `i` and its subtree the entries `i .. i + subtree_len`.
//! Whether the pointer lies within an element's bounds is worked out by the
//! caller from the layout.
use vstd::prelude::*;

verus! {

/// What hit testing needs to know of one element.
#[derive(Debug, Clone, Copy)]
pub struct HitEntry {
    /// Whether the pointer lies within the element's bounds.
    pub inside: bool,
    /// Whether the element reacts to the pointer (a click, hover, drag or
    /// scroll handler, or a cursor style).
    pub interactive: bool,
    /// Number of elements in its subtree, itself included.
    pub subtree_len: usize,
}

/// Result of a hit test: pre-order indices from the deepest hit element up
/// to the root.
#[derive(Debug, Clone)]
pub struct HitResult {
    pub path: Vec<usize>,
}

/// Element `a`'s subtree holds element `t`.
pub open spec fn encloses(tree: Seq<HitEntry>, a: int, t: int) -> bool {
    0 <= a < tree.len() && a <= t < a + tree[a].subtree_len
}

/// The pointer is within element `t` and within every element holding it.
pub open spec fn under_pointer(tree: Seq<HitEntry>, t: int) -> bool {
    0 <= t < tree.len() && tree[t].inside && forall|a: int| #[trigger] encloses(tree, a, t) ==> tree[a].inside
}

/// Element `t` can be hit: it is interactive and under the pointer.
pub open spec fn hittable(tree: Seq<HitEntry>, t: int) -> bool {
    under_pointer(tree, t) && tree[t].interactive
}

/// The elements of `lo..=t` that hold `t`, from `t` down.
pub open spec fn enclosing_desc(tree: Seq<HitEntry>, t: int, lo: int) -> Seq<usize>
    decreases t + 1 - lo,
{
    if lo > t || lo < 0 {
        Seq::empty()
    } else if encloses(tree, lo, t) {
        enclosing_desc(tree, t, lo + 1).push(lo as usize)
    } else {
        enclosing_desc(tree, t, lo + 1)
    }
}

/// The path from element `t` up to the root.
pub open spec fn path_up(tree: Seq<HitEntry>, t: int) -> Seq<usize> {
    enclosing_desc(tree, t, 0)
}

/// Whether the pointer is within element `t` and every element holding it.
fn under_pointer_exec(tree: &Vec<HitEntry>, t: usize) -> (r: bool)
    requires
        t < tree.len(),
    ensures
        r == under_pointer(tree@, t as int),
{
    if !tree[t].inside {
        return false;
    }
    let mut a: usize = 0;
    while a <= t
        invariant
            t < tree.len(),
            a <= t + 1,
            forall|x: int| 0 <= x < a && #[trigger] encloses(tree@, x, t as int) ==> tree@[x].inside,
        decreases t + 1 - a,
    {
        if t - a < tree[a].subtree_len && !tree[a].inside {
            assert(encloses(tree@, a as int, t as int));
            return false;
        }
        a = a + 1;
    }
    true
}

/// The path from element `t` up to the root.
fn path_up_exec(tree: &Vec<HitEntry>, t: usize) -> (r: Vec<usize>)
    requires
        t < tree.len(),
    ensures
        r@ == path_up(tree@, t as int),
{
    let mut out: Vec<usize> = Vec::new();
    let mut i: usize = t + 1;
    while i > 0
        invariant
            t < tree.len(),
            i <= t + 1,
            out@ == enclosing_desc(tree@, t as int, i as int),
        decreases i,
    {
        i = i - 1;
        if t - i < tree[i].subtree_len {
            out.push(i);
        }
    }
    out
}

/// The deepest interactive element under the pointer, with the path from
/// it up to the root; none when no interactive element is under the
/// pointer. Children are tried last to first (the last drawn is on top),
/// each before its parent, so the element hit is the hittable one that
/// comes last in pre-order.
pub fn hit_test(tree: &Vec<HitEntry>) -> (r: Option<HitResult>)
    ensures
        match r {
            Some(h) => exists|t: int|
                #[trigger] hittable(tree@, t) && (forall|e: int| t < e < tree.len() ==> !hittable(tree@, e))
                    && h.path@ == path_up(tree@, t),
            None => forall|e: int| 0 <= e < tree.len() ==> !#[trigger] hittable(tree@, e),
        },
{
    let mut e: usize = tree.len();
    while e > 0
        invariant
            e <= tree.len(),
            forall|x: int| e <= x < tree.len() ==> !#[trigger] hittable(tree@, x),
        decreases e,
    {
        e = e - 1;
        if tree[e].interactive && under_pointer_exec(tree, e) {
            let path = path_up_exec(tree, e);
            assert(hittable(tree@, e as int));
            return Some(HitResult { path });
        }
    }
    None
}

/// The path of a hit starts at the element hit and ends at the root, when
/// every element holds itself and the root holds the element.
pub proof fn lemma_hit_path_ends(tree: Seq<HitEntry>, t: int)
    requires
        0 <= t < tree.len() <= usize::MAX,
        tree[t].subtree_len >= 1,
        encloses(tree, 0, t),
    ensures
        path_up(tree, t).len() > 0,
        path_up(tree, t)[0] == t as usize,
        path_up(tree, t).last() == 0usize,
{
    lemma_enclosing_desc_first(tree, t, 0);
    assert(enclosing_desc(tree, t, 0) == enclosing_desc(tree, t, 1).push(0usize));
}

proof fn lemma_enclosing_desc_first(tree: Seq<HitEntry>, t: int, lo: int)
    requires
        0 <= lo <= t < tree.len() <= usize::MAX,
        tree[t].subtree_len >= 1,
    ensures
        enclosing_desc(tree, t, lo).len() > 0,
        enclosing_desc(tree, t, lo)[0] == t as usize,
    decreases t + 1 - lo,
{
    if lo < t {
        lemma_enclosing_desc_first(tree, t, lo + 1);
    } else {
        assert(encloses(tree, t, t));
        assert(enclosing_desc(tree, t, t + 1).len() == 0);
    }
}

} // verus!
