//! Keyboard focus over an element tree: which elements Tab reaches and in
//! what order, the path from the root to an element, the focus trap that
//! holds an element, and where Tab or Shift+Tab moves the focus.
//!
//! The tree is given in pre-order: entry `i` is the element with pre-order
//! index `i`, and its subtree is the entries `i .. i + subtree_len`.
use vstd::prelude::*;

verus! {

/// What focus handling needs to know of one element.
#[derive(Debug, Clone, Copy)]
pub struct FocusEntry {
    /// Whether Tab can reach the element (see `element_is_tabbable`).
    pub tabbable: bool,
    /// The element's tab index, if it has one.
    pub tab_index: Option<i32>,
    /// Whether the element keeps Tab navigation inside itself.
    pub focus_trap: bool,
    /// Number of elements in its subtree, itself included.
    pub subtree_len: usize,
}

/// Whether an element can take focus: never when disabled; otherwise as
/// its explicit setting says, or else when it is an interactive element (a
/// text field, button, check box, radio button, switch, slider or select)
/// or has a click handler.
pub fn element_is_focusable(disabled: bool, focusable: Option<bool>, interactive: bool) -> (r: bool)
    ensures
        r == (!disabled && match focusable {
            Some(f) => f,
            None => interactive,
        }),
{
    if disabled {
        return false;
    }
    match focusable {
        Some(f) => f,
        None => interactive,
    }
}

/// Whether Tab reaches an element: never when disabled; when focusability
/// is set explicitly, only if it is set and the element has a tab index;
/// otherwise when it is interactive (see `element_is_focusable`).
pub fn element_is_tabbable(
    disabled: bool,
    focusable: Option<bool>,
    tab_index: Option<i32>,
    interactive: bool,
) -> (r: bool)
    ensures
        r == (!disabled && match focusable {
            Some(f) => f && tab_index is Some,
            None => interactive,
        }),
{
    if disabled {
        return false;
    }
    match focusable {
        Some(f) => f && tab_index.is_some(),
        None => interactive,
    }
}

/// Element `a`'s subtree holds element `t`.
pub open spec fn holds(tree: Seq<FocusEntry>, a: int, t: int) -> bool {
    0 <= a < tree.len() && a <= t < a + tree[a].subtree_len
}

/// The elements before `i` whose subtree holds `t`, in pre-order.
pub open spec fn ancestors_before(tree: Seq<FocusEntry>, t: int, i: int) -> Seq<usize>
    decreases i,
{
    if i <= 0 {
        Seq::empty()
    } else if holds(tree, i - 1, t) {
        ancestors_before(tree, t, i - 1).push((i - 1) as usize)
    } else {
        ancestors_before(tree, t, i - 1)
    }
}

/// The path from the root to element `t` (both included), as pre-order
/// indices; empty when there is no element `t`.
pub open spec fn path_to(tree: Seq<FocusEntry>, t: int) -> Seq<usize> {
    if 0 <= t < tree.len() {
        ancestors_before(tree, t, t + 1)
    } else {
        Seq::empty()
    }
}

/// The last element before `i` that holds `t` and is a focus trap.
pub open spec fn trap_before(tree: Seq<FocusEntry>, t: int, i: int) -> Option<int>
    decreases i,
{
    if i <= 0 {
        None
    } else if holds(tree, i - 1, t) && tree[i - 1].focus_trap {
        Some(i - 1)
    } else {
        trap_before(tree, t, i - 1)
    }
}

/// The nearest focus trap on the path from the root to `t`, `t` included.
pub open spec fn trap_of(tree: Seq<FocusEntry>, t: int) -> Option<int> {
    if 0 <= t < tree.len() {
        trap_before(tree, t, t + 1)
    } else {
        None
    }
}

/// The path from the root to element `target`, as pre-order indices.
pub fn build_path_to_element(tree: &Vec<FocusEntry>, target: usize) -> (r: Vec<usize>)
    ensures
        r@ == path_to(tree@, target as int),
{
    let mut path: Vec<usize> = Vec::new();
    if target >= tree.len() {
        return path;
    }
    let mut i: usize = 0;
    while i <= target
        invariant
            target < tree.len(),
            i <= target + 1,
            path@ == ancestors_before(tree@, target as int, i as int),
        decreases target + 1 - i,
    {
        if i <= target && target - i < tree[i].subtree_len {
            path.push(i);
        }
        i = i + 1;
    }
    path
}

/// The nearest focus trap holding element `target` (itself included).
pub fn find_focus_trap_ancestor(tree: &Vec<FocusEntry>, target: usize) -> (r: Option<usize>)
    ensures
        r matches Some(a) ==> a < tree.len() && trap_of(tree@, target as int) == Some(a as int),
        r is None ==> trap_of(tree@, target as int) is None,
{
    if target >= tree.len() {
        return None;
    }
    let mut found: Option<usize> = None;
    let mut i: usize = 0;
    while i <= target
        invariant
            target < tree.len(),
            i <= target + 1,
            found matches Some(a) ==> a < i && trap_before(tree@, target as int, i as int) == Some(a as int),
            found is None ==> trap_before(tree@, target as int, i as int) is None,
        decreases target + 1 - i,
    {
        if target - i < tree[i].subtree_len && tree[i].focus_trap {
            found = Some(i);
        }
        i = i + 1;
    }
    found
}

/// Element `i` has a positive tab index, which puts it ahead of the
/// elements without one.
pub open spec fn explicit_tab(e: FocusEntry) -> bool {
    e.tab_index matches Some(n) && n > 0
}

/// Element `x` comes before element `y` in Tab order: positive tab
/// indices first, by tab index and then document order; then the others
/// in document order.
pub open spec fn tab_before(tree: Seq<FocusEntry>, x: int, y: int) -> bool {
    if explicit_tab(tree[x]) && explicit_tab(tree[y]) {
        tree[x].tab_index->0 < tree[y].tab_index->0 || (tree[x].tab_index->0 == tree[y].tab_index->0
            && x < y)
    } else if explicit_tab(tree[x]) {
        true
    } else if explicit_tab(tree[y]) {
        false
    } else {
        x < y
    }
}

/// Element `i` is reached by Tab while the trap `trap` (if any) holds the
/// focus: it is tabbable and, under a trap, inside the trap's subtree.
pub open spec fn tab_stop(tree: Seq<FocusEntry>, trap: Option<int>, i: int) -> bool {
    &&& 0 <= i < tree.len()
    &&& tree[i].tabbable
    &&& match trap {
        Some(r) => holds(tree, r, i),
        None => true,
    }
}

/// `r` is the Tab order: every Tab stop once, in `tab_before` order.
pub open spec fn tab_ordered(tree: Seq<FocusEntry>, trap: Option<int>, r: Seq<usize>) -> bool {
    &&& forall|a: int| 0 <= a < r.len() ==> #[trigger] tab_stop(tree, trap, r[a] as int)
    &&& forall|a: int, b: int| 0 <= a < b < r.len() ==> tab_before(tree, #[trigger] r[a] as int, #[trigger] r[b] as int)
    &&& forall|i: int| #[trigger] tab_stop(tree, trap, i) ==> exists|a: int| 0 <= a < r.len() && r[a] == i
}

/// The trap that holds the focused element, if any.
pub open spec fn active_trap(tree: Seq<FocusEntry>, focused: Option<usize>) -> Option<int> {
    match focused {
        Some(f) => trap_of(tree, f as int),
        None => None,
    }
}

/// The elements Tab visits, in order. Inside a focus trap only the
/// trap's own elements take part.
pub fn build_tab_order(tree: &Vec<FocusEntry>, focused: Option<usize>) -> (r: Vec<usize>)
    ensures
        tab_ordered(tree@, active_trap(tree@, focused), r@),
{
    let trap = match focused {
        Some(f) => find_focus_trap_ancestor(tree, f),
        None => None,
    };
    let ghost gt: Option<int> = match trap {
        Some(t) => Some(t as int),
        None => None,
    };
    assert(gt == active_trap(tree@, focused));
    let mut out: Vec<usize> = Vec::new();
    let mut i: usize = 0;
    while i < tree.len()
        invariant
            i <= tree.len(),
            gt == match trap {
                Some(t) => Some(t as int),
                None => None::<int>,
            },
            trap matches Some(t) ==> t < tree.len(),
            forall|a: int| 0 <= a < out.len() ==> #[trigger] out[a] < i && tab_stop(tree@, gt, out[a] as int),
            forall|a: int, b: int| 0 <= a < b < out.len() ==> tab_before(tree@, #[trigger] out[a] as int, #[trigger] out[b] as int),
            forall|j: int| 0 <= j < i && #[trigger] tab_stop(tree@, gt, j) ==> exists|a: int| 0 <= a < out.len() && out[a] == j,
        decreases tree.len() - i,
    {
        let in_scope = match trap {
            Some(t) => t <= i && i - t < tree[t].subtree_len,
            None => true,
        };
        if tree[i].tabbable && in_scope {
            let e = tree[i];
            let mut p: usize = 0;
            while p < out.len() && !tab_before_exec(tree, i, out[p])
                invariant
                    p <= out.len(),
                    i < tree.len(),
                    forall|a: int| 0 <= a < out.len() ==> #[trigger] out[a] < i,
                    forall|a: int| 0 <= a < p ==> !tab_before(tree@, i as int, #[trigger] out[a] as int),
                decreases out.len() - p,
            {
                p = p + 1;
            }
            let ghost o = out@;
            out.insert(p, i);
            proof {
                assert forall|a: int| 0 <= a < out.len() implies #[trigger] out[a] < i + 1 && tab_stop(tree@, gt, out[a] as int) by {
                    if a < p {
                        assert(out[a] == o[a]);
                    } else if a > p {
                        assert(out[a] == o[a - 1]);
                    }
                }
                assert forall|a: int, b: int| 0 <= a < b < out.len() implies tab_before(tree@, #[trigger] out[a] as int, #[trigger] out[b] as int) by {
                    let oa = if a < p { a } else { a - 1 };
                    let ob = if b < p { b } else { b - 1 };
                    if a != p as int && b != p as int {
                        assert(out[a] == o[oa] && out[b] == o[ob]);
                        assert(oa < ob);
                        assert(tab_before(tree@, o[oa] as int, o[ob] as int));
                    } else if a == p as int {
                        assert(out[b] == o[ob]);
                        assert(tab_before(tree@, i as int, o[p as int] as int));
                        if ob > p {
                            assert(tab_before(tree@, o[p as int] as int, o[ob] as int));
                        }
                    } else {
                        assert(out[a] == o[oa]);
                        assert(!tab_before(tree@, i as int, o[oa] as int));
                        assert(o[oa] < i);
                    }
                }
                assert forall|j: int| 0 <= j < i + 1 && #[trigger] tab_stop(tree@, gt, j) implies exists|a: int| 0 <= a < out.len() && out[a] == j by {
                    if j == i {
                        assert(out[p as int] == i);
                    } else {
                        let a0 = choose|a: int| 0 <= a < o.len() && o[a] == j;
                        if a0 < p {
                            assert(out[a0] == j);
                        } else {
                            assert(out[a0 + 1] == j);
                        }
                    }
                }
            }
        } else {
            assert(!tab_stop(tree@, gt, i as int));
        }
        i = i + 1;
    }
    out
}

/// `tab_before` on two elements of the tree.
fn tab_before_exec(tree: &Vec<FocusEntry>, x: usize, y: usize) -> (r: bool)
    requires
        x < tree.len(),
        y < tree.len(),
    ensures
        r == tab_before(tree@, x as int, y as int),
{
    let ex = match tree[x].tab_index {
        Some(n) => n > 0,
        None => false,
    };
    let ey = match tree[y].tab_index {
        Some(n) => n > 0,
        None => false,
    };
    if ex && ey {
        let tx = tree[x].tab_index.unwrap();
        let ty = tree[y].tab_index.unwrap();
        tx < ty || (tx == ty && x < y)
    } else if ex {
        true
    } else if ey {
        false
    } else {
        x < y
    }
}

/// Position of the first occurrence of `f` in `order`.
pub open spec fn position_in(order: Seq<usize>, f: usize) -> Option<int>
    decreases order.len(),
{
    if order.len() == 0 {
        None
    } else if order[0] == f {
        Some(0)
    } else {
        match position_in(order.drop_first(), f) {
            Some(k) => Some(k + 1),
            None => None,
        }
    }
}

proof fn lemma_position_at(order: Seq<usize>, f: usize, k: int)
    requires
        0 <= k < order.len(),
        order[k] == f,
        forall|j: int| 0 <= j < k ==> #[trigger] order[j] != f,
    ensures
        position_in(order, f) == Some(k),
    decreases k,
{
    if k > 0 {
        lemma_position_at(order.drop_first(), f, k - 1);
    }
}

proof fn lemma_position_none(order: Seq<usize>, f: usize)
    requires
        forall|j: int| 0 <= j < order.len() ==> #[trigger] order[j] != f,
    ensures
        position_in(order, f) is None,
    decreases order.len(),
{
    if order.len() > 0 {
        lemma_position_none(order.drop_first(), f);
    }
}

/// Position of the first `f` in `order`.
fn find_position(order: &Vec<usize>, f: usize) -> (r: Option<usize>)
    ensures
        r matches Some(k) ==> k < order.len() && position_in(order@, f) == Some(k as int),
        r is None ==> position_in(order@, f) is None,
{
    let mut k: usize = 0;
    while k < order.len()
        invariant
            k <= order.len(),
            forall|j: int| 0 <= j < k ==> #[trigger] order@[j] != f,
        decreases order.len() - k,
    {
        if order[k] == f {
            proof {
                lemma_position_at(order@, f, k as int);
            }
            return Some(k);
        }
        k = k + 1;
    }
    proof {
        lemma_position_none(order@, f);
    }
    None
}

/// Where Tab (or Shift+Tab, `reverse`) moves the focus along `order`.
pub open spec fn next_in_order(order: Seq<usize>, focused: Option<usize>, reverse: bool) -> Option<usize> {
    if order.len() == 0 {
        None
    } else {
        let pos = match focused {
            Some(f) => position_in(order, f),
            None => None,
        };
        let next = match pos {
            Some(k) => if reverse {
                if k == 0 {
                    order.len() - 1
                } else {
                    k - 1
                }
            } else {
                if k == order.len() - 1 {
                    0
                } else {
                    k + 1
                }
            },
            None => if reverse {
                order.len() - 1
            } else {
                0
            },
        };
        Some(order[next])
    }
}

/// The element Tab (or Shift+Tab, `reverse`) moves the focus to: the next
/// (previous) one in `order` after the focused element, wrapping around;
/// the first (last) one when the focus is elsewhere; none when `order` is
/// empty.
pub fn next_focus(order: &Vec<usize>, focused: Option<usize>, reverse: bool) -> (r: Option<usize>)
    ensures
        r == next_in_order(order@, focused, reverse),
{
    if order.len() == 0 {
        return None;
    }
    let pos = match focused {
        Some(f) => find_position(order, f),
        None => None,
    };
    let n = order.len();
    let next = match pos {
        Some(k) => if reverse {
            if k == 0 {
                n - 1
            } else {
                k - 1
            }
        } else {
            if k == n - 1 {
                0
            } else {
                k + 1
            }
        },
        None => if reverse {
            n - 1
        } else {
            0
        },
    };
    Some(order[next])
}

/// Which element has the keyboard focus.
#[derive(Debug, Clone, Copy)]
pub struct FocusState {
    pub focused: Option<usize>,
}

impl FocusState {
    pub fn new() -> (r: Self)
        ensures
            r.focused is None,
    {
        FocusState { focused: None }
    }

    /// Give the focus to `new_focus`; whether it moved. When it moves, the
    /// element that had it gets its blur and focus-out events and the new
    /// one its focus and focus-in events (the caller fires them, with the
    /// other element as the related target).
    pub fn set_focus(&mut self, new_focus: Option<usize>) -> (changed: bool)
        ensures
            changed == (old(self).focused != new_focus),
            final(self).focused == new_focus,
    {
        if self.focused == new_focus {
            return false;
        }
        self.focused = new_focus;
        true
    }

    /// A button went down on element `target` (and the press was not
    /// prevented): a focusable target takes the focus, and pressing an
    /// element that cannot take focus blurs the focused one. Returns
    /// whether the focus moved.
    pub fn focus_on_press(&mut self, target: usize, is_focusable: bool) -> (changed: bool)
        ensures
            final(self).focused == (if is_focusable {
                Some(target)
            } else {
                None
            }),
            changed == (old(self).focused != final(self).focused),
    {
        if is_focusable && self.focused != Some(target) {
            self.set_focus(Some(target))
        } else if !is_focusable && self.focused.is_some() {
            self.set_focus(None)
        } else {
            false
        }
    }

    /// Tab (or Shift+Tab, `reverse`): move the focus along the Tab order of
    /// `tree`; whether it moved.
    pub fn move_focus(&mut self, tree: &Vec<FocusEntry>, reverse: bool) -> (changed: bool)
        ensures
            ({
                let order = tab_order_of(tree@, old(self).focused);
                &&& tab_ordered(tree@, active_trap(tree@, old(self).focused), order)
                &&& if order.len() == 0 {
                    !changed && final(self).focused == old(self).focused
                } else {
                    final(self).focused == next_in_order(order, old(self).focused, reverse)
                        && changed == (old(self).focused != final(self).focused)
                }
            }),
    {
        let order = build_tab_order(tree, self.focused);
        proof {
            lemma_tab_order_unique(tree@, active_trap(tree@, self.focused), order@);
        }
        if order.len() == 0 {
            return false;
        }
        let next = next_focus(&order, self.focused, reverse);
        self.set_focus(next)
    }
}

/// The Tab order with the focus on `focused` (the order is unique: see
/// `lemma_tab_order_unique`).
pub open spec fn tab_order_of(tree: Seq<FocusEntry>, focused: Option<usize>) -> Seq<usize> {
    choose|r: Seq<usize>| tab_ordered(tree, active_trap(tree, focused), r)
}

/// There is exactly one Tab order.
pub proof fn lemma_tab_order_unique(tree: Seq<FocusEntry>, trap: Option<int>, r: Seq<usize>)
    requires
        tab_ordered(tree, trap, r),
    ensures
        forall|q: Seq<usize>| tab_ordered(tree, trap, q) ==> q == r,
        tab_ordered(tree, trap, choose|q: Seq<usize>| tab_ordered(tree, trap, q)),
        (choose|q: Seq<usize>| tab_ordered(tree, trap, q)) == r,
{
    assert forall|q: Seq<usize>| tab_ordered(tree, trap, q) implies q == r by {
        lemma_sorted_lists_equal(tree, trap, q, r);
    }
}

/// Two lists holding the same Tab stops, each sorted by `tab_before`, are
/// the same list.
proof fn lemma_sorted_lists_equal(tree: Seq<FocusEntry>, trap: Option<int>, q: Seq<usize>, r: Seq<usize>)
    requires
        tab_ordered(tree, trap, q),
        tab_ordered(tree, trap, r),
    ensures
        q == r,
{
    assert forall|x: int| 0 <= x < q.len() implies #[trigger] r.contains(q[x]) by {
        assert(tab_stop(tree, trap, q[x] as int));
        let y = choose|y: int| 0 <= y < r.len() && r[y] == q[x] as int;
        assert(r[y] == q[x]);
    }
    assert forall|x: int| 0 <= x < r.len() implies #[trigger] q.contains(r[x]) by {
        assert(tab_stop(tree, trap, r[x] as int));
        let y = choose|y: int| 0 <= y < q.len() && q[y] == r[x] as int;
        assert(q[y] == r[x]);
    }
    assert forall|a: int| 0 <= a < q.len() implies #[trigger] q[a] < tree.len() by {
        assert(tab_stop(tree, trap, q[a] as int));
    }
    assert forall|a: int| 0 <= a < r.len() implies #[trigger] r[a] < tree.len() by {
        assert(tab_stop(tree, trap, r[a] as int));
    }
    lemma_sublists_equal(tree, q, r);
}

/// A list strictly sorted by `tab_before` has its smallest element first.
pub open spec fn tab_sorted(tree: Seq<FocusEntry>, q: Seq<usize>) -> bool {
    &&& forall|a: int| 0 <= a < q.len() ==> #[trigger] q[a] < tree.len()
    &&& forall|a: int, b: int| 0 <= a < b < q.len() ==> tab_before(tree, #[trigger] q[a] as int, #[trigger] q[b] as int)
}

/// Every element of `q` is in `r`.
pub open spec fn within(q: Seq<usize>, r: Seq<usize>) -> bool {
    forall|x: int| 0 <= x < q.len() ==> #[trigger] r.contains(q[x])
}

proof fn lemma_heads_equal(tree: Seq<FocusEntry>, q: Seq<usize>, r: Seq<usize>)
    requires
        tab_sorted(tree, q),
        tab_sorted(tree, r),
        within(q, r),
        within(r, q),
        q.len() > 0,
        r.len() > 0,
    ensures
        q[0] == r[0],
{
    assert(r.contains(q[0]));
    assert(q.contains(r[0]));
    let ia = choose|x: int| 0 <= x < r.len() && r[x] == q[0];
    let ib = choose|x: int| 0 <= x < q.len() && q[x] == r[0];
    if q[0] != r[0] {
        assert(ia > 0 && ib > 0);
        assert(tab_before(tree, r[0] as int, r[ia] as int));
        assert(tab_before(tree, q[0] as int, q[ib] as int));
        lemma_tab_before_strict_order(tree, q[0] as int, r[0] as int, q[0] as int);
    }
}

proof fn lemma_tails_within(tree: Seq<FocusEntry>, q: Seq<usize>, r: Seq<usize>)
    requires
        tab_sorted(tree, q),
        tab_sorted(tree, r),
        within(q, r),
        q.len() > 0,
        r.len() > 0,
        q[0] == r[0],
    ensures
        within(q.drop_first(), r.drop_first()),
{
    let q1 = q.drop_first();
    let r1 = r.drop_first();
    assert forall|x: int| 0 <= x < q1.len() implies #[trigger] r1.contains(q1[x]) by {
        assert(q1[x] == q[x + 1]);
        assert(r.contains(q[x + 1]));
        let y = choose|y: int| 0 <= y < r.len() && r[y] == q[x + 1];
        assert(tab_before(tree, q[0] as int, q[x + 1] as int));
        lemma_tab_before_strict_order(tree, q[0] as int, q[0] as int, q[0] as int);
        assert(y != 0);
        assert(r1[y - 1] == q1[x]);
    }
}

/// Two lists with the same elements, each strictly sorted by `tab_before`,
/// are the same list.
proof fn lemma_sublists_equal(tree: Seq<FocusEntry>, q: Seq<usize>, r: Seq<usize>)
    requires
        tab_sorted(tree, q),
        tab_sorted(tree, r),
        within(q, r),
        within(r, q),
    ensures
        q == r,
    decreases q.len() + r.len(),
{
    if q.len() == 0 || r.len() == 0 {
        if q.len() > 0 {
            assert(r.contains(q[0]));
        }
        if r.len() > 0 {
            assert(q.contains(r[0]));
        }
        assert(q =~= r);
    } else {
        lemma_heads_equal(tree, q, r);
        lemma_tails_within(tree, q, r);
        lemma_tails_within(tree, r, q);
        let q1 = q.drop_first();
        let r1 = r.drop_first();
        assert(tab_sorted(tree, q1)) by {
            assert forall|a: int, b: int| 0 <= a < b < q1.len() implies tab_before(tree, #[trigger] q1[a] as int, #[trigger] q1[b] as int) by {
                assert(q1[a] == q[a + 1] && q1[b] == q[b + 1]);
            }
        }
        assert(tab_sorted(tree, r1)) by {
            assert forall|a: int, b: int| 0 <= a < b < r1.len() implies tab_before(tree, #[trigger] r1[a] as int, #[trigger] r1[b] as int) by {
                assert(r1[a] == r[a + 1] && r1[b] == r[b + 1]);
            }
        }
        lemma_sublists_equal(tree, q1, r1);
        assert(q =~= seq![q[0]] + q1);
        assert(r =~= seq![r[0]] + r1);
    }
}

// ---------------------------------------------------------------------------
// Laws
// ---------------------------------------------------------------------------

/// Tab order is a strict total order on the elements.
pub proof fn lemma_tab_before_strict_order(tree: Seq<FocusEntry>, x: int, y: int, z: int)
    requires
        0 <= x < tree.len(),
        0 <= y < tree.len(),
        0 <= z < tree.len(),
    ensures
        !tab_before(tree, x, x),
        tab_before(tree, x, y) ==> !tab_before(tree, y, x),
        x != y ==> tab_before(tree, x, y) || tab_before(tree, y, x),
        tab_before(tree, x, y) && tab_before(tree, y, z) ==> tab_before(tree, x, z),
{
}

/// Tab and then Shift+Tab come back to the element that had the focus,
/// when the order lists each element once.
pub proof fn lemma_tab_then_shift_tab(order: Seq<usize>, k: int)
    requires
        0 <= k < order.len(),
        forall|a: int, b: int| 0 <= a < b < order.len() ==> #[trigger] order[a] != #[trigger] order[b],
    ensures
        next_in_order(order, next_in_order(order, Some(order[k]), false), true) == Some(order[k]),
        next_in_order(order, next_in_order(order, Some(order[k]), true), false) == Some(order[k]),
{
    let n = order.len() as int;
    assert forall|j: int| 0 <= j < n implies position_in(order, order[j]) == Some(j) by {
        assert forall|i: int| 0 <= i < j implies #[trigger] order[i] != order[j] by {}
        lemma_position_at(order, order[j], j);
    }
    let fwd = if k == n - 1 { 0 } else { k + 1 };
    let back = if k == 0 { n - 1 } else { k - 1 };
    assert(position_in(order, order[k]) == Some(k));
    assert(position_in(order, order[fwd]) == Some(fwd));
    assert(position_in(order, order[back]) == Some(back));
}

/// In a tree whose elements each count themselves in their subtree, the
/// path to an element ends at that element.
pub proof fn lemma_path_ends_at_target(tree: Seq<FocusEntry>, t: int)
    requires
        0 <= t < tree.len() <= usize::MAX,
        tree[t].subtree_len >= 1,
    ensures
        path_to(tree, t).len() > 0,
        path_to(tree, t).last() == t as usize,
{
    assert(holds(tree, t, t));
}

/// Every element of the path holds the target, in increasing pre-order.
pub proof fn lemma_path_holds_target(tree: Seq<FocusEntry>, t: int, i: int)
    requires
        0 <= i <= usize::MAX,
    ensures
        forall|a: int| 0 <= a < ancestors_before(tree, t, i).len() ==> {
            let x = #[trigger] ancestors_before(tree, t, i)[a] as int;
            x < i && holds(tree, x, t)
        },
        forall|a: int, b: int| 0 <= a < b < ancestors_before(tree, t, i).len() ==> #[trigger] ancestors_before(tree, t, i)[a] < #[trigger] ancestors_before(tree, t, i)[b],
    decreases i,
{
    if i > 0 {
        lemma_path_holds_target(tree, t, i - 1);
        let prev = ancestors_before(tree, t, i - 1);
        let anc = ancestors_before(tree, t, i);
        if holds(tree, i - 1, t) {
            assert(anc == prev.push((i - 1) as usize));
            assert forall|a: int| 0 <= a < anc.len() implies {
                let x = #[trigger] anc[a] as int;
                x < i && holds(tree, x, t)
            } by {
                if a < prev.len() {
                    assert(anc[a] == prev[a]);
                }
            }
            assert forall|a: int, b: int| 0 <= a < b < anc.len() implies #[trigger] anc[a] < #[trigger] anc[b] by {
                assert(anc[a] == prev[a]);
                if b < prev.len() {
                    assert(anc[b] == prev[b]);
                }
            }
        }
    }
}

/// The trap found for an element is a focus trap on its path.
pub proof fn lemma_trap_on_path(tree: Seq<FocusEntry>, t: int, i: int)
    requires
        0 <= i <= usize::MAX,
    ensures
        trap_before(tree, t, i) matches Some(a) ==> 0 <= a < i && holds(tree, a, t) && tree[a].focus_trap
            && ancestors_before(tree, t, i).contains(a as usize),
    decreases i,
{
    if i > 0 {
        lemma_trap_on_path(tree, t, i - 1);
        let anc = ancestors_before(tree, t, i);
        if holds(tree, i - 1, t) {
            let prev = ancestors_before(tree, t, i - 1);
            assert(anc[anc.len() - 1] == (i - 1) as usize);
            if let Some(a) = trap_before(tree, t, i) {
                if a < i - 1 {
                    let k = choose|k: int| 0 <= k < prev.len() && prev[k] == a as usize;
                    assert(anc[k] == prev[k]);
                }
            }
        }
    }
}

} // verus!
