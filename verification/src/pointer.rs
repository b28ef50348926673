//! Pointer bookkeeping of the event dispatcher: which elements the pointer
//! hovers, which cursor it shows, which element was pressed, drag and
//! drag-and-drop state, and what a button release amounts to.
//!
//! Elements are named by their pre-order index. Distances and positions
//! are measured by the caller, who hands over their outcome (whether the
//! pointer moved past the drag threshold, whether a click was near the
//! previous one).
use vstd::prelude::*;
use crate::input::{CursorStyle, EventResult, MouseButton};

verus! {

/// Two clicks closer together than this many milliseconds (and near each
/// other) count as one multi-click.
pub const DOUBLE_CLICK_TIME_MS: u32 = 400;

/// The elements of `s`, in order, that are not in `other`.
pub open spec fn not_in(s: Seq<usize>, other: Seq<usize>) -> Seq<usize>
    decreases s.len(),
{
    if s.len() == 0 {
        Seq::empty()
    } else if other.contains(s.last()) {
        not_in(s.drop_last(), other)
    } else {
        not_in(s.drop_last(), other).push(s.last())
    }
}

/// An element is in `not_in(s, other)` exactly when it is in `s` and not
/// in `other`.
pub proof fn lemma_not_in_members(s: Seq<usize>, other: Seq<usize>, x: usize)
    ensures
        not_in(s, other).contains(x) == (s.contains(x) && !other.contains(x)),
    decreases s.len(),
{
    if s.len() > 0 {
        let d = s.drop_last();
        lemma_not_in_members(d, other, x);
        assert(s == d.push(s.last()));
        if s.contains(x) && x != s.last() {
            let k = choose|k: int| 0 <= k < s.len() && s[k] == x;
            assert(d[k] == x);
        }
        if d.contains(x) {
            let k = choose|k: int| 0 <= k < d.len() && d[k] == x;
            assert(s[k] == x);
        }
        if !other.contains(s.last()) {
            let r = not_in(d, other);
            assert(r.push(s.last()).last() == s.last());
            if r.push(s.last()).contains(x) && x != s.last() {
                let k = choose|k: int| 0 <= k < r.len() + 1 && r.push(s.last())[k] == x;
                assert(r[k] == x);
            }
            if r.contains(x) {
                let k = choose|k: int| 0 <= k < r.len() && r[k] == x;
                assert(r.push(s.last())[k] == x);
            }
        }
    }
}

fn contains_exec(s: &Vec<usize>, x: usize) -> (r: bool)
    ensures
        r == s@.contains(x),
{
    let mut i: usize = 0;
    while i < s.len()
        invariant
            i <= s.len(),
            forall|k: int| 0 <= k < i ==> s@[k] != x,
        decreases s.len() - i,
    {
        if s[i] == x {
            return true;
        }
        i = i + 1;
    }
    false
}

fn not_in_exec(s: &Vec<usize>, other: &Vec<usize>) -> (r: Vec<usize>)
    ensures
        r@ == not_in(s@, other@),
{
    let mut out: Vec<usize> = Vec::new();
    let mut i: usize = 0;
    while i < s.len()
        invariant
            i <= s.len(),
            out@ == not_in(s@.take(i as int), other@),
        decreases s.len() - i,
    {
        assert(s@.take(i + 1).drop_last() =~= s@.take(i as int));
        if !contains_exec(other, s[i]) {
            out.push(s[i]);
        }
        i = i + 1;
    }
    assert(s@.take(s.len() as int) =~= s@);
    out
}

/// The hover changes of a pointer move: the elements that lost the
/// pointer and those that gained it.
#[derive(Debug, Clone)]
pub struct HoverChange {
    /// Hovered before and not now, in the old path's order (each gets its
    /// pointer-leave event).
    pub left: Vec<usize>,
    /// Hovered now and not before, in the new path's order (each gets its
    /// pointer-enter event).
    pub entered: Vec<usize>,
}

/// The cursor of a hover path (deepest element first): that of the first
/// element that asks for one, else the default cursor.
pub open spec fn path_cursor(cursors: Seq<Option<CursorStyle>>) -> CursorStyle
    decreases cursors.len(),
{
    if cursors.len() == 0 {
        CursorStyle::Default
    } else if cursors[0] is Some {
        cursors[0]->0
    } else {
        path_cursor(cursors.drop_first())
    }
}

/// The cursor to show for a hover path, given for each of its elements
/// (deepest first) the cursor it asks for.
pub fn cursor_for_path(cursors: &Vec<Option<CursorStyle>>) -> (r: CursorStyle)
    ensures
        r == path_cursor(cursors@),
{
    let mut i: usize = 0;
    assert(cursors@.subrange(0, cursors.len() as int) =~= cursors@);
    while i < cursors.len()
        invariant
            i <= cursors.len(),
            path_cursor(cursors@) == path_cursor(cursors@.subrange(i as int, cursors.len() as int)),
        decreases cursors.len() - i,
    {
        let ghost rest = cursors@.subrange(i as int, cursors.len() as int);
        assert(rest.drop_first() =~= cursors@.subrange(i + 1, cursors.len() as int));
        if let Some(c) = cursors[i] {
            return c;
        }
        i = i + 1;
    }
    CursorStyle::Default
}

/// The first element along a hit path (deepest first) that takes the
/// event.
pub open spec fn first_accepting(path: Seq<usize>, accepts: Seq<bool>) -> Option<usize>
    decreases path.len(),
{
    if path.len() == 0 || accepts.len() == 0 {
        None
    } else if accepts[0] {
        Some(path[0])
    } else {
        first_accepting(path.drop_first(), accepts.drop_first())
    }
}

/// The deepest element of a hit path (deepest first) that handles an event
/// (`accepts`, one entry per path element): the element a drag is over
/// (a drag-over or drop handler), the one a scroll goes to (a scroll
/// handler), the one a scroll end goes to.
pub fn first_handling(path: &Vec<usize>, accepts: &Vec<bool>) -> (r: Option<usize>)
    requires
        path.len() == accepts.len(),
    ensures
        r == first_accepting(path@, accepts@),
{
    let mut i: usize = 0;
    assert(path@.subrange(0, path.len() as int) =~= path@);
    assert(accepts@.subrange(0, accepts.len() as int) =~= accepts@);
    while i < path.len()
        invariant
            i <= path.len(),
            path.len() == accepts.len(),
            first_accepting(path@, accepts@) == first_accepting(
                path@.subrange(i as int, path.len() as int),
                accepts@.subrange(i as int, accepts.len() as int),
            ),
        decreases path.len() - i,
    {
        assert(path@.subrange(i as int, path.len() as int).drop_first() =~= path@.subrange(
            i + 1,
            path.len() as int,
        ));
        assert(accepts@.subrange(i as int, accepts.len() as int).drop_first() =~= accepts@.subrange(
            i + 1,
            accepts.len() as int,
        ));
        if accepts[i] {
            return Some(path[i]);
        }
        i = i + 1;
    }
    None
}

/// The drag-and-drop target change of a drag move.
#[derive(Debug, Clone, Copy)]
pub struct DragTargetChange {
    /// The former target, which gets its drag-leave event.
    pub leave: Option<usize>,
    /// The new target, which gets its drag-enter event.
    pub enter: Option<usize>,
}

/// What a button release amounts to.
#[derive(Debug, Clone, Copy, PartialEq, Eq)]
pub enum ReleaseAction {
    /// No event follows the pointer-up event.
    Nothing,
    /// A drag-and-drop ends: the target (if any) gets its drop event.
    Drop { target: Option<usize> },
    /// A left click on the pressed element; `count` counts consecutive
    /// clicks (a double click fires when it is 2).
    Click { element: usize, count: u32 },
    /// A right click: the context-menu event.
    ContextMenu { element: usize },
    /// A middle click: an auxiliary click.
    AuxClick { element: usize },
}

/// The number of a click in a run of clicks: one more than the last when it
/// came within the double-click time and near the last, else 1.
pub open spec fn next_click_count(count: u32, time: u32, last_time: u32, near: bool) -> u32 {
    if ((time - last_time) % 0x1_0000_0000) < DOUBLE_CLICK_TIME_MS && near {
        (count + 1) as u32
    } else {
        1
    }
}

/// Pointer state of the event dispatcher.
#[derive(Debug, Clone)]
pub struct PointerState {
    /// The hover path: the hovered elements, deepest first.
    pub hovered: Vec<usize>,
    /// The element the pressed button went down on.
    pub pressed_element: Option<usize>,
    /// Whether the pointer moved past the drag threshold since the press.
    pub dragging: bool,
    /// Time of the last left click, in milliseconds.
    pub last_click_time: u32,
    /// Number of the last left click in its run of clicks.
    pub click_count: u32,
    /// Whether a drag-and-drop is under way.
    pub dnd_active: bool,
    /// The element a drag-and-drop started from.
    pub dnd_source: Option<usize>,
    /// The element a drag-and-drop is over.
    pub dnd_over_element: Option<usize>,
    /// The slider whose thumb is being dragged.
    pub slider_dragging: Option<usize>,
}

impl PointerState {
    pub fn new() -> (r: Self)
        ensures
            r.hovered@.len() == 0,
            r.pressed_element is None,
            !r.dragging,
            r.last_click_time == 0,
            r.click_count == 0,
            !r.dnd_active,
            r.dnd_source is None,
            r.dnd_over_element is None,
            r.slider_dragging is None,
    {
        PointerState {
            hovered: Vec::new(),
            pressed_element: None,
            dragging: false,
            last_click_time: 0,
            click_count: 0,
            dnd_active: false,
            dnd_source: None,
            dnd_over_element: None,
            slider_dragging: None,
        }
    }

    /// The pointer moved onto the hit path `new_hovered` (deepest first):
    /// it becomes the hover path, and the elements that left it and those
    /// that joined it are returned.
    pub fn update_hover(&mut self, new_hovered: Vec<usize>) -> (r: HoverChange)
        ensures
            r.left@ == not_in(old(self).hovered@, new_hovered@),
            r.entered@ == not_in(new_hovered@, old(self).hovered@),
            final(self).hovered@ == new_hovered@,
            final(self).pressed_element == old(self).pressed_element,
            final(self).dragging == old(self).dragging,
            final(self).last_click_time == old(self).last_click_time,
            final(self).click_count == old(self).click_count,
            final(self).dnd_active == old(self).dnd_active,
            final(self).dnd_source == old(self).dnd_source,
            final(self).dnd_over_element == old(self).dnd_over_element,
            final(self).slider_dragging == old(self).slider_dragging,
    {
        let left = not_in_exec(&self.hovered, &new_hovered);
        let entered = not_in_exec(&new_hovered, &self.hovered);
        self.hovered = new_hovered;
        HoverChange { left, entered }
    }

    /// A button went down with the pointer on `hit_path` (deepest first,
    /// `None` when nothing was hit): the deepest element hit is pressed and
    /// no drag is under way yet.
    pub fn press(&mut self, hit_path: &Option<Vec<usize>>)
        ensures
            final(self).pressed_element == (match hit_path {
                Some(p) => if p@.len() > 0 {
                    Some(p@[0])
                } else {
                    None
                },
                None => None,
            }),
            !final(self).dragging,
            final(self).hovered@ == old(self).hovered@,
            final(self).last_click_time == old(self).last_click_time,
            final(self).click_count == old(self).click_count,
            final(self).dnd_active == old(self).dnd_active,
            final(self).dnd_source == old(self).dnd_source,
            final(self).dnd_over_element == old(self).dnd_over_element,
            final(self).slider_dragging == old(self).slider_dragging,
    {
        self.pressed_element = match hit_path {
            Some(p) => if p.len() > 0 {
                Some(p[0])
            } else {
                None
            },
            None => None,
        };
        self.dragging = false;
    }

    /// The pointer moved past the drag threshold while an element is
    /// pressed: a drag begins. `drag_start` is what the pressed element's
    /// drag-start handler answered (`None` when it has none); unless it
    /// prevented the default, a drag-and-drop starts from that element.
    pub fn begin_drag(&mut self, drag_start: Option<EventResult>)
        requires
            old(self).pressed_element is Some,
            !old(self).dragging,
        ensures
            final(self).dragging,
            ({
                let accepted = match drag_start {
                    Some(EventResult::StopAndPreventDefault) => false,
                    Some(EventResult::PreventDefault) => false,
                    Some(_) => true,
                    None => false,
                };
                if accepted {
                    final(self).dnd_active && final(self).dnd_source == old(self).pressed_element
                } else {
                    final(self).dnd_active == old(self).dnd_active && final(self).dnd_source
                        == old(self).dnd_source
                }
            }),
            final(self).hovered@ == old(self).hovered@,
            final(self).pressed_element == old(self).pressed_element,
            final(self).last_click_time == old(self).last_click_time,
            final(self).click_count == old(self).click_count,
            final(self).dnd_over_element == old(self).dnd_over_element,
            final(self).slider_dragging == old(self).slider_dragging,
    {
        self.dragging = true;
        match drag_start {
            Some(EventResult::StopAndPreventDefault) | Some(EventResult::PreventDefault) | None => {},
            Some(_) => {
                self.dnd_active = true;
                self.dnd_source = self.pressed_element;
            },
        }
    }

    /// During a drag-and-drop the pointer is over `new_target`: when the
    /// target changed, the old one is left and the new one entered.
    pub fn drag_over(&mut self, new_target: Option<usize>) -> (r: DragTargetChange)
        ensures
            final(self).dnd_over_element == new_target,
            old(self).dnd_over_element == new_target ==> r.leave is None && r.enter is None,
            old(self).dnd_over_element != new_target ==> r.leave == old(self).dnd_over_element
                && r.enter == new_target,
            final(self).hovered@ == old(self).hovered@,
            final(self).pressed_element == old(self).pressed_element,
            final(self).dragging == old(self).dragging,
            final(self).last_click_time == old(self).last_click_time,
            final(self).click_count == old(self).click_count,
            final(self).dnd_active == old(self).dnd_active,
            final(self).dnd_source == old(self).dnd_source,
            final(self).slider_dragging == old(self).slider_dragging,
    {
        if self.dnd_over_element == new_target {
            return DragTargetChange { leave: None, enter: None };
        }
        let leave = self.dnd_over_element;
        self.dnd_over_element = new_target;
        DragTargetChange { leave, enter: new_target }
    }

    /// The pointer left the surface: a drag-and-drop is cancelled (the
    /// element it was over gets its drag-leave event), and every hovered
    /// element gets its pointer-leave event, after which nothing is
    /// hovered. Returns the drag-leave target and the elements left.
    pub fn pointer_leave(&mut self) -> (r: (Option<usize>, Vec<usize>))
        ensures
            r.0 == (if old(self).dnd_active {
                old(self).dnd_over_element
            } else {
                None
            }),
            r.1@ == old(self).hovered@,
            final(self).hovered@.len() == 0,
            !final(self).dnd_active,
            old(self).dnd_active ==> final(self).dnd_source is None && final(self).dnd_over_element is None,
            !old(self).dnd_active ==> final(self).dnd_source == old(self).dnd_source
                && final(self).dnd_over_element == old(self).dnd_over_element,
            final(self).pressed_element == old(self).pressed_element,
            final(self).dragging == old(self).dragging,
            final(self).last_click_time == old(self).last_click_time,
            final(self).click_count == old(self).click_count,
            final(self).slider_dragging == old(self).slider_dragging,
    {
        let mut drag_leave: Option<usize> = None;
        if self.dnd_active {
            drag_leave = self.dnd_over_element;
            self.dnd_active = false;
            self.dnd_source = None;
            self.dnd_over_element = None;
        }
        let mut left: Vec<usize> = Vec::new();
        std::mem::swap(&mut left, &mut self.hovered);
        (drag_leave, left)
    }

    /// A button went up at `time` with the pointer on `hit_path` (deepest
    /// first); `near_last_click` says whether it is near the last left
    /// click. A drag-and-drop ends in a drop on its target. Otherwise, when
    /// no drag happened and the release lands on the pressed element's hit
    /// path, the button clicks it: a left click counts on from the last one
    /// when it came quickly and near by. The press ends either way.
    pub fn release(
        &mut self,
        button: MouseButton,
        time: u32,
        near_last_click: bool,
        hit_path: &Option<Vec<usize>>,
    ) -> (r: ReleaseAction)
        requires
            old(self).click_count < u32::MAX,
        ensures
            final(self).pressed_element is None,
            !final(self).dragging,
            !final(self).dnd_active,
            final(self).hovered@ == old(self).hovered@,
            old(self).dnd_active ==> r == (ReleaseAction::Drop { target: old(self).dnd_over_element })
                && final(self).dnd_source is None
                && final(self).dnd_over_element is None
                && final(self).slider_dragging == old(self).slider_dragging
                && final(self).click_count == old(self).click_count
                && final(self).last_click_time == old(self).last_click_time,
            !old(self).dnd_active ==> final(self).slider_dragging is None
                && final(self).dnd_source == old(self).dnd_source
                && final(self).dnd_over_element == old(self).dnd_over_element,
            !old(self).dnd_active ==> ({
                let on_pressed = !old(self).dragging && old(self).pressed_element is Some && match hit_path {
                    Some(p) => p@.contains(old(self).pressed_element->0),
                    None => false,
                };
                let e = old(self).pressed_element->0;
                if on_pressed && button == MouseButton::Left {
                    let n = next_click_count(old(self).click_count, time, old(self).last_click_time, near_last_click);
                    r == (ReleaseAction::Click { element: e, count: n })
                        && final(self).click_count == n
                        && final(self).last_click_time == time
                } else {
                    &&& final(self).click_count == old(self).click_count
                    &&& final(self).last_click_time == old(self).last_click_time
                    &&& r == if !on_pressed {
                        ReleaseAction::Nothing
                    } else if button == MouseButton::Right {
                        ReleaseAction::ContextMenu { element: e }
                    } else {
                        ReleaseAction::AuxClick { element: e }
                    }
                }
            }),
    {
        if self.dnd_active {
            let target = self.dnd_over_element;
            self.dnd_active = false;
            self.dnd_source = None;
            self.dnd_over_element = None;
            self.pressed_element = None;
            self.dragging = false;
            return ReleaseAction::Drop { target };
        }
        let mut action = ReleaseAction::Nothing;
        if !self.dragging {
            if let Some(pressed) = self.pressed_element {
                let on_pressed = match hit_path {
                    Some(p) => contains_exec(p, pressed),
                    None => false,
                };
                if on_pressed {
                    match button {
                        MouseButton::Left => {
                            if time.wrapping_sub(self.last_click_time) < DOUBLE_CLICK_TIME_MS
                                && near_last_click {
                                self.click_count = self.click_count + 1;
                            } else {
                                self.click_count = 1;
                            }
                            self.last_click_time = time;
                            action = ReleaseAction::Click { element: pressed, count: self.click_count };
                        },
                        MouseButton::Right => {
                            action = ReleaseAction::ContextMenu { element: pressed };
                        },
                        MouseButton::Middle => {
                            action = ReleaseAction::AuxClick { element: pressed };
                        },
                    }
                }
            }
        }
        self.pressed_element = None;
        self.dragging = false;
        self.slider_dragging = None;
        action
    }
}

/// Which touch point stands in for the pointer: the first finger down,
/// until it lifts. Its touches are also handled as pointer events.
#[derive(Debug, Clone, Copy)]
pub struct PrimaryTouch {
    pub primary: Option<i32>,
}

impl PrimaryTouch {
    pub fn new() -> (r: Self)
        ensures
            r.primary is None,
    {
        PrimaryTouch { primary: None }
    }

    /// Touch `id` went down; whether it is the primary touch (there was
    /// none, so it becomes the primary one).
    pub fn touch_down(&mut self, id: i32) -> (coerced: bool)
        ensures
            coerced == old(self).primary is None,
            final(self).primary == if coerced {
                Some(id)
            } else {
                old(self).primary
            },
    {
        if self.primary.is_none() {
            self.primary = Some(id);
            true
        } else {
            false
        }
    }

    /// Touch `id` moved; whether it is the primary touch.
    pub fn touch_motion(&self, id: i32) -> (coerced: bool)
        ensures
            coerced == (self.primary == Some(id)),
    {
        match self.primary {
            Some(p) => p == id,
            None => false,
        }
    }

    /// Touch `id` lifted; whether it was the primary touch, which then
    /// leaves no primary touch.
    pub fn touch_up(&mut self, id: i32) -> (coerced: bool)
        ensures
            coerced == (old(self).primary == Some(id)),
            final(self).primary == if coerced {
                None
            } else {
                old(self).primary
            },
    {
        let coerced = match self.primary {
            Some(p) => p == id,
            None => false,
        };
        if coerced {
            self.primary = None;
        }
        coerced
    }

    /// The system cancelled every touch; whether there was a primary touch
    /// (the pointer then leaves). No primary touch remains.
    pub fn touch_cancel(&mut self) -> (had_primary: bool)
        ensures
            had_primary == old(self).primary is Some,
            final(self).primary is None,
    {
        let had = self.primary.is_some();
        self.primary = None;
        had
    }
}

/// A pointer move sorts the old and new hover paths into three kinds of
/// element: those that stay hovered, those that leave, those that enter.
/// Nothing both leaves and stays hovered, nothing enters that was hovered,
/// and the new hover path holds exactly the old elements that did not
/// leave together with those that entered.
pub proof fn lemma_hover_change_partitions(old_path: Seq<usize>, new_path: Seq<usize>, x: usize)
    ensures
        not_in(old_path, new_path).contains(x) ==> old_path.contains(x) && !new_path.contains(x),
        not_in(new_path, old_path).contains(x) ==> new_path.contains(x) && !old_path.contains(x),
        new_path.contains(x) == ((old_path.contains(x) && !not_in(old_path, new_path).contains(x))
            || not_in(new_path, old_path).contains(x)),
{
    lemma_not_in_members(old_path, new_path, x);
    lemma_not_in_members(new_path, old_path, x);
}

} // verus!
