//! Sizes of the dock's window, and how the dock's icon slots follow a new
//! list of applications.
use vstd::prelude::*;
use crate::text::string_views;

verus! {

pub const ICON_SIZE: u32 = 44;
pub const ICON_PADDING: u32 = 8;
pub const DOCK_PADDING: u32 = 12;
pub const DOCK_HEIGHT: u32 = 64;
/// Width of a dock without applications.
pub const EMPTY_DOCK_WIDTH: u32 = 200;

/// Width of a dock holding `app_count` icons: the icons, the gaps between
/// them and the padding on both sides. The count is taken as a `u32`, as
/// the dock's arithmetic does.
pub open spec fn dock_width_of(app_count: usize) -> int {
    if app_count == 0 {
        EMPTY_DOCK_WIDTH as int
    } else {
        (app_count as u32) * ICON_SIZE + ((app_count - 1) as usize as u32) * ICON_PADDING + DOCK_PADDING
            * 2
    }
}

/// Width of the dock for `app_count` applications; 200 when there are none.
pub fn dock_width(app_count: usize) -> (w: u32)
    requires
        (app_count as u32) * ICON_SIZE + ((if app_count == 0 { 0 } else { app_count - 1 }) as usize as u32)
            * ICON_PADDING + DOCK_PADDING * 2 <= u32::MAX,
    ensures
        w == dock_width_of(app_count),
{
    if app_count == 0 {
        return EMPTY_DOCK_WIDTH;
    }
    #[verifier::truncate]
    let n = app_count as u32;
    #[verifier::truncate]
    let gaps = (app_count - 1) as u32;
    let icons_width = n * ICON_SIZE + gaps * ICON_PADDING;
    icons_width + DOCK_PADDING * 2
}

/// Height of the dock's window.
pub fn dock_height() -> (h: u32)
    ensures
        h == DOCK_HEIGHT,
{
    DOCK_HEIGHT
}

/// An icon slot of the dock: the application it shows and whether it is
/// on its way out.
#[derive(Debug, Clone)]
pub struct SlotState {
    pub app_id: String,
    pub leaving: bool,
}

/// What a new list of applications does to the dock's slots.
#[derive(Debug)]
pub struct SlotPlan {
    /// For each slot: whether it starts leaving now.
    pub start_leaving: Vec<bool>,
    /// For each slot: the new application (by position) whose data it
    /// takes, if any.
    pub update_from: Vec<Option<usize>>,
    /// The new applications (by position) that enter as new slots, in order.
    pub entering: Vec<usize>,
    /// Whether any slot was shown before the change.
    pub had_visible: bool,
    /// Number of slots shown, not leaving, after the change.
    pub active_count: usize,
}

/// Whether `id` is among `ids`.
pub open spec fn listed(ids: Seq<Seq<char>>, id: Seq<char>) -> bool {
    exists|j: int| 0 <= j < ids.len() && #[trigger] ids[j] == id
}

/// Slot `k` keeps being shown after the change: it was shown and its
/// application is still listed.
pub open spec fn stays(slots: Seq<SlotState>, new_ids: Seq<Seq<char>>, k: int) -> bool {
    !slots[k].leaving && listed(new_ids, slots[k].app_id@)
}

/// The last new application with id `id`.
pub open spec fn last_listed(new_ids: Seq<Seq<char>>, id: Seq<char>, n: int) -> Option<int>
    decreases n,
{
    if n <= 0 {
        None
    } else if new_ids[n - 1] == id {
        Some(n - 1)
    } else {
        last_listed(new_ids, id, n - 1)
    }
}

/// Slot `k` is the first slot that stays and shows application `id`.
pub open spec fn first_staying(slots: Seq<SlotState>, new_ids: Seq<Seq<char>>, k: int) -> bool {
    &&& stays(slots, new_ids, k)
    &&& forall|i: int| 0 <= i < k ==> !(#[trigger] stays(slots, new_ids, i) && slots[i].app_id@ == slots[k].app_id@)
}

/// Whether the slots `slots` show application `id` (before the change).
pub open spec fn was_shown(slots: Seq<SlotState>, id: Seq<char>) -> bool {
    exists|k: int| 0 <= k < slots.len() && !slots[k].leaving && #[trigger] slots[k].app_id@ == id
}

/// How the slots follow the new application list `new_ids`: a shown slot
/// whose application is gone starts leaving; the first slot that stays for
/// an application takes the data of that application (its last entry in
/// the list); every listed application that was not shown enters as a new
/// slot, in list order.
pub fn plan_app_update(slots: &Vec<SlotState>, new_ids: &Vec<String>) -> (r: SlotPlan)
    requires
        slots.len() + new_ids.len() <= usize::MAX,
    ensures
        r.start_leaving.len() == slots.len(),
        r.update_from.len() == slots.len(),
        forall|k: int| 0 <= k < slots.len() ==> #[trigger] r.start_leaving[k] == (!slots[k].leaving
            && !listed(string_views(new_ids@), slots[k].app_id@)),
        forall|k: int|
            0 <= k < slots.len() ==> #[trigger] r.update_from[k] == if first_staying(
                slots@,
                string_views(new_ids@),
                k,
            ) {
                match last_listed(string_views(new_ids@), slots[k].app_id@, new_ids.len() as int) {
                    Some(j) => Some(j as usize),
                    None => None,
                }
            } else {
                None
            },
        forall|a: int| 0 <= a < r.entering.len() ==> #[trigger] r.entering[a] < new_ids.len()
            && !was_shown(slots@, new_ids[r.entering[a] as int]@),
        forall|a: int, b: int| 0 <= a < b < r.entering.len() ==> #[trigger] r.entering[a] < #[trigger] r.entering[b],
        forall|j: int| 0 <= j < new_ids.len() && !was_shown(slots@, #[trigger] new_ids[j]@) ==> exists|a: int|
            0 <= a < r.entering.len() && r.entering[a] == j,
        r.had_visible == exists|k: int| 0 <= k < slots.len() && !(#[trigger] slots[k]).leaving,
        r.active_count == count_staying(slots@, string_views(new_ids@), slots.len() as int) + r.entering.len(),
{
    let ghost ids = string_views(new_ids@);
    // Which slots stay, and which start leaving.
    let mut start_leaving: Vec<bool> = Vec::new();
    let mut staying: Vec<bool> = Vec::new();
    let mut k: usize = 0;
    while k < slots.len()
        invariant
            k <= slots.len(),
            ids == string_views(new_ids@),
            start_leaving.len() == k,
            staying.len() == k,
            forall|i: int| 0 <= i < k ==> #[trigger] start_leaving[i] == (!slots[i].leaving && !listed(ids, slots[i].app_id@)),
            forall|i: int| 0 <= i < k ==> #[trigger] staying[i] == stays(slots@, ids, i),
        decreases slots.len() - k,
    {
        let found = id_listed(new_ids, &slots[k].app_id);
        start_leaving.push(!slots[k].leaving && !found);
        staying.push(!slots[k].leaving && found);
        k = k + 1;
    }
    // The data each staying slot takes.
    let mut update_from: Vec<Option<usize>> = Vec::new();
    let mut active: usize = 0;
    let mut k: usize = 0;
    while k < slots.len()
        invariant
            k <= slots.len(),
            slots.len() + new_ids.len() <= usize::MAX,
            ids == string_views(new_ids@),
            staying.len() == slots.len(),
            forall|i: int| 0 <= i < slots.len() ==> #[trigger] staying[i] == stays(slots@, ids, i),
            update_from.len() == k,
            active == count_staying(slots@, ids, k as int),
            active <= k,
            forall|i: int|
                0 <= i < k ==> #[trigger] update_from[i] == if first_staying(slots@, ids, i) {
                    match last_listed(ids, slots[i].app_id@, new_ids.len() as int) {
                        Some(j) => Some(j as usize),
                        None => None,
                    }
                } else {
                    None
                },
        decreases slots.len() - k,
    {
        let mut first = staying[k];
        let mut i: usize = 0;
        while i < k && first
            invariant
                i <= k < slots.len(),
                staying.len() == slots.len(),
                forall|x: int| 0 <= x < slots.len() ==> #[trigger] staying[x] == stays(slots@, ids, x),
                first ==> staying[k as int],
                first == (staying[k as int] && forall|x: int| 0 <= x < i ==> !(#[trigger] stays(slots@, ids, x) && slots[x].app_id@ == slots[k as int].app_id@)),
            decreases k - i,
        {
            if staying[i] && slots[i].app_id == slots[k].app_id {
                first = false;
            }
            i = i + 1;
        }
        assert(first == first_staying(slots@, ids, k as int));
        if first {
            update_from.push(last_position(new_ids, &slots[k].app_id));
        } else {
            update_from.push(None);
        }
        if staying[k] {
            active = active + 1;
        }
        k = k + 1;
    }
    // The applications that enter.
    let mut entering: Vec<usize> = Vec::new();
    let mut j: usize = 0;
    while j < new_ids.len()
        invariant
            j <= new_ids.len(),
            entering.len() <= j,
            forall|a: int| 0 <= a < entering.len() ==> #[trigger] entering[a] < j && !was_shown(slots@, new_ids[entering[a] as int]@),
            forall|a: int, b: int| 0 <= a < b < entering.len() ==> #[trigger] entering[a] < #[trigger] entering[b],
            forall|x: int| 0 <= x < j && !was_shown(slots@, #[trigger] new_ids[x]@) ==> exists|a: int|
                0 <= a < entering.len() && entering[a] == x,
        decreases new_ids.len() - j,
    {
        if !shown_among(slots, &new_ids[j]) {
            let ghost before = entering@;
            entering.push(j);
            assert forall|x: int| 0 <= x < j + 1 && !was_shown(slots@, #[trigger] new_ids[x]@) implies exists|a: int|
                0 <= a < entering.len() && entering[a] == x by {
                if x < j {
                    let a = choose|a: int| 0 <= a < before.len() && before[a] == x;
                    assert(entering[a] == x);
                } else {
                    assert(entering[entering.len() - 1] == x);
                }
            }
        }
        j = j + 1;
    }
    let had_visible = any_shown(slots);
    let ghost ent = entering@;
    let r = SlotPlan {
        start_leaving,
        update_from,
        active_count: active + entering.len(),
        entering,
        had_visible,
    };
    assert forall|x: int| 0 <= x < new_ids.len() && !was_shown(slots@, #[trigger] new_ids[x]@) implies exists|a: int|
        0 <= a < r.entering.len() && r.entering[a] == x by {
        let a = choose|a: int| 0 <= a < ent.len() && ent[a] == x;
        assert(r.entering[a] == x);
    }
    r
}

/// Number of slots before `k` that stay.
pub open spec fn count_staying(slots: Seq<SlotState>, new_ids: Seq<Seq<char>>, k: int) -> nat
    decreases k,
{
    if k <= 0 {
        0
    } else {
        count_staying(slots, new_ids, k - 1) + if stays(slots, new_ids, k - 1) {
            1nat
        } else {
            0nat
        }
    }
}

fn id_listed(new_ids: &Vec<String>, id: &String) -> (r: bool)
    ensures
        r == listed(string_views(new_ids@), id@),
{
    let mut j: usize = 0;
    while j < new_ids.len()
        invariant
            j <= new_ids.len(),
            forall|x: int| 0 <= x < j ==> #[trigger] new_ids@[x]@ != id@,
        decreases new_ids.len() - j,
    {
        if new_ids[j] == *id {
            assert(string_views(new_ids@)[j as int] == id@);
            return true;
        }
        j = j + 1;
    }
    assert forall|x: int| 0 <= x < new_ids.len() implies #[trigger] string_views(new_ids@)[x] != id@ by {
        assert(new_ids@[x]@ != id@);
    }
    false
}

fn last_position(new_ids: &Vec<String>, id: &String) -> (r: Option<usize>)
    ensures
        r == match last_listed(string_views(new_ids@), id@, new_ids.len() as int) {
            Some(j) => Some(j as usize),
            None => None::<usize>,
        },
{
    let ghost ids = string_views(new_ids@);
    let mut found: Option<usize> = None;
    let mut j: usize = 0;
    while j < new_ids.len()
        invariant
            j <= new_ids.len(),
            ids == string_views(new_ids@),
            found == match last_listed(ids, id@, j as int) {
                Some(x) => Some(x as usize),
                None => None::<usize>,
            },
            found matches Some(x) ==> x < j,
            last_listed(ids, id@, j as int) matches Some(x) ==> 0 <= x < j,
        decreases new_ids.len() - j,
    {
        assert(ids[j as int] == new_ids@[j as int]@);
        if new_ids[j] == *id {
            found = Some(j);
        }
        j = j + 1;
    }
    found
}

fn shown_among(slots: &Vec<SlotState>, id: &String) -> (r: bool)
    ensures
        r == was_shown(slots@, id@),
{
    let mut k: usize = 0;
    while k < slots.len()
        invariant
            k <= slots.len(),
            forall|x: int| 0 <= x < k ==> !(!slots[x].leaving && #[trigger] slots[x].app_id@ == id@),
        decreases slots.len() - k,
    {
        if !slots[k].leaving && slots[k].app_id == *id {
            return true;
        }
        k = k + 1;
    }
    false
}

fn any_shown(slots: &Vec<SlotState>) -> (r: bool)
    ensures
        r == exists|k: int| 0 <= k < slots.len() && !(#[trigger] slots[k]).leaving,
{
    let mut k: usize = 0;
    while k < slots.len()
        invariant
            k <= slots.len(),
            forall|x: int| 0 <= x < k ==> (#[trigger] slots[x]).leaving,
        decreases slots.len() - k,
    {
        if !slots[k].leaving {
            return true;
        }
        k = k + 1;
    }
    false
}

} // verus!
