use ui::capture::PointerCaptures;
use ui::focus::{
    build_path_to_element, build_tab_order, element_is_focusable, element_is_tabbable,
    find_focus_trap_ancestor, next_focus, FocusEntry,
};

fn node(tabbable: bool, tab_index: Option<i32>, focus_trap: bool, subtree_len: usize) -> FocusEntry {
    FocusEntry { tabbable, tab_index, focus_trap, subtree_len }
}

// root(0) [ a(1) [ b(2), c(3) ], d(4) trap [ e(5), f(6) ], g(7) ]
fn tree() -> Vec<FocusEntry> {
    vec![
        node(false, None, false, 8),
        node(true, None, false, 3),
        node(true, Some(2), false, 1),
        node(true, Some(1), false, 1),
        node(false, None, true, 3),
        node(true, None, false, 1),
        node(true, Some(5), false, 1),
        node(true, None, false, 1),
    ]
}

#[test]
fn tabbable_and_focusable_rules() {
    assert!(element_is_focusable(false, None, true));
    assert!(!element_is_focusable(false, None, false));
    assert!(element_is_focusable(false, Some(true), false));
    assert!(!element_is_focusable(false, Some(false), true));
    assert!(!element_is_focusable(true, Some(true), true));
    assert!(element_is_tabbable(false, None, None, true));
    assert!(!element_is_tabbable(true, None, None, true));
    assert!(!element_is_tabbable(false, Some(true), None, true));
    assert!(element_is_tabbable(false, Some(true), Some(0), false));
    assert!(!element_is_tabbable(false, Some(false), Some(3), true));
}

#[test]
fn path_from_root_to_element() {
    let t = tree();
    assert_eq!(build_path_to_element(&t, 3), vec![0, 1, 3]);
    assert_eq!(build_path_to_element(&t, 6), vec![0, 4, 6]);
    assert_eq!(build_path_to_element(&t, 0), vec![0]);
    assert!(build_path_to_element(&t, 8).is_empty());
}

#[test]
fn nearest_focus_trap() {
    let t = tree();
    assert_eq!(find_focus_trap_ancestor(&t, 5), Some(4));
    assert_eq!(find_focus_trap_ancestor(&t, 4), Some(4));
    assert_eq!(find_focus_trap_ancestor(&t, 2), None);
    assert_eq!(find_focus_trap_ancestor(&t, 9), None);
}

#[test]
fn tab_order_positive_indices_first() {
    let t = tree();
    assert_eq!(build_tab_order(&t, None), vec![3, 2, 6, 1, 5, 7]);
    assert_eq!(build_tab_order(&t, Some(1)), vec![3, 2, 6, 1, 5, 7]);
}

#[test]
fn tab_order_inside_a_trap_keeps_to_the_trap() {
    let t = tree();
    assert_eq!(build_tab_order(&t, Some(5)), vec![6, 5]);
}

#[test]
fn tab_and_shift_tab_wrap_around() {
    let order = vec![3, 2, 6];
    assert_eq!(next_focus(&order, None, false), Some(3));
    assert_eq!(next_focus(&order, None, true), Some(6));
    assert_eq!(next_focus(&order, Some(2), false), Some(6));
    assert_eq!(next_focus(&order, Some(6), false), Some(3));
    assert_eq!(next_focus(&order, Some(3), true), Some(6));
    assert_eq!(next_focus(&order, Some(99), false), Some(3));
    assert_eq!(next_focus(&Vec::new(), Some(3), false), None);
    let there = next_focus(&order, Some(2), false);
    assert_eq!(next_focus(&order, there, true), Some(2));
}

#[test]
fn pointer_capture_redirects_events() {
    let mut c = PointerCaptures::new();
    assert_eq!(c.resolve_target(1, 7), 7);
    c.set_pointer_capture(1, 3);
    assert!(c.has_pointer_capture(1, 3));
    assert!(!c.has_pointer_capture(1, 7));
    assert!(!c.has_pointer_capture(2, 3));
    assert_eq!(c.resolve_target(1, 7), 3);
    assert_eq!(c.resolve_target(2, 7), 7);
    c.set_pointer_capture(1, 4);
    assert_eq!(c.resolve_target(1, 7), 4);
    c.release_pointer_capture(1);
    assert_eq!(c.resolve_target(1, 7), 7);
}

use ui::hit::{hit_test, HitEntry};

fn h(inside: bool, interactive: bool, subtree_len: usize) -> HitEntry {
    HitEntry { inside, interactive, subtree_len }
}

// root(0) [ a(1) [ b(2) ], c(3) ]
#[test]
fn topmost_deepest_interactive_element_is_hit() {
    let t = vec![h(true, false, 4), h(true, true, 2), h(true, true, 1), h(true, true, 1)];
    let r = hit_test(&t).unwrap();
    assert_eq!(r.path, vec![3, 0]);
}

#[test]
fn child_is_hit_before_its_parent() {
    let t = vec![h(true, false, 4), h(true, true, 2), h(true, true, 1), h(false, true, 1)];
    assert_eq!(hit_test(&t).unwrap().path, vec![2, 1, 0]);
}

#[test]
fn nothing_outside_the_pointer_is_hit() {
    let t = vec![h(true, false, 4), h(false, true, 2), h(true, true, 1), h(false, true, 1)];
    assert!(hit_test(&t).is_none());
    let t = vec![h(true, true, 2), h(true, false, 1)];
    assert_eq!(hit_test(&t).unwrap().path, vec![0]);
    assert!(hit_test(&Vec::new()).is_none());
}

use ui::paint::paint_order;

#[test]
fn children_painted_by_z_index_then_tree_order() {
    let z = vec![Some(2), None, Some(-1), Some(0), Some(2), Some(-3), None, Some(1)];
    assert_eq!(paint_order(&z), vec![5, 2, 1, 3, 6, 7, 0, 4]);
    assert_eq!(paint_order(&vec![None, None, None]), vec![0, 1, 2]);
    assert!(paint_order(&Vec::new()).is_empty());
}

use ui::focus::FocusState;

#[test]
fn tab_moves_focus_through_the_order_and_wraps() {
    let t = tree();
    let mut f = FocusState::new();
    assert!(f.move_focus(&t, false));
    assert_eq!(f.focused, Some(3));
    assert!(f.move_focus(&t, false));
    assert_eq!(f.focused, Some(2));
    assert!(f.move_focus(&t, true));
    assert_eq!(f.focused, Some(3));
    assert!(f.move_focus(&t, true));
    assert_eq!(f.focused, Some(7));
    assert!(!f.set_focus(Some(7)));
    assert!(f.set_focus(Some(5)));
    assert!(f.move_focus(&t, false));
    assert_eq!(f.focused, Some(6));
    assert!(f.move_focus(&t, false));
    assert_eq!(f.focused, Some(5));
}

#[test]
fn no_tab_stops_means_no_move() {
    let t = vec![node(false, None, false, 2), node(false, None, false, 1)];
    let mut f = FocusState::new();
    assert!(!f.move_focus(&t, false));
    assert_eq!(f.focused, None);
}

// Form elements as built by the element constructors: an interactive kind,
// no explicit focusability, no tab index, enabled unless said otherwise.

#[test]
fn test_button_is_focusable() {
    assert!(element_is_focusable(false, None, true));
}

#[test]
fn test_checkbox_is_focusable() {
    assert!(element_is_focusable(false, None, true));
}

#[test]
fn test_radio_is_focusable() {
    assert!(element_is_focusable(false, None, true));
}

#[test]
fn test_switch_is_focusable() {
    assert!(element_is_focusable(false, None, true));
}

#[test]
fn test_slider_is_focusable() {
    assert!(element_is_focusable(false, None, true));
}

#[test]
fn test_disabled_not_focusable() {
    assert!(!element_is_focusable(true, None, true));
}

#[test]
fn test_container_not_focusable_by_default() {
    assert!(!element_is_focusable(false, None, false));
}

#[test]
fn test_button_is_tabbable() {
    assert!(element_is_tabbable(false, None, None, true));
}

#[test]
fn test_disabled_not_tabbable() {
    assert!(!element_is_tabbable(true, None, None, true));
}

#[test]
fn test_slider_is_tabbable() {
    assert!(element_is_tabbable(false, None, None, true));
}

// Hit tests: each entry says whether the pointer is within the element's
// laid-out bounds, and whether the element has a handler or a cursor style.

#[test]
fn test_hit_interactive_element() {
    // A 200x100 container holding a clickable 50x50 child; pointer at (25, 25).
    let t = vec![h(true, false, 2), h(true, true, 1)];
    let result = hit_test(&t);
    assert!(result.is_some());
    let path = result.unwrap().path;
    assert!(!path.is_empty());
    assert_eq!(path[0], 1);
}

#[test]
fn test_miss_outside_bounds() {
    // A clickable 100x100 container; pointer at (200, 200).
    let t = vec![h(false, true, 1)];
    assert!(hit_test(&t).is_none());
}

#[test]
fn test_non_interactive_not_hit() {
    // A plain 100x100 container; pointer at (50, 50).
    let t = vec![h(true, false, 1)];
    assert!(hit_test(&t).is_none());
}

#[test]
fn test_cursor_style_makes_interactive() {
    // A 100x100 container with a pointer cursor; pointer at (50, 50).
    let t = vec![h(true, true, 1)];
    assert!(hit_test(&t).is_some());
}
