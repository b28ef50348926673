use ui::focus::FocusState;
use ui::input::{route_key_down, CursorStyle, EventResult, KeyDownRoute, KeyValue, Modifiers, MouseButton};
use ui::pointer::{cursor_for_path, first_handling, PointerState, PrimaryTouch, ReleaseAction};

fn mods(shift: bool, ctrl: bool) -> Modifiers {
    Modifiers { shift, ctrl, alt: false, super_: false }
}

#[test]
fn hover_change_lists_left_and_entered_elements() {
    let mut p = PointerState::new();
    let c = p.update_hover(vec![3, 1, 0]);
    assert!(c.left.is_empty());
    assert_eq!(c.entered, vec![3, 1, 0]);
    let c = p.update_hover(vec![4, 1, 0]);
    assert_eq!(c.left, vec![3]);
    assert_eq!(c.entered, vec![4]);
    assert_eq!(p.hovered, vec![4, 1, 0]);
    let c = p.update_hover(Vec::new());
    assert_eq!(c.left, vec![4, 1, 0]);
    assert!(c.entered.is_empty());
}

#[test]
fn deepest_cursor_wins() {
    assert_eq!(cursor_for_path(&vec![None, Some(CursorStyle::Text), Some(CursorStyle::Pointer)]), CursorStyle::Text);
    assert_eq!(cursor_for_path(&vec![None, None]), CursorStyle::Default);
    assert_eq!(cursor_for_path(&Vec::new()), CursorStyle::Default);
}

#[test]
fn first_handling_is_deepest_accepting_element() {
    assert_eq!(first_handling(&vec![5, 2, 0], &vec![false, true, true]), Some(2));
    assert_eq!(first_handling(&vec![5, 2, 0], &vec![false, false, false]), None);
}

#[test]
fn quick_near_clicks_count_up() {
    let mut p = PointerState::new();
    let path = Some(vec![2, 0]);
    p.press(&path);
    assert_eq!(p.pressed_element, Some(2));
    assert_eq!(p.release(MouseButton::Left, 1000, false, &path), ReleaseAction::Click { element: 2, count: 1 });
    p.press(&path);
    assert_eq!(p.release(MouseButton::Left, 1200, true, &path), ReleaseAction::Click { element: 2, count: 2 });
    p.press(&path);
    assert_eq!(p.release(MouseButton::Left, 1300, true, &path), ReleaseAction::Click { element: 2, count: 3 });
    // Too late: the run starts again.
    p.press(&path);
    assert_eq!(p.release(MouseButton::Left, 1700, true, &path), ReleaseAction::Click { element: 2, count: 1 });
    // Too far away.
    p.press(&path);
    assert_eq!(p.release(MouseButton::Left, 1750, false, &path), ReleaseAction::Click { element: 2, count: 1 });
    assert_eq!(p.pressed_element, None);
}

#[test]
fn release_elsewhere_or_after_drag_is_no_click() {
    let mut p = PointerState::new();
    p.press(&Some(vec![2, 0]));
    assert_eq!(p.release(MouseButton::Left, 10, true, &Some(vec![3, 0])), ReleaseAction::Nothing);
    p.press(&Some(vec![2, 0]));
    p.begin_drag(None);
    assert!(p.dragging && !p.dnd_active);
    assert_eq!(p.release(MouseButton::Left, 20, true, &Some(vec![2, 0])), ReleaseAction::Nothing);
    assert!(!p.dragging);
    p.press(&None);
    assert_eq!(p.release(MouseButton::Left, 30, true, &None), ReleaseAction::Nothing);
}

#[test]
fn right_and_middle_clicks() {
    let mut p = PointerState::new();
    p.press(&Some(vec![1, 0]));
    assert_eq!(p.release(MouseButton::Right, 10, true, &Some(vec![1, 0])), ReleaseAction::ContextMenu { element: 1 });
    p.press(&Some(vec![1, 0]));
    assert_eq!(p.release(MouseButton::Middle, 20, true, &Some(vec![1, 0])), ReleaseAction::AuxClick { element: 1 });
    assert_eq!(p.click_count, 0);
}

#[test]
fn drag_and_drop_ends_in_a_drop() {
    let mut p = PointerState::new();
    p.press(&Some(vec![4, 0]));
    p.begin_drag(Some(EventResult::Continue));
    assert!(p.dnd_active);
    assert_eq!(p.dnd_source, Some(4));
    let ch = p.drag_over(Some(6));
    assert_eq!((ch.leave, ch.enter), (None, Some(6)));
    let ch = p.drag_over(Some(6));
    assert_eq!((ch.leave, ch.enter), (None, None));
    let ch = p.drag_over(Some(7));
    assert_eq!((ch.leave, ch.enter), (Some(6), Some(7)));
    assert_eq!(p.release(MouseButton::Left, 50, true, &Some(vec![7, 0])), ReleaseAction::Drop { target: Some(7) });
    assert!(!p.dnd_active);
    assert_eq!(p.dnd_source, None);
    assert_eq!(p.dnd_over_element, None);
}

#[test]
fn prevented_drag_start_is_a_plain_drag() {
    let mut p = PointerState::new();
    p.press(&Some(vec![4, 0]));
    p.begin_drag(Some(EventResult::PreventDefault));
    assert!(p.dragging && !p.dnd_active);
}

#[test]
fn pressing_focuses_or_blurs() {
    let mut f = FocusState::new();
    assert!(f.focus_on_press(3, true));
    assert_eq!(f.focused, Some(3));
    assert!(!f.focus_on_press(3, true));
    assert!(f.focus_on_press(5, false));
    assert_eq!(f.focused, None);
    assert!(!f.focus_on_press(5, false));
}

#[test]
fn key_routes() {
    let none = mods(false, false);
    assert_eq!(route_key_down(&KeyValue::Tab, none, false, false), KeyDownRoute::FocusNavigation { reverse: false });
    assert_eq!(route_key_down(&KeyValue::Tab, mods(true, false), true, false), KeyDownRoute::FocusNavigation { reverse: true });
    assert_eq!(route_key_down(&KeyValue::Tab, mods(false, true), true, false), KeyDownRoute::Dispatch);
    let ch = |s: &str| KeyValue::Character(s.to_string());
    assert_eq!(route_key_down(&ch("c"), mods(false, true), false, false), KeyDownRoute::Copy);
    assert_eq!(route_key_down(&ch("X"), mods(true, true), false, false), KeyDownRoute::Cut);
    assert_eq!(route_key_down(&ch("v"), mods(false, true), false, false), KeyDownRoute::Paste);
    assert_eq!(route_key_down(&ch("v"), none, false, false), KeyDownRoute::Dispatch);
    assert_eq!(route_key_down(&KeyValue::Enter, none, true, false), KeyDownRoute::Activate);
    assert_eq!(route_key_down(&KeyValue::Space, none, true, true), KeyDownRoute::Activate);
    assert_eq!(route_key_down(&ch(" "), none, true, false), KeyDownRoute::Activate);
    assert_eq!(route_key_down(&KeyValue::Enter, none, false, false), KeyDownRoute::Dispatch);
    assert_eq!(route_key_down(&KeyValue::ArrowUp, none, true, true), KeyDownRoute::SliderStep { steps: 1 });
    assert_eq!(route_key_down(&KeyValue::ArrowLeft, mods(true, false), true, true), KeyDownRoute::SliderStep { steps: -10 });
    assert_eq!(route_key_down(&KeyValue::Home, none, true, true), KeyDownRoute::SliderToMin);
    assert_eq!(route_key_down(&KeyValue::End, none, true, true), KeyDownRoute::SliderToMax);
    assert_eq!(route_key_down(&KeyValue::ArrowUp, none, true, false), KeyDownRoute::Dispatch);
}

#[test]
fn first_finger_stands_in_for_the_pointer() {
    let mut t = PrimaryTouch::new();
    assert!(t.touch_down(7));
    assert!(!t.touch_down(8));
    assert!(t.touch_motion(7));
    assert!(!t.touch_motion(8));
    assert!(!t.touch_up(8));
    assert_eq!(t.primary, Some(7));
    assert!(t.touch_up(7));
    assert_eq!(t.primary, None);
    assert!(t.touch_down(9));
    assert!(t.touch_cancel());
    assert!(!t.touch_cancel());
}

#[test]
fn leaving_the_surface_cancels_drag_and_hover() {
    let mut p = PointerState::new();
    p.update_hover(vec![2, 1, 0]);
    p.press(&Some(vec![2, 1, 0]));
    p.begin_drag(Some(EventResult::Stop));
    p.drag_over(Some(1));
    let (drag_leave, left) = p.pointer_leave();
    assert_eq!(drag_leave, Some(1));
    assert_eq!(left, vec![2, 1, 0]);
    assert!(p.hovered.is_empty());
    assert!(!p.dnd_active);
    let (drag_leave, left) = p.pointer_leave();
    assert_eq!(drag_leave, None);
    assert!(left.is_empty());
}
