use ui::dock::{dock_height, dock_width};
use ui::header::{format_clock, header_click, menu_press, rgba_to_argb, HeaderPopups, HeaderZone, PowerAction};

#[test]
fn dock_width_for_app_counts() {
    assert_eq!(dock_width(0), 200);
    assert_eq!(dock_width(1), 44 + 24);
    assert_eq!(dock_width(3), 3 * 44 + 2 * 8 + 24);
    assert_eq!(dock_height(), 64);
}

#[test]
fn rgba_pixels_become_bgra_in_memory() {
    let src = [1u8, 2, 3, 4, 5, 6, 7, 8, 9, 9, 9, 9];
    let mut dst = [0u8; 12];
    rgba_to_argb(&src, &mut dst, 2);
    assert_eq!(dst, [3, 2, 1, 4, 7, 6, 5, 8, 0, 0, 0, 0]);
}

#[test]
fn clock_uses_twelve_hours() {
    assert_eq!(format_clock(0, 5), "12:05 AM");
    assert_eq!(format_clock(9, 30), "9:30 AM");
    assert_eq!(format_clock(12, 0), "12:00 PM");
    assert_eq!(format_clock(13, 7), "1:07 PM");
    assert_eq!(format_clock(23, 59), "11:59 PM");
}

use ui::dock::{plan_app_update, SlotState};

fn slot(id: &str, leaving: bool) -> SlotState {
    SlotState { app_id: id.to_string(), leaving }
}

#[test]
fn slots_follow_the_new_application_list() {
    let slots = vec![slot("a", false), slot("b", false), slot("c", true), slot("d", false)];
    let new_ids: Vec<String> = vec!["d".to_string(), "e".to_string(), "a".to_string(), "c".to_string()];
    let plan = plan_app_update(&slots, &new_ids);
    assert_eq!(plan.start_leaving, vec![false, true, false, false]);
    assert_eq!(plan.update_from, vec![Some(2), None, None, Some(0)]);
    assert_eq!(plan.entering, vec![1, 3]);
    assert!(plan.had_visible);
    assert_eq!(plan.active_count, 4);
}

#[test]
fn first_applications_enter_into_an_empty_dock() {
    let plan = plan_app_update(&Vec::new(), &vec!["x".to_string(), "y".to_string()]);
    assert!(!plan.had_visible);
    assert_eq!(plan.entering, vec![0, 1]);
    assert_eq!(plan.active_count, 2);
    assert_eq!(dock_width(plan.active_count), 2 * 44 + 8 + 24);
}

#[test]
fn header_clicks_open_one_popup_at_a_time() {
    let closed = HeaderPopups { volume_open: false, menu_open: false };
    let s = header_click(closed, HeaderZone::Volume);
    assert_eq!(s, HeaderPopups { volume_open: true, menu_open: false });
    let s = header_click(s, HeaderZone::MenuIcon);
    assert_eq!(s, HeaderPopups { volume_open: false, menu_open: true });
    let s = header_click(s, HeaderZone::MenuIcon);
    assert_eq!(s, closed);
    let s = header_click(header_click(closed, HeaderZone::Volume), HeaderZone::Volume);
    assert_eq!(s, closed);
    let s = header_click(HeaderPopups { volume_open: true, menu_open: false }, HeaderZone::Elsewhere);
    assert_eq!(s, closed);
}

#[test]
fn power_menu_items() {
    assert_eq!(menu_press(Some(0)), (Some(PowerAction::Logout), true));
    assert_eq!(menu_press(Some(1)), (Some(PowerAction::Restart), true));
    assert_eq!(menu_press(Some(2)), (Some(PowerAction::Shutdown), true));
    assert_eq!(menu_press(Some(3)), (None, true));
    assert_eq!(menu_press(None), (None, false));
}
