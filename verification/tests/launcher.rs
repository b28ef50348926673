use ui::apps::AppEntry;
use ui::launcher::{
    calc_height, KeyAction, Launcher, KEY_BACKSPACE, KEY_DOWN, KEY_ESCAPE, KEY_RETURN, KEY_TAB,
    KEY_UP,
};

fn entry(name: &str, command: &str) -> AppEntry {
    AppEntry {
        name: name.to_string(),
        command: command.to_string(),
        icon_name: None,
        desktop_id: name.to_lowercase(),
    }
}

fn many(n: usize) -> Vec<AppEntry> {
    (0..n).map(|i| entry(&format!("App{}", i), &format!("app{}", i))).collect()
}

#[test]
fn height_for_result_counts() {
    assert_eq!(calc_height(0), 64);
    assert_eq!(calc_height(1), 56 + 4 + 44 + 8);
    assert_eq!(calc_height(8), 56 + 4 + 8 * 44 + 8);
    assert_eq!(calc_height(20), calc_height(8));
}

#[test]
fn starts_with_every_application() {
    let l = Launcher::new(many(3));
    assert_eq!(l.filtered, vec![0, 1, 2]);
    assert_eq!(l.selected, 0);
    assert!(l.query.is_empty());
}

#[test]
fn escape_exits() {
    let mut l = Launcher::new(many(2));
    assert!(matches!(l.press_key(KEY_ESCAPE, None), KeyAction::Exit));
    assert!(l.should_exit);
}

#[test]
fn return_launches_selected_command() {
    let mut l = Launcher::new(many(3));
    l.press_key(KEY_DOWN, None);
    match l.press_key(KEY_RETURN, None) {
        KeyAction::Launch(c) => assert_eq!(c, "app1"),
        _ => panic!("expected a launch"),
    }
    assert!(l.should_exit);
}

#[test]
fn return_with_no_results_does_nothing() {
    let mut l = Launcher::new(Vec::new());
    assert!(matches!(l.press_key(KEY_RETURN, None), KeyAction::Nothing));
    assert!(!l.should_exit);
}

#[test]
fn up_and_down_stay_within_results() {
    let mut l = Launcher::new(many(2));
    assert!(matches!(l.press_key(KEY_UP, None), KeyAction::Nothing));
    assert!(matches!(l.press_key(KEY_TAB, None), KeyAction::Redraw));
    assert_eq!(l.selected, 1);
    assert!(matches!(l.press_key(KEY_DOWN, None), KeyAction::Nothing));
    assert_eq!(l.selected, 1);
    assert!(matches!(l.press_key(KEY_UP, None), KeyAction::Redraw));
    assert_eq!(l.selected, 0);
}

#[test]
fn scrolling_follows_the_selection() {
    let mut l = Launcher::new(many(12));
    for _ in 0..9 {
        l.press_key(KEY_DOWN, None);
    }
    assert_eq!(l.selected, 9);
    assert_eq!(l.scroll_offset, 2);
    assert_eq!(l.visible_results(), (2, 10, 7));
    for _ in 0..5 {
        l.press_key(KEY_UP, None);
    }
    assert_eq!(l.selected, 4);
    assert_eq!(l.scroll_offset, 2);
    for _ in 0..3 {
        l.press_key(KEY_UP, None);
    }
    assert_eq!(l.selected, 1);
    assert_eq!(l.scroll_offset, 1);
}

#[test]
fn typing_filters_and_backspace_widens() {
    let apps = vec![entry("Firefox", "firefox"), entry("Kate", "kate"), entry("Konsole", "konsole")];
    let mut l = Launcher::new(apps);
    l.press_key(KEY_DOWN, None);
    assert!(matches!(l.press_key(0x6b, Some("k")), KeyAction::Refiltered));
    assert_eq!(l.query, "k");
    assert_eq!(l.selected, 0);
    assert!(!l.filtered.contains(&0));
    l.press_key(0x6f, Some("o"));
    assert_eq!(l.filtered, vec![2]);
    assert!(matches!(l.press_key(KEY_BACKSPACE, None), KeyAction::Refiltered));
    assert_eq!(l.query, "k");
    l.press_key(KEY_BACKSPACE, None);
    assert_eq!(l.query, "");
    assert_eq!(l.filtered, vec![0, 1, 2]);
    l.press_key(KEY_BACKSPACE, None);
    assert_eq!(l.query, "");
}

#[test]
fn control_text_and_keys_without_text_are_ignored() {
    let mut l = Launcher::new(many(2));
    assert!(matches!(l.press_key(0xffe1, None), KeyAction::Nothing));
    assert!(matches!(l.press_key(0x1, Some("\u{1}")), KeyAction::Nothing));
    assert!(matches!(l.press_key(0x20, Some("")), KeyAction::Nothing));
    assert!(l.query.is_empty());
}
