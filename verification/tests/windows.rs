use std::collections::HashMap;

use ui::windows::{
    extract_icon_from_desktop, resolve_icon_name, WindowEvent, WindowTracker, WindowUpdate,
    STATE_IS_ACTIVE, STATE_SKIP_TASKBAR,
};

fn no_files(_: &str) -> Option<String> {
    None
}

fn open_window(t: &mut WindowTracker, id: u32, app: &str, title: &str) {
    assert!(t.handle_window_announced(id));
    t.handle_window_event(id, WindowEvent::AppIdChanged(app.to_string()));
    t.handle_window_event(id, WindowEvent::TitleChanged(title.to_string()));
}

#[test]
fn new_tracker_is_empty_and_changed() {
    let t = WindowTracker::new();
    assert!(t.changed);
    assert!(t.get_dock_apps(&no_files).is_empty());
}

#[test]
fn announcing_twice_requests_once() {
    let mut t = WindowTracker::new();
    assert!(t.handle_window_announced(7));
    assert!(!t.handle_window_announced(7));
    assert!(t.has_window(7));
    assert!(!t.has_window(8));
}

#[test]
fn windows_group_by_application_in_first_seen_order() {
    let mut t = WindowTracker::new();
    open_window(&mut t, 10, "zeditor", "Z one");
    open_window(&mut t, 11, "browser", "Web");
    open_window(&mut t, 12, "zeditor", "Z two");
    t.handle_window_event(11, WindowEvent::ThemedIconNameChanged("web-icon".to_string()));
    t.handle_window_event(10, WindowEvent::ThemedIconNameChanged("z-icon".to_string()));
    t.handle_window_event(12, WindowEvent::StateChanged(STATE_IS_ACTIVE));
    let apps = t.get_dock_apps(&no_files);
    assert_eq!(apps.len(), 2);
    assert_eq!(apps[0].app_id, "zeditor");
    assert_eq!(apps[0].name, "Z one");
    assert_eq!(apps[0].icon_name, "z-icon");
    assert_eq!(apps[0].window_count, 2);
    assert!(apps[0].is_active);
    assert_eq!(apps[1].app_id, "browser");
    assert_eq!(apps[1].window_count, 1);
    assert!(!apps[1].is_active);
    assert_eq!(apps[1].icon_name, "web-icon");
}

#[test]
fn skip_taskbar_and_unnamed_windows_are_left_out() {
    let mut t = WindowTracker::new();
    open_window(&mut t, 1, "panel", "Panel");
    t.handle_window_event(1, WindowEvent::StateChanged(STATE_SKIP_TASKBAR | STATE_IS_ACTIVE));
    assert!(t.handle_window_announced(2));
    t.handle_window_event(2, WindowEvent::TitleChanged("no app id".to_string()));
    open_window(&mut t, 3, "term", "Terminal");
    let apps = t.get_dock_apps(&no_files);
    assert_eq!(apps.len(), 1);
    assert_eq!(apps[0].app_id, "term");
}

#[test]
fn first_unmap_is_ignored_second_removes() {
    let mut t = WindowTracker::new();
    open_window(&mut t, 5, "term", "Terminal");
    t.changed = false;
    t.handle_window_event(5, WindowEvent::Unmapped);
    assert!(t.has_window(5));
    assert!(!t.changed);
    t.handle_window_event(5, WindowEvent::Unmapped);
    assert!(!t.has_window(5));
    assert!(t.changed);
    assert!(t.get_dock_apps(&no_files).is_empty());
}

#[test]
fn mark_first_unmap_reports_real_unmaps() {
    let mut t = WindowTracker::new();
    t.add_window(3);
    assert!(!t.mark_first_unmap(3));
    assert!(t.mark_first_unmap(3));
    assert!(!t.mark_first_unmap(99));
}

#[test]
fn updates_to_unknown_windows_are_ignored() {
    let mut t = WindowTracker::new();
    t.changed = false;
    t.update_window(42, WindowUpdate::Title("x".to_string()));
    assert!(!t.changed);
    t.remove_window(42);
    assert!(t.changed);
}

#[test]
fn state_flags_set_active_and_skip_taskbar() {
    let mut t = WindowTracker::new();
    open_window(&mut t, 1, "a", "A");
    t.update_window(1, WindowUpdate::State(STATE_IS_ACTIVE));
    assert!(t.get_dock_apps(&no_files)[0].is_active);
    t.update_window(1, WindowUpdate::State(0));
    assert!(!t.get_dock_apps(&no_files)[0].is_active);
    t.update_window(1, WindowUpdate::State(STATE_SKIP_TASKBAR));
    assert!(t.get_dock_apps(&no_files).is_empty());
}

#[test]
fn removing_keeps_order_of_the_others() {
    let mut t = WindowTracker::new();
    open_window(&mut t, 1, "one", "1");
    open_window(&mut t, 2, "two", "2");
    open_window(&mut t, 3, "three", "3");
    t.remove_window(2);
    let apps = t.get_dock_apps(&no_files);
    let ids: Vec<&str> = apps.iter().map(|a| a.app_id.as_str()).collect();
    assert_eq!(ids, vec!["one", "three"]);
}

#[test]
fn extract_icon_takes_first_icon_line_trimmed() {
    let c = "[Desktop Entry]\nName=Foo\nIcon=  foo-icon \r\nIcon=other\n";
    assert_eq!(extract_icon_from_desktop(c), Some("foo-icon".to_string()));
    assert_eq!(extract_icon_from_desktop("Name=Foo\n"), None);
    assert_eq!(extract_icon_from_desktop(""), None);
    assert_eq!(extract_icon_from_desktop(" Icon=x"), None);
    assert_eq!(extract_icon_from_desktop("Icon="), Some(String::new()));
}

#[test]
fn icon_name_resolved_from_desktop_files_in_order() {
    let mut files = HashMap::new();
    files.insert(
        "/usr/share/applications/org.kde.dolphin.desktop".to_string(),
        "Icon=system-file-manager\n".to_string(),
    );
    files.insert(
        "/usr/local/share/applications/dolphin.desktop".to_string(),
        "Icon=later\n".to_string(),
    );
    files.insert(
        "/usr/share/applications/dolphin.desktop".to_string(),
        "Name=Dolphin\n".to_string(),
    );
    let read = |p: &str| files.get(p).cloned();
    assert_eq!(resolve_icon_name("dolphin", &read), "system-file-manager");
    assert_eq!(resolve_icon_name("unknown", &read), "unknown");
}

#[test]
fn dock_entry_without_icon_uses_desktop_file() {
    let mut t = WindowTracker::new();
    open_window(&mut t, 1, "kate", "Kate");
    let read = |p: &str| {
        if p == "/usr/share/applications/kate.desktop" {
            Some("[Desktop Entry]\nIcon=kate-icon\n".to_string())
        } else {
            None
        }
    };
    let apps = t.get_dock_apps(&read);
    assert_eq!(apps[0].icon_name, "kate-icon");
}

#[test]
fn dock_entry_counts_shown_windows_of_its_app() {
    let mut t = WindowTracker::new();
    open_window(&mut t, 1, "term", "First");
    open_window(&mut t, 2, "term", "Second");
    open_window(&mut t, 3, "term", "Hidden");
    t.handle_window_event(3, WindowEvent::StateChanged(STATE_SKIP_TASKBAR));
    open_window(&mut t, 4, "mail", "Inbox");
    t.handle_window_event(2, WindowEvent::StateChanged(STATE_IS_ACTIVE));
    let apps = t.get_dock_apps(&no_files);
    assert_eq!(apps.len(), 2);
    assert_eq!(apps[0].app_id, "term");
    assert_eq!(apps[0].window_count, 2);
    assert_eq!(apps[0].name, "First");
    assert!(apps[0].is_active);
    assert_eq!(apps[1].window_count, 1);
    assert!(!apps[1].is_active);
}
