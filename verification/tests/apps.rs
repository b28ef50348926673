use ui::apps::{fuzzy_search, parse_desktop_file, rank_matches, sort_and_dedup_apps, AppEntry};

fn entry(name: &str, id: &str) -> AppEntry {
    AppEntry {
        name: name.to_string(),
        command: format!("run-{}", id),
        icon_name: None,
        desktop_id: id.to_string(),
    }
}

#[test]
fn parses_a_desktop_entry() {
    let c = "[Desktop Entry]\nType=Application\nName=Firefox\nName[de]=Feuerfuchs\nName=Second\nExec=firefox %u --new-window   %F\nIcon=firefox\n";
    let a = parse_desktop_file(c, Some("firefox")).unwrap();
    assert_eq!(a.name, "Firefox");
    assert_eq!(a.command, "firefox --new-window");
    assert_eq!(a.icon_name, Some("firefox".to_string()));
    assert_eq!(a.desktop_id, "firefox");
}

#[test]
fn keys_outside_the_desktop_entry_group_are_ignored() {
    let c = "[Desktop Entry]\nType=Application\nName=App\nExec=app\n[Desktop Action new]\nName=New Window\nExec=app --new\nIcon=action\n";
    let a = parse_desktop_file(c, Some("app")).unwrap();
    assert_eq!(a.name, "App");
    assert_eq!(a.command, "app");
    assert_eq!(a.icon_name, None);
}

#[test]
fn lines_are_trimmed_and_last_exec_wins() {
    let c = "  [Desktop Entry]  \n  Type=Application\n Name=X \nExec=first\nExec=  second  %U\n";
    let a = parse_desktop_file(c, Some("x")).unwrap();
    assert_eq!(a.name, "X");
    assert_eq!(a.command, "second");
}

#[test]
fn hidden_or_non_applications_are_rejected() {
    let hidden = "[Desktop Entry]\nType=Application\nName=A\nExec=a\nNoDisplay=true\n";
    assert!(parse_desktop_file(hidden, Some("a")).is_none());
    let link = "[Desktop Entry]\nType=Link\nName=A\nExec=a\n";
    assert!(parse_desktop_file(link, Some("a")).is_none());
    let no_exec = "[Desktop Entry]\nType=Application\nName=A\n";
    assert!(parse_desktop_file(no_exec, Some("a")).is_none());
    let no_name = "[Desktop Entry]\nType=Application\nExec=a\n";
    assert!(parse_desktop_file(no_name, Some("a")).is_none());
    let ok = "[Desktop Entry]\nType=Application\nName=A\nExec=a\n";
    assert!(parse_desktop_file(ok, None).is_none());
    assert!(parse_desktop_file(ok, Some("a")).is_some());
    assert!(parse_desktop_file("Type=Application\nName=A\nExec=a\n", Some("a")).is_none());
}

#[test]
fn empty_query_lists_every_application() {
    let apps = vec![entry("B", "b"), entry("A", "a"), entry("C", "c")];
    assert_eq!(fuzzy_search(&apps, ""), vec![0, 1, 2]);
}

#[test]
fn query_keeps_only_matches() {
    let apps = vec![entry("Firefox", "f"), entry("Kate", "k"), entry("Konsole", "ko")];
    let r = fuzzy_search(&apps, "kons");
    assert_eq!(r, vec![2]);
    let r = fuzzy_search(&apps, "zzz");
    assert!(r.is_empty());
}

#[test]
fn better_match_comes_first() {
    let apps = vec![entry("Kontact Settings", "a"), entry("Kate", "b")];
    let r = fuzzy_search(&apps, "kate");
    assert_eq!(r[0], 1);
}

#[test]
fn ranking_orders_by_score_then_position() {
    let scores = vec![Some(5), None, Some(9), Some(5), Some(-1), None, Some(9)];
    assert_eq!(rank_matches(&scores), vec![2, 6, 0, 3, 4]);
    assert!(rank_matches(&vec![None, None]).is_empty());
    assert!(rank_matches(&vec![]).is_empty());
}

#[test]
fn applications_sorted_case_insensitively_and_deduplicated() {
    let apps = vec![
        entry("zeta", "z"),
        entry("Alpha", "a1"),
        entry("beta", "b"),
        entry("alpha", "a1"),
        entry("ALPHA", "a2"),
    ];
    let r = sort_and_dedup_apps(apps);
    let names: Vec<&str> = r.iter().map(|a| a.name.as_str()).collect();
    assert_eq!(names, vec!["Alpha", "ALPHA", "beta", "zeta"]);
    let ids: Vec<&str> = r.iter().map(|a| a.desktop_id.as_str()).collect();
    assert_eq!(ids, vec!["a1", "a2", "b", "z"]);
}

#[test]
fn sorting_keeps_equal_names_in_order() {
    let apps = vec![entry("b", "1"), entry("a", "2"), entry("B", "3")];
    let r = sort_and_dedup_apps(apps);
    let ids: Vec<&str> = r.iter().map(|a| a.desktop_id.as_str()).collect();
    assert_eq!(ids, vec!["2", "1", "3"]);
}
