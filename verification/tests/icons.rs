use ui::icons::{find_icon_path, icon_path_candidates, IconPack, IconRegistry, ResolvedIcon};

#[test]
fn candidates_start_with_hicolor_svg_and_end_with_pixmaps() {
    let c = icon_path_candidates("firefox");
    assert_eq!(c.len(), 146);
    assert_eq!(c[0], "/usr/share/icons/hicolor/48x48/apps/firefox.svg");
    assert_eq!(c[1], "/usr/share/icons/hicolor/48x48/apps/firefox.png");
    assert_eq!(c[2], "/usr/share/icons/hicolor/48x48/applications/firefox.svg");
    assert_eq!(c[72], "/usr/local/share/icons/hicolor/48x48/apps/firefox.svg");
    assert_eq!(c[144], "/usr/share/pixmaps/firefox.png");
    assert_eq!(c[145], "/usr/share/pixmaps/firefox.svg");
}

#[test]
fn first_existing_candidate_wins() {
    let exists = |p: &str| {
        p == "/usr/share/icons/breeze/scalable/apps/kate.svg"
            || p == "/usr/share/pixmaps/kate.png"
    };
    assert_eq!(
        find_icon_path("kate", &exists),
        Some("/usr/share/icons/breeze/scalable/apps/kate.svg".to_string())
    );
    let none = |_: &str| false;
    assert_eq!(find_icon_path("kate", &none), None);
}

#[test]
fn absolute_icon_path_is_taken_when_it_exists() {
    let exists = |p: &str| p == "/opt/app/icon.png";
    assert_eq!(find_icon_path("/opt/app/icon.png", &exists), Some("/opt/app/icon.png".to_string()));
    let missing = |p: &str| p == "/usr/share/pixmaps//opt/x.svg";
    assert_eq!(find_icon_path("/opt/x", &missing), Some("/usr/share/pixmaps//opt/x.svg".to_string()));
}

#[test]
fn inline_icons_win_over_packs_and_files() {
    let mut reg = IconRegistry::new();
    let mut pack = IconPack::new("p");
    pack.add("home", "<svg pack/>");
    reg.register_pack(pack);
    let all = |_: &str| true;
    match reg.resolve("home", &all) {
        Some(ResolvedIcon::Svg(s)) => assert_eq!(s, "<svg pack/>"),
        _ => panic!("pack icon expected"),
    }
    reg.register("home", "<svg inline/>");
    match reg.resolve("home", &all) {
        Some(ResolvedIcon::Svg(s)) => assert_eq!(s, "<svg inline/>"),
        _ => panic!("inline icon expected"),
    }
    match reg.resolve("other", &all) {
        Some(ResolvedIcon::File(p)) => {
            assert_eq!(p, "/usr/share/icons/breeze-dark/scalable/apps/other.svg")
        }
        _ => panic!("file expected"),
    }
}

#[test]
fn earlier_pack_wins_and_later_add_replaces() {
    let mut reg = IconRegistry::new();
    let mut a = IconPack::new("a");
    a.add("x", "a1");
    a.add("x", "a2");
    let mut b = IconPack::new("b");
    b.add("x", "b1");
    reg.register_pack(a);
    reg.register_pack(b);
    let none = |_: &str| false;
    match reg.resolve("x", &none) {
        Some(ResolvedIcon::Svg(s)) => assert_eq!(s, "a2"),
        _ => panic!(),
    }
    assert!(reg.resolve("y", &none).is_none());
}

#[test]
fn theme_and_pixmap_fallback() {
    let mut reg = IconRegistry::new();
    reg.set_theme("Papirus");
    let hicolor = |p: &str| p == "/usr/local/share/icons/hicolor/16x16/status/net.png";
    assert_eq!(
        reg.find_freedesktop_icon("net", &hicolor),
        Some("/usr/local/share/icons/hicolor/16x16/status/net.png".to_string())
    );
    let themed = |p: &str| p == "/usr/share/icons/Papirus/48x48/devices/net.svg";
    assert_eq!(
        reg.find_freedesktop_icon("net", &themed),
        Some("/usr/share/icons/Papirus/48x48/devices/net.svg".to_string())
    );
    let pix = |p: &str| p == "/usr/share/pixmaps/net.png";
    assert_eq!(reg.find_freedesktop_icon("net", &pix), Some("/usr/share/pixmaps/net.png".to_string()));
}

#[test]
fn loading_a_directory_counts_and_keeps_last() {
    let mut reg = IconRegistry::new();
    let files = vec![
        ("folder".to_string(), "<svg 1/>".to_string()),
        ("file".to_string(), "<svg 2/>".to_string()),
        ("folder".to_string(), "<svg 3/>".to_string()),
    ];
    assert_eq!(reg.register_pack_from_dir("mine", &files), 3);
    let none = |_: &str| false;
    match reg.resolve("folder", &none) {
        Some(ResolvedIcon::Svg(s)) => assert_eq!(s, "<svg 3/>"),
        _ => panic!(),
    }
    let mut pack = IconPack::new("q");
    assert_eq!(pack.load_directory(&Vec::new()), 0);
    assert_eq!(pack.name, "q");
}

#[test]
fn a_pack_holds_one_icon_per_stem() {
    let mut pack = IconPack::new("p");
    let files = vec![
        ("a".to_string(), "<svg a/>".to_string()),
        ("b".to_string(), "<svg b/>".to_string()),
    ];
    assert_eq!(pack.load_directory(&files), 2);
    assert_eq!(pack.icons.len(), 2);
    let repeated = vec![
        ("a".to_string(), "<svg a2/>".to_string()),
        ("c".to_string(), "<svg c/>".to_string()),
        ("c".to_string(), "<svg c2/>".to_string()),
    ];
    assert_eq!(pack.load_directory(&repeated), 3);
    assert_eq!(pack.icons.len(), 3);
    let c: Vec<&(String, String)> = pack.icons.iter().filter(|e| e.0 == "c").collect();
    assert_eq!(c.len(), 1);
    assert_eq!(c[0].1, "<svg c2/>");
}
