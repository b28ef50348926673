use ui::svg_path::{parse_svg_path, svg_path_stalls, PathOp, PathSeg};

fn view(segs: &[PathSeg]) -> Vec<(PathOp, bool, Vec<String>)> {
    segs.iter().map(|g| (g.op, g.relative, g.args.clone())).collect()
}

fn seg(op: PathOp, rel: bool, args: &[&str]) -> (PathOp, bool, Vec<String>) {
    (op, rel, args.iter().map(|a| a.to_string()).collect())
}

fn parse(d: &str) -> Option<Vec<(PathOp, bool, Vec<String>)>> {
    assert!(!svg_path_stalls(d));
    parse_svg_path(d).map(|v| view(&v))
}

#[test]
fn absolute_move_line_close() {
    assert_eq!(
        parse("M 10 20 L 30 40 Z"),
        Some(vec![
            seg(PathOp::MoveTo, false, &["10", "20"]),
            seg(PathOp::LineTo, false, &["30", "40"]),
            seg(PathOp::Close, false, &[]),
        ])
    );
}

#[test]
fn pairs_after_a_move_are_lines() {
    assert_eq!(
        parse("m1,2 3,4"),
        Some(vec![seg(PathOp::MoveTo, true, &["1", "2"]), seg(PathOp::LineTo, true, &["3", "4"])])
    );
}

#[test]
fn horizontal_and_vertical_lines() {
    assert_eq!(
        parse("M0 0 H5 V-3 h1.5e2 v.5"),
        Some(vec![
            seg(PathOp::MoveTo, false, &["0", "0"]),
            seg(PathOp::HorizontalTo, false, &["5"]),
            seg(PathOp::VerticalTo, false, &["-3"]),
            seg(PathOp::HorizontalTo, true, &["1.5e2"]),
            seg(PathOp::VerticalTo, true, &[".5"]),
        ])
    );
}

#[test]
fn curves_repeat_their_command() {
    assert_eq!(
        parse("M0 0 C1 2 3 4 5 6 7 8 9 10 11 12 q1 2 3 4"),
        Some(vec![
            seg(PathOp::MoveTo, false, &["0", "0"]),
            seg(PathOp::CubicTo, false, &["1", "2", "3", "4", "5", "6"]),
            seg(PathOp::CubicTo, false, &["7", "8", "9", "10", "11", "12"]),
            seg(PathOp::QuadTo, true, &["1", "2", "3", "4"]),
        ])
    );
}

#[test]
fn numbers_split_at_signs_and_second_points() {
    assert_eq!(parse("M1-2"), Some(vec![seg(PathOp::MoveTo, false, &["1", "-2"])]));
    assert_eq!(parse("M0.5.5"), Some(vec![seg(PathOp::MoveTo, false, &["0.5", ".5"])]));
    assert_eq!(parse("M1e2-3"), Some(vec![seg(PathOp::MoveTo, false, &["1e2", "-3"])]));
    assert_eq!(parse("M1E+2,+3"), Some(vec![seg(PathOp::MoveTo, false, &["1E+2", "+3"])]));
}

#[test]
fn groups_with_unreadable_numbers_are_dropped() {
    assert_eq!(
        parse("M0 0 L1 . 2 3"),
        Some(vec![seg(PathOp::MoveTo, false, &["0", "0"]), seg(PathOp::LineTo, false, &["2", "3"])])
    );
    assert_eq!(parse("M 0 0 1e"), Some(vec![seg(PathOp::MoveTo, false, &["0", "0"])]));
    assert_eq!(parse("M 1"), None);
}

#[test]
fn paths_without_points_are_none() {
    assert_eq!(parse(""), None);
    assert_eq!(parse("  , "), None);
    assert_eq!(parse("Z z"), None);
}

#[test]
fn stuck_readings_are_detected() {
    assert!(svg_path_stalls("Z 5"));
    assert!(svg_path_stalls("M0 0 A1 1 0 0 1 5 5"));
    assert!(svg_path_stalls("#"));
    assert!(svg_path_stalls("M0 0 L1 1 #"));
    assert!(!svg_path_stalls("M0 0 A L1 1"));
}
