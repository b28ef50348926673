use ui::color::parse_hex_color;

// --- Hex parsing tests ---

#[test]
fn test_parse_hex_6_digit() {
    let c = parse_hex_color("#FF8000").unwrap();
    assert_eq!(c.r, 255);
    assert_eq!(c.g, 128);
    assert_eq!(c.b, 0);
    assert_eq!(c.a, 255);
}

#[test]
fn test_parse_hex_8_digit() {
    let c = parse_hex_color("#FF800080").unwrap();
    assert_eq!(c.r, 255);
    assert_eq!(c.g, 128);
    assert_eq!(c.b, 0);
    assert_eq!(c.a, 128);
}

#[test]
fn test_parse_hex_3_digit() {
    let c = parse_hex_color("#F80").unwrap();
    assert_eq!(c.r, 255);
    assert_eq!(c.g, 136);
    assert_eq!(c.b, 0);
    assert_eq!(c.a, 255);
}

#[test]
fn test_parse_hex_4_digit() {
    let c = parse_hex_color("#F80A").unwrap();
    assert_eq!(c.r, 255);
    assert_eq!(c.g, 136);
    assert_eq!(c.b, 0);
    assert_eq!(c.a, 170);
}

#[test]
fn test_parse_hex_no_hash() {
    let c = parse_hex_color("00FF00").unwrap();
    assert_eq!(c.r, 0);
    assert_eq!(c.g, 255);
    assert_eq!(c.b, 0);
}

#[test]
fn test_parse_hex_lowercase() {
    let c = parse_hex_color("#ff8000").unwrap();
    assert_eq!(c.r, 255);
    assert_eq!(c.g, 128);
    assert_eq!(c.b, 0);
}

#[test]
fn test_parse_hex_invalid() {
    assert!(parse_hex_color("").is_none());
    assert!(parse_hex_color("#").is_none());
    assert!(parse_hex_color("#GG0000").is_none());
    assert!(parse_hex_color("#12345").is_none()); // 5 digits
    assert!(parse_hex_color("not a color").is_none());
}


// --- further cases ---

use ui::color::Color;

#[test]
fn hex_text_reads_back() {
    for c in [Color::new(0, 0, 0, 255), Color::new(18, 52, 86, 120), Color::new(255, 255, 255, 0)] {
        let text = c.to_hex();
        let back = parse_hex_color(&text).unwrap();
        assert_eq!((back.r, back.g, back.b, back.a), (c.r, c.g, c.b, c.a));
    }
    assert_eq!(Color::new(18, 52, 86, 255).to_hex(), "#123456");
    assert_eq!(Color::new(18, 52, 86, 120).to_hex(), "#12345678");
}

#[test]
fn hex_fields_take_hex_digits_only() {
    assert!(parse_hex_color("+F+F+F").is_none());
    assert!(parse_hex_color("+FF").is_none());
    assert!(parse_hex_color("#-1-1-1").is_none());
    assert!(parse_hex_color("\u{e9}0").is_none());
    assert!(parse_hex_color("#\u{e9}0000").is_none());
    assert!(Color::from_hex("#12\u{e9}").is_none());
    assert_eq!(Color::from_hex("abc"), Some(Color::new(170, 187, 204, 255)));
}
