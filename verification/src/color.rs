//! RGBA colors and their hexadecimal text forms ("#RGB", "#RGBA",
//! "#RRGGBB", "#RRGGBBAA").
use vstd::prelude::*;
use crate::text::{hex_byte, hex_char, string_from_chars};
use vstd::string::StringSliceAdditionalSpecFns;

verus! {

/// An 8-bit-per-channel RGBA color.
#[derive(Debug, Clone, Copy, PartialEq, Eq, Hash, Structural)]
pub struct Color {
    pub r: u8,
    pub g: u8,
    pub b: u8,
    pub a: u8,
}

/// Which part of a color picker is being dragged.
#[derive(Debug, Clone, Copy, PartialEq, Eq, Structural)]
pub enum ColorPickerDrag {
    /// The saturation/value gradient square.
    SvGradient,
    /// The hue slider bar.
    HueSlider,
    /// The alpha slider bar.
    AlphaSlider,
}

/// Value of one hexadecimal digit byte, either case.
pub open spec fn hex_digit_byte(b: u8) -> Option<int> {
    if 48 <= b <= 57 {
        Some(b - 48)
    } else if 97 <= b <= 102 {
        Some(b - 97 + 10)
    } else if 65 <= b <= 70 {
        Some(b - 65 + 10)
    } else {
        None
    }
}

/// The value of a field of one or two hexadecimal digits (most significant
/// first); `None` when a byte of it is not a hexadecimal digit.
pub open spec fn hex_field(f: Seq<u8>) -> Option<u8> {
    if f.len() == 1 {
        match hex_digit_byte(f[0]) {
            Some(v) => Some(v as u8),
            None => None,
        }
    } else if f.len() == 2 {
        match (hex_digit_byte(f[0]), hex_digit_byte(f[1])) {
            (Some(hi), Some(lo)) => Some((hi * 16 + lo) as u8),
            _ => None,
        }
    } else {
        None
    }
}

/// The bytes after an optional leading `#`.
pub open spec fn hex_body(s: Seq<u8>) -> Seq<u8> {
    if s.len() > 0 && s[0] == 35 {
        s.drop_first()
    } else {
        s
    }
}

/// The color that `parse_hex_color` reads from the bytes of its argument.
pub open spec fn hex_color(s: Seq<u8>) -> Option<Color> {
    let t = hex_body(s);
    if t.len() == 3 || t.len() == 4 {
        match (
            hex_field(t.subrange(0, 1)),
            hex_field(t.subrange(1, 2)),
            hex_field(t.subrange(2, 3)),
            if t.len() == 4 {
                hex_field(t.subrange(3, 4))
            } else {
                Some(15u8)
            },
        ) {
            (Some(r), Some(g), Some(b), Some(a)) => Some(
                Color {
                    r: (r * 17) as u8,
                    g: (g * 17) as u8,
                    b: (b * 17) as u8,
                    a: (a * 17) as u8,
                },
            ),
            _ => None,
        }
    } else if t.len() == 6 || t.len() == 8 {
        match (
            hex_field(t.subrange(0, 2)),
            hex_field(t.subrange(2, 4)),
            hex_field(t.subrange(4, 6)),
            if t.len() == 8 {
                hex_field(t.subrange(6, 8))
            } else {
                Some(255u8)
            },
        ) {
            (Some(r), Some(g), Some(b), Some(a)) => Some(Color { r, g, b, a }),
            _ => None,
        }
    } else {
        None
    }
}

/// "#RRGGBB", or "#RRGGBBAA" when the color is not opaque; upper-case digits.
pub open spec fn hex_text(c: Color) -> Seq<char> {
    seq!['#'] + hex_byte(c.r) + hex_byte(c.g) + hex_byte(c.b) + if c.a == 255 {
        Seq::<char>::empty()
    } else {
        hex_byte(c.a)
    }
}

fn hex_digit(b: u8) -> (r: Option<u8>)
    ensures
        match hex_digit_byte(b) {
            Some(v) => r == Some(v as u8),
            None => r is None,
        },
{
    if 48 <= b && b <= 57 {
        Some(b - 48)
    } else if 97 <= b && b <= 102 {
        Some(b - 97 + 10)
    } else if 65 <= b && b <= 70 {
        Some(b - 65 + 10)
    } else {
        None
    }
}

/// Reads the field `t[lo..hi]` of one or two hexadecimal digits.
fn read_field(t: &[u8], lo: usize, hi: usize) -> (r: Option<u8>)
    requires
        lo < hi <= t.len(),
        hi - lo <= 2,
    ensures
        r == hex_field(t@.subrange(lo as int, hi as int)),
{
    let ghost f = t@.subrange(lo as int, hi as int);
    if hi - lo == 1 {
        hex_digit(t[lo])
    } else {
        match (hex_digit(t[lo]), hex_digit(t[lo + 1])) {
            (Some(hi_d), Some(lo_d)) => Some(hi_d * 16 + lo_d),
            _ => None,
        }
    }
}

/// Parse a hex color: `#RGB`, `#RGBA`, `#RRGGBB` or `#RRGGBBAA`, with or
/// without the `#`. Single digits are doubled (`F` reads as `FF`); a
/// missing alpha reads as opaque. Any other text, a byte that is not a
/// hexadecimal digit among them, gives `None`.
pub fn parse_hex_color(s: &str) -> (r: Option<Color>)
    ensures
        r == hex_color(s.spec_bytes()),
{
    let all = s.as_bytes();
    let start: usize = if all.len() > 0 && all[0] == 35 {
        1
    } else {
        0
    };
    let n = all.len() - start;
    let ghost t = all@.subrange(start as int, all@.len() as int);
    assert(t =~= hex_body(all@));
    proof {
        assert forall|i: int, j: int| 0 <= i <= j <= n implies #[trigger] t.subrange(i, j)
            =~= all@.subrange(start + i, start + j) by {}
    }
    if n == 3 || n == 4 {
        let r = match read_field(all, start, start + 1) {
            Some(v) => v,
            None => return None,
        };
        let g = match read_field(all, start + 1, start + 2) {
            Some(v) => v,
            None => return None,
        };
        let b = match read_field(all, start + 2, start + 3) {
            Some(v) => v,
            None => return None,
        };
        let a = if n == 4 {
            match read_field(all, start + 3, start + 4) {
                Some(v) => v,
                None => return None,
            }
        } else {
            15
        };
        assert(t.subrange(0, 1) == all@.subrange(start as int, start + 1));
        assert(t.subrange(1, 2) == all@.subrange(start + 1, start + 2));
        assert(t.subrange(2, 3) == all@.subrange(start + 2, start + 3));
        assert(n == 4 ==> t.subrange(3, 4) == all@.subrange(start + 3, start + 4));
        Some(Color { r: r * 17, g: g * 17, b: b * 17, a: a * 17 })
    } else if n == 6 || n == 8 {
        let r = match read_field(all, start, start + 2) {
            Some(v) => v,
            None => return None,
        };
        let g = match read_field(all, start + 2, start + 4) {
            Some(v) => v,
            None => return None,
        };
        let b = match read_field(all, start + 4, start + 6) {
            Some(v) => v,
            None => return None,
        };
        let a = if n == 8 {
            match read_field(all, start + 6, start + 8) {
                Some(v) => v,
                None => return None,
            }
        } else {
            255
        };
        assert(t.subrange(0, 2) == all@.subrange(start as int, start + 2));
        assert(t.subrange(2, 4) == all@.subrange(start + 2, start + 4));
        assert(t.subrange(4, 6) == all@.subrange(start + 4, start + 6));
        assert(n == 8 ==> t.subrange(6, 8) == all@.subrange(start + 6, start + 8));
        Some(Color { r, g, b, a })
    } else {
        None
    }
}

/// A color from its four channels.
pub fn rgba(r: u8, g: u8, b: u8, a: u8) -> (c: Color)
    ensures
        c == (Color { r, g, b, a }),
{
    Color { r, g, b, a }
}

fn push_hex_byte(v: u8, out: &mut Vec<char>)
    ensures
        final(out)@ == old(out)@ + hex_byte(v),
{
    let hi = v / 16;
    let lo = v % 16;
    let ch = if hi < 10 {
        ('0' as u8 + hi) as char
    } else {
        ('A' as u8 + hi - 10) as char
    };
    let cl = if lo < 10 {
        ('0' as u8 + lo) as char
    } else {
        ('A' as u8 + lo - 10) as char
    };
    assert(ch == hex_char(hi as int));
    assert(cl == hex_char(lo as int));
    out.push(ch);
    out.push(cl);
    assert(final(out)@ =~= old(out)@ + hex_byte(v));
}

impl Color {
    pub fn new(r: u8, g: u8, b: u8, a: u8) -> (c: Self)
        ensures
            c == (Color { r, g, b, a }),
    {
        Color { r, g, b, a }
    }

    /// Parse a hex color ("#RGB", "#RGBA", "#RRGGBB", "#RRGGBBAA", the `#` optional).
    pub fn from_hex(hex: &str) -> (r: Option<Self>)
        ensures
            r == hex_color(hex.spec_bytes()),
    {
        parse_hex_color(hex)
    }

    /// Format as "#RRGGBB", or "#RRGGBBAA" when alpha is not 255.
    pub fn to_hex(&self) -> (s: String)
        ensures
            s@ == hex_text(*self),
    {
        let mut out: Vec<char> = Vec::new();
        out.push('#');
        push_hex_byte(self.r, &mut out);
        push_hex_byte(self.g, &mut out);
        push_hex_byte(self.b, &mut out);
        if self.a != 255 {
            push_hex_byte(self.a, &mut out);
        }
        assert(out@ =~= hex_text(*self));
        string_from_chars(&out)
    }
}

proof fn lemma_hex_char_byte(d: int)
    requires
        0 <= d < 16,
    ensures
        hex_digit_byte(hex_char(d) as u8) == Some(d),
        hex_char(d) as u8 != 43,
        '\0' <= hex_char(d) <= '\u{7f}',
{
    if d < 10 {
        assert((((48 + d) as char) as u8) as int == 48 + d);
    } else {
        assert((((65 + d - 10) as char) as u8) as int == 65 + d - 10);
    }
}

proof fn lemma_hex_byte_field(v: u8)
    ensures
        hex_field(seq![hex_byte(v)[0] as u8, hex_byte(v)[1] as u8]) == Some(v),
        '\0' <= hex_byte(v)[0] <= '\u{7f}',
        '\0' <= hex_byte(v)[1] <= '\u{7f}',
{
    lemma_hex_char_byte((v / 16) as int);
    lemma_hex_char_byte((v % 16) as int);
}

/// Field `t[lo..lo + w]` (one or two bytes) reads exactly when each of its
/// bytes is a hexadecimal digit.
proof fn lemma_field_digits(t: Seq<u8>, lo: int, w: int)
    requires
        0 <= lo,
        lo + w <= t.len(),
        w == 1 || w == 2,
    ensures
        hex_field(t.subrange(lo, lo + w)) is Some <==> forall|j: int|
            lo <= j < lo + w ==> #[trigger] hex_digit_byte(t[j]) is Some,
{
    let f = t.subrange(lo, lo + w);
    assert(f[0] == t[lo]);
    if w == 2 {
        assert(f[1] == t[lo + 1]);
        assert(forall|j: int| lo <= j < lo + w ==> #[trigger] t[j] == t[lo] || t[j] == t[lo + 1]);
    }
}

/// A text is read as a color exactly when, after an optional leading `#`,
/// it holds 3, 4, 6 or 8 bytes, each a hexadecimal digit.
pub proof fn lemma_hex_color_accepts_hex_digits_only(s: Seq<u8>)
    ensures
        hex_color(s) is Some <==> ({
            let t = hex_body(s);
            (t.len() == 3 || t.len() == 4 || t.len() == 6 || t.len() == 8) && forall|i: int|
                0 <= i < t.len() ==> #[trigger] hex_digit_byte(t[i]) is Some
        }),
{
    let t = hex_body(s);
    let n = t.len() as int;
    if n == 3 || n == 4 {
        lemma_field_digits(t, 0, 1);
        lemma_field_digits(t, 1, 1);
        lemma_field_digits(t, 2, 1);
        if n == 4 {
            lemma_field_digits(t, 3, 1);
        }
        assert((forall|i: int| 0 <= i < n ==> #[trigger] hex_digit_byte(t[i]) is Some) <==> (
            hex_digit_byte(t[0]) is Some && hex_digit_byte(t[1]) is Some && hex_digit_byte(t[2]) is Some && (n == 4
                ==> hex_digit_byte(t[3]) is Some)));
    } else if n == 6 || n == 8 {
        lemma_field_digits(t, 0, 2);
        lemma_field_digits(t, 2, 2);
        lemma_field_digits(t, 4, 2);
        if n == 8 {
            lemma_field_digits(t, 6, 2);
        }
        assert((forall|i: int| 0 <= i < n ==> #[trigger] hex_digit_byte(t[i]) is Some) <==> (
            (forall|j: int| 0 <= j < 2 ==> #[trigger] hex_digit_byte(t[j]) is Some)
            && (forall|j: int| 2 <= j < 4 ==> #[trigger] hex_digit_byte(t[j]) is Some)
            && (forall|j: int| 4 <= j < 6 ==> #[trigger] hex_digit_byte(t[j]) is Some)
            && (n == 8 ==> forall|j: int| 6 <= j < 8 ==> #[trigger] hex_digit_byte(t[j]) is Some)));
    }
}

/// A color written by `to_hex` reads back as the same color.
pub proof fn lemma_hex_text_roundtrip(c: Color)
    ensures
        hex_color(vstd::utf8::encode_utf8(hex_text(c))) == Some(c),
{
    let t = hex_text(c);
    lemma_hex_byte_field(c.r);
    lemma_hex_byte_field(c.g);
    lemma_hex_byte_field(c.b);
    lemma_hex_byte_field(c.a);
    assert(vstd::utf8::is_ascii_chars(t)) by {
        assert forall|i: int| 0 <= i < t.len() implies '\0' <= #[trigger] t[i] <= '\u{7f}' by {
            if i >= 1 && i < 3 {
                assert(t[i] == hex_byte(c.r)[i - 1]);
            } else if i >= 3 && i < 5 {
                assert(t[i] == hex_byte(c.g)[i - 3]);
            } else if i >= 5 && i < 7 {
                assert(t[i] == hex_byte(c.b)[i - 5]);
            } else if i >= 7 {
                assert(t[i] == hex_byte(c.a)[i - 7]);
            }
        }
    }
    vstd::utf8::is_ascii_chars_encode_utf8(t);
    let e = vstd::utf8::encode_utf8(t);
    let body = hex_body(e);
    assert(e[0] == t[0] as u8);
    assert(body =~= e.drop_first());
    assert(body.subrange(0, 2) =~= seq![hex_byte(c.r)[0] as u8, hex_byte(c.r)[1] as u8]) by {
        assert(e[1] == t[1] as u8);
        assert(e[2] == t[2] as u8);
    }
    assert(body.subrange(2, 4) =~= seq![hex_byte(c.g)[0] as u8, hex_byte(c.g)[1] as u8]) by {
        assert(e[3] == t[3] as u8);
        assert(e[4] == t[4] as u8);
    }
    assert(body.subrange(4, 6) =~= seq![hex_byte(c.b)[0] as u8, hex_byte(c.b)[1] as u8]) by {
        assert(e[5] == t[5] as u8);
        assert(e[6] == t[6] as u8);
    }
    if c.a != 255 {
        assert(body.subrange(6, 8) =~= seq![hex_byte(c.a)[0] as u8, hex_byte(c.a)[1] as u8]) by {
            assert(e[7] == t[7] as u8);
            assert(e[8] == t[8] as u8);
        }
    }
}

} // verus!
