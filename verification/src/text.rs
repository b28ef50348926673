//! Character-level text handling shared by the parsers and formatters of the
//! library: decimal and hexadecimal numerals, zero padding, splitting on a
//! separator, line splitting and whitespace trimming.
use vstd::prelude::*;

verus! {

// ---------------------------------------------------------------------------
// Specifications
// ---------------------------------------------------------------------------

/// Division rounding toward zero, as Rust's `/` does on signed integers.
pub open spec fn trunc_div(a: int, b: int) -> int {
    if a >= 0 {
        a / b
    } else {
        -((-a) / b)
    }
}

/// Remainder taking the sign of the dividend, as Rust's `%` does on signed integers.
pub open spec fn trunc_rem(a: int, b: int) -> int {
    a - b * trunc_div(a, b)
}

pub open spec fn is_digit(c: char) -> bool {
    '0' <= c && c <= '9'
}

pub open spec fn digit_val(c: char) -> int {
    (c as int) - ('0' as int)
}

pub open spec fn all_digits(s: Seq<char>) -> bool {
    forall|i: int| 0 <= i < s.len() ==> #[trigger] is_digit(s[i])
}

/// The value of a string of decimal digits, read left to right.
pub open spec fn dec_value(s: Seq<char>) -> int
    decreases s.len(),
{
    if s.len() == 0 {
        0
    } else {
        dec_value(s.drop_last()) * 10 + digit_val(s.last())
    }
}

/// What Rust's `str::parse` of an unsigned integer reads before its range
/// check: an optional `+`, then one or more decimal digits.
pub open spec fn parse_unsigned(s: Seq<char>) -> Option<int> {
    let d = if s.len() > 0 && s[0] == '+' {
        s.drop_first()
    } else {
        s
    };
    if d.len() > 0 && all_digits(d) {
        Some(dec_value(d))
    } else {
        None
    }
}

/// What Rust's `str::parse` of a signed integer reads before its range
/// check: an optional `+` or `-`, then one or more decimal digits.
pub open spec fn parse_signed(s: Seq<char>) -> Option<int> {
    if s.len() > 0 && s[0] == '-' {
        let d = s.drop_first();
        if d.len() > 0 && all_digits(d) {
            Some(-dec_value(d))
        } else {
            None
        }
    } else {
        parse_unsigned(s)
    }
}

/// `s.parse::<u32>().ok()`
pub open spec fn parse_u32(s: Seq<char>) -> Option<u32> {
    match parse_unsigned(s) {
        Some(v) => if v <= u32::MAX {
            Some(v as u32)
        } else {
            None
        },
        None => None,
    }
}

/// `s.parse::<i32>().ok()`
pub open spec fn parse_i32(s: Seq<char>) -> Option<i32> {
    match parse_signed(s) {
        Some(v) => if i32::MIN <= v <= i32::MAX {
            Some(v as i32)
        } else {
            None
        },
        None => None,
    }
}

pub open spec fn digit_char(d: int) -> char {
    (('0' as int) + d) as char
}

/// Decimal numeral of a natural number, without leading zeros.
pub open spec fn decimal(n: nat) -> Seq<char>
    decreases n,
{
    if n < 10 {
        seq![digit_char(n as int)]
    } else {
        decimal(n / 10).push(digit_char((n % 10) as int))
    }
}

/// `d` preceded by as many `'0'` as it takes to reach width `w`.
pub open spec fn zero_pad(d: Seq<char>, w: nat) -> Seq<char> {
    if d.len() >= w {
        d
    } else {
        Seq::new((w - d.len()) as nat, |i: int| '0') + d
    }
}

/// `format!("{:0w$}", n)`: the sign counts toward the width, zeros go after it.
pub open spec fn fmt_padded(n: int, w: nat) -> Seq<char> {
    if n < 0 {
        seq!['-'] + zero_pad(decimal((-n) as nat), if w >= 1 { (w - 1) as nat } else { 0 })
    } else {
        zero_pad(decimal(n as nat), w)
    }
}

/// `s.split(c)`, each piece as a sequence of characters.
pub open spec fn split_char(s: Seq<char>, c: char) -> Seq<Seq<char>>
    decreases s.len(),
{
    if s.len() == 0 {
        seq![Seq::<char>::empty()]
    } else {
        let rest = split_char(s.drop_last(), c);
        if s.last() == c {
            rest.push(Seq::<char>::empty())
        } else {
            rest.update(rest.len() - 1, rest.last().push(s.last()))
        }
    }
}

/// Position of the first `c` in `s`, if any.
pub open spec fn first_index_of(s: Seq<char>, c: char) -> Option<int>
    decreases s.len(),
{
    if s.len() == 0 {
        None
    } else if s[0] == c {
        Some(0)
    } else {
        match first_index_of(s.drop_first(), c) {
            Some(i) => Some(i + 1),
            None => None,
        }
    }
}

/// Upper-case hexadecimal digit of a value below 16.
pub open spec fn hex_char(d: int) -> char {
    if d < 10 {
        (('0' as int) + d) as char
    } else {
        (('A' as int) + d - 10) as char
    }
}

/// `format!("{:02X}", b)`
pub open spec fn hex_byte(b: u8) -> Seq<char> {
    seq![hex_char((b / 16) as int), hex_char((b % 16) as int)]
}

/// Whitespace as Rust's `char::is_whitespace` defines it (the Unicode
/// `White_Space` property).
pub open spec fn is_white(c: char) -> bool {
    ||| ('\u{9}' <= c && c <= '\u{d}')
    ||| c == ' '
    ||| c == '\u{85}'
    ||| c == '\u{a0}'
    ||| c == '\u{1680}'
    ||| ('\u{2000}' <= c && c <= '\u{200a}')
    ||| c == '\u{2028}'
    ||| c == '\u{2029}'
    ||| c == '\u{202f}'
    ||| c == '\u{205f}'
    ||| c == '\u{3000}'
}

/// Number of leading whitespace characters.
pub open spec fn lead_ws(s: Seq<char>) -> nat
    decreases s.len(),
{
    if s.len() > 0 && is_white(s[0]) {
        1 + lead_ws(s.drop_first())
    } else {
        0
    }
}

/// Number of trailing whitespace characters.
pub open spec fn trail_ws(s: Seq<char>) -> nat
    decreases s.len(),
{
    if s.len() > 0 && is_white(s.last()) {
        1 + trail_ws(s.drop_last())
    } else {
        0
    }
}

/// `s.trim()`
pub open spec fn trim(s: Seq<char>) -> Seq<char> {
    let a = lead_ws(s) as int;
    if a == s.len() {
        Seq::empty()
    } else {
        s.subrange(a, s.len() - trail_ws(s) as int)
    }
}

/// `s.lines()`: the pieces between `'\n'`, each with a `'\r'` before its
/// `'\n'` removed; a last piece with no `'\n'` after it is kept as it is,
/// and there is none when `s` ends with `'\n'`.
pub open spec fn lines(s: Seq<char>) -> Seq<Seq<char>> {
    let pieces = split_char(s, '\n');
    let ended = pieces.drop_last().map_values(|l: Seq<char>| strip_cr(l));
    if s.len() == 0 {
        Seq::<Seq<char>>::empty()
    } else if s.last() == '\n' {
        ended
    } else {
        ended.push(pieces.last())
    }
}

pub open spec fn strip_cr(l: Seq<char>) -> Seq<char> {
    if l.len() > 0 && l.last() == '\r' {
        l.drop_last()
    } else {
        l
    }
}

// ---------------------------------------------------------------------------
// Lemmas
// ---------------------------------------------------------------------------

pub proof fn lemma_decimal_digits(n: nat)
    ensures
        all_digits(decimal(n)),
        decimal(n).len() >= 1,
        decimal(n)[0] != '0' || n == 0,
        dec_value(decimal(n)) == n,
    decreases n,
{
    lemma_digit_char(n % 10);
    if n < 10 {
        assert(decimal(n).drop_last() =~= Seq::<char>::empty());
        assert(n % 10 == n);
        assert(dec_value(Seq::<char>::empty()) == 0);
        assert(dec_value(decimal(n)) == dec_value(Seq::<char>::empty()) * 10 + digit_val(decimal(n).last()));
    } else {
        lemma_decimal_digits(n / 10);
        let d = decimal(n);
        assert(d.drop_last() =~= decimal(n / 10));
        assert(d.last() == digit_char((n % 10) as int));
        assert(dec_value(d) == dec_value(decimal(n / 10)) * 10 + digit_val(d.last()));
        assert forall|i: int| 0 <= i < d.len() implies #[trigger] is_digit(d[i]) by {
            if i < d.len() - 1 {
                assert(d[i] == decimal(n / 10)[i]);
            }
        }
    }
}

pub proof fn lemma_digit_char(k: nat)
    requires
        k < 10,
    ensures
        is_digit(digit_char(k as int)),
        digit_val(digit_char(k as int)) == k,
        digit_char(k as int) != '0' || k == 0,
{
    assert(((48 + k) as char) as int == 48 + k);
}

/// Leading zeros do not change the value of a numeral.
pub proof fn lemma_dec_value_zeros(k: nat, d: Seq<char>)
    ensures
        dec_value(Seq::new(k, |i: int| '0') + d) == dec_value(d) + dec_value(Seq::new(k, |i: int| '0')) * pow10(d.len()),
        dec_value(Seq::new(k, |i: int| '0')) == 0,
    decreases d.len(),
{
    let z = Seq::new(k, |i: int| '0');
    lemma_zeros_value(k);
    if d.len() == 0 {
        assert(z + d =~= z);
    } else {
        lemma_dec_value_zeros(k, d.drop_last());
        assert((z + d).drop_last() =~= z + d.drop_last());
    }
}

pub proof fn lemma_zeros_value(k: nat)
    ensures
        dec_value(Seq::new(k, |i: int| '0')) == 0,
    decreases k,
{
    if k > 0 {
        lemma_zeros_value((k - 1) as nat);
        assert(Seq::new(k, |i: int| '0').drop_last() =~= Seq::new((k - 1) as nat, |i: int| '0'));
    }
}

pub open spec fn pow10(n: nat) -> int
    decreases n,
{
    if n == 0 {
        1
    } else {
        10 * pow10((n - 1) as nat)
    }
}

/// A zero-padded numeral still reads as its value.
pub proof fn lemma_zero_pad_value(n: nat, w: nat)
    ensures
        all_digits(zero_pad(decimal(n), w)),
        dec_value(zero_pad(decimal(n), w)) == n,
        zero_pad(decimal(n), w).len() >= 1,
        zero_pad(decimal(n), w).len() >= w,
{
    lemma_decimal_digits(n);
    let d = decimal(n);
    if d.len() < w {
        let k = (w - d.len()) as nat;
        lemma_dec_value_zeros(k, d);
        let p = Seq::new(k, |i: int| '0') + d;
        assert forall|i: int| 0 <= i < p.len() implies #[trigger] is_digit(p[i]) by {
            if i >= k {
                assert(p[i] == d[i - k]);
            }
        }
    }
}

/// Value of a sequence with one more character.
pub proof fn lemma_dec_value_push(s: Seq<char>, c: char)
    ensures
        dec_value(s.push(c)) == dec_value(s) * 10 + digit_val(c),
{
    assert(s.push(c).drop_last() =~= s);
}

pub proof fn lemma_dec_value_nonneg(s: Seq<char>)
    requires
        all_digits(s),
    ensures
        dec_value(s) >= 0,
    decreases s.len(),
{
    if s.len() > 0 {
        assert(is_digit(s[s.len() - 1]));
        lemma_dec_value_nonneg(s.drop_last());
    }
}

/// Every split has at least one piece.
pub proof fn lemma_split_nonempty(s: Seq<char>, c: char)
    ensures
        split_char(s, c).len() >= 1,
    decreases s.len(),
{
    if s.len() > 0 {
        lemma_split_nonempty(s.drop_last(), c);
    }
}

/// A sequence without the separator splits into itself alone.
pub proof fn lemma_split_no_sep(s: Seq<char>, c: char)
    requires
        forall|i: int| 0 <= i < s.len() ==> s[i] != c,
    ensures
        split_char(s, c) == seq![s],
    decreases s.len(),
{
    if s.len() > 0 {
        lemma_split_no_sep(s.drop_last(), c);
        assert(s.drop_last().push(s.last()) =~= s);
        assert(split_char(s, c) =~= seq![s]);
    } else {
        assert(s =~= Seq::<char>::empty());
    }
}

/// Splitting `a`, separator, `b` gives the pieces of `a` followed by those of `b`.
pub proof fn lemma_split_concat(a: Seq<char>, b: Seq<char>, c: char)
    ensures
        split_char(a + seq![c] + b, c) == split_char(a, c) + split_char(b, c),
    decreases b.len(),
{
    lemma_split_nonempty(a, c);
    lemma_split_nonempty(b, c);
    if b.len() == 0 {
        assert((a + seq![c] + b).drop_last() =~= a);
        assert(split_char(b, c) =~= seq![Seq::<char>::empty()]);
        assert(split_char(a + seq![c] + b, c) =~= split_char(a, c) + split_char(b, c));
    } else {
        let b0 = b.drop_last();
        lemma_split_concat(a, b0, c);
        lemma_split_nonempty(b0, c);
        assert((a + seq![c] + b).drop_last() =~= a + seq![c] + b0);
        assert((a + seq![c] + b).last() == b.last());
        assert(split_char(a + seq![c] + b, c) =~= split_char(a, c) + split_char(b, c));
    }
}

// ---------------------------------------------------------------------------
// Executable helpers
// ---------------------------------------------------------------------------

/// The characters of a string slice.
pub fn chars_of(s: &str) -> (v: Vec<char>)
    ensures
        v@ == s@,
{
    let n = s.unicode_len();
    let mut v: Vec<char> = Vec::new();
    let mut i: usize = 0;
    while i < n
        invariant
            n == s@.len(),
            i <= n,
            v@ == s@.subrange(0, i as int),
        decreases n - i,
    {
        v.push(s.get_char(i));
        i = i + 1;
    }
    v
}

/// Collects characters into a `String` (std's `FromIterator<&char>` for `String`).
#[verifier::external_body]
pub(crate) fn string_from_chars(v: &Vec<char>) -> (s: String)
    ensures
        s@ == v@,
{
    v.iter().collect()
}

/// Reads `v[lo..hi]` as Rust's `str::parse::<u32>` does, returning the
/// value read without its range check (at most `2^32` in any case).
fn read_unsigned(v: &Vec<char>, lo: usize, hi: usize, bound: u64) -> (r: Option<u64>)
    requires
        lo <= hi <= v.len(),
        bound <= 0x1_0000_0000,
    ensures
        match parse_unsigned(v@.subrange(lo as int, hi as int)) {
            Some(x) => x >= 0 && if x <= bound {
                r == Some(x as u64)
            } else {
                r == Some((bound + 1) as u64)
            },
            None => r is None,
        },
{
    let ghost s = v@.subrange(lo as int, hi as int);
    let mut start = lo;
    if lo < hi && v[lo] == '+' {
        start = lo + 1;
    }
    let ghost d = v@.subrange(start as int, hi as int);
    assert(d =~= if s.len() > 0 && s[0] == '+' {
        s.drop_first()
    } else {
        s
    });
    if start == hi {
        return None;
    }
    let mut acc: u64 = 0;
    let mut over = false;
    let mut i = start;
    while i < hi
        invariant
            lo <= start <= i <= hi <= v.len(),
            bound <= 0x1_0000_0000,
            d == v@.subrange(start as int, hi as int),
            s == v@.subrange(lo as int, hi as int),
            d == (if s.len() > 0 && s[0] == '+' {
                s.drop_first()
            } else {
                s
            }),
            all_digits(v@.subrange(start as int, i as int)),
            over ==> dec_value(v@.subrange(start as int, i as int)) > bound,
            !over ==> acc == dec_value(v@.subrange(start as int, i as int)) && acc <= bound,
        decreases hi - i,
    {
        let c = v[i];
        if !('0' <= c && c <= '9') {
            assert(!is_digit(d[i - start]));
            return None;
        }
        let dv = (c as u32 - '0' as u32) as u64;
        proof {
            let p = v@.subrange(start as int, i as int);
            assert(v@.subrange(start as int, i + 1) =~= p.push(c));
            lemma_dec_value_push(p, c);
            lemma_dec_value_nonneg(p);
        }
        if !over {
            if acc * 10 + dv > bound {
                over = true;
            } else {
                acc = acc * 10 + dv;
            }
        }
        i = i + 1;
    }
    assert(v@.subrange(start as int, i as int) =~= d);
    proof { lemma_dec_value_nonneg(d); }
    if over {
        Some(bound + 1)
    } else {
        Some(acc)
    }
}

/// `v[lo..hi]` parsed as Rust's `str::parse::<u32>().ok()` parses it.
pub fn parse_u32_at(v: &Vec<char>, lo: usize, hi: usize) -> (r: Option<u32>)
    requires
        lo <= hi <= v.len(),
    ensures
        r == parse_u32(v@.subrange(lo as int, hi as int)),
{
    match read_unsigned(v, lo, hi, 0xffff_ffff) {
        Some(x) => if x <= 0xffff_ffff {
            Some(x as u32)
        } else {
            None
        },
        None => None,
    }
}

/// `v[lo..hi]` parsed as Rust's `str::parse::<i32>().ok()` parses it.
pub fn parse_i32_at(v: &Vec<char>, lo: usize, hi: usize) -> (r: Option<i32>)
    requires
        lo <= hi <= v.len(),
    ensures
        r == parse_i32(v@.subrange(lo as int, hi as int)),
{
    let ghost s = v@.subrange(lo as int, hi as int);
    if lo < hi && v[lo] == '-' {
        let ghost d = s.drop_first();
        assert(v@.subrange(lo + 1, hi as int) =~= d);
        if lo + 1 == hi || v[lo + 1] == '+' {
            if lo + 1 < hi {
                assert(!is_digit(d[0]));
            }
            return None;
        }
        match read_unsigned(v, lo + 1, hi, 0x8000_0000) {
            Some(x) => {
                if x > 0x8000_0000 {
                    None
                } else if x == 0x8000_0000 {
                    Some(i32::MIN)
                } else {
                    Some(-(x as i32))
                }
            },
            None => None,
        }
    } else {
        match read_unsigned(v, lo, hi, 0x7fff_ffff) {
            Some(x) => if x <= 0x7fff_ffff {
                Some(x as i32)
            } else {
                None
            },
            None => None,
        }
    }
}

/// Appends the decimal numeral of `n`.
pub fn push_decimal(n: u64, out: &mut Vec<char>)
    ensures
        final(out)@ == old(out)@ + decimal(n as nat),
    decreases n,
{
    if n >= 10 {
        push_decimal(n / 10, out);
    }
    let d = (n % 10) as u8;
    let c = ('0' as u8 + d) as char;
    assert(c == digit_char((n % 10) as int));
    out.push(c);
    proof {
        if n < 10 {
            assert(n % 10 == n);
        }
    }
}

/// Appends `n` zero-padded to width `w` (`format!("{:0w$}", n)`).
pub fn push_padded(n: u64, w: usize, out: &mut Vec<char>)
    ensures
        final(out)@ == old(out)@ + zero_pad(decimal(n as nat), w as nat),
{
    let mut digits: Vec<char> = Vec::new();
    push_decimal(n, &mut digits);
    assert(digits@ =~= decimal(n as nat));
    let len = digits.len();
    let mut k: usize = 0;
    let ghost start = out@;
    if len < w {
        while k < w - len
            invariant
                len < w,
                k <= w - len,
                out@ == start + Seq::new(k as nat, |i: int| '0'),
            decreases w - len - k,
        {
            out.push('0');
            k = k + 1;
            assert(Seq::new(k as nat, |i: int| '0') =~= Seq::new((k - 1) as nat, |i: int| '0').push('0'));
        }
    }
    let mut j: usize = 0;
    let ghost mid = out@;
    while j < len
        invariant
            len == digits.len(),
            j <= len,
            out@ == mid + digits@.subrange(0, j as int),
        decreases len - j,
    {
        out.push(digits[j]);
        j = j + 1;
        assert(out@ =~= mid + digits@.subrange(0, j as int));
    }
    assert(digits@.subrange(0, len as int) =~= digits@);
    if len < w {
        assert(out@ =~= old(out)@ + zero_pad(decimal(n as nat), w as nat));
    } else {
        assert(out@ =~= old(out)@ + zero_pad(decimal(n as nat), w as nat));
    }
}

/// Appends the signed `n` zero-padded to width `w` (`format!("{:0w$}", n)`).
pub fn push_padded_signed(n: i32, w: usize, out: &mut Vec<char>)
    requires
        w >= 1,
    ensures
        final(out)@ == old(out)@ + fmt_padded(n as int, w as nat),
{
    if n < 0 {
        out.push('-');
        let m: u64 = if n == i32::MIN {
            0x8000_0000
        } else {
            (-n) as u64
        };
        push_padded(m, w - 1, out);
        assert(out@ =~= old(out)@ + fmt_padded(n as int, w as nat));
    } else {
        push_padded(n as u64, w, out);
    }
}

/// Splits `v` on `c` (`str::split` with a character pattern).
pub fn split_chars(v: &Vec<char>, c: char) -> (r: Vec<Vec<char>>)
    ensures
        r.len() == split_char(v@, c).len(),
        forall|i: int| 0 <= i < r.len() ==> #[trigger] r[i]@ == split_char(v@, c)[i],
{
    let mut parts: Vec<Vec<char>> = Vec::new();
    let mut cur: Vec<char> = Vec::new();
    let mut i: usize = 0;
    assert(v@.subrange(0, 0) =~= Seq::<char>::empty());
    while i < v.len()
        invariant
            i <= v.len(),
            parts.len() + 1 == split_char(v@.subrange(0, i as int), c).len(),
            forall|k: int| 0 <= k < parts.len() ==> #[trigger] parts[k]@ == split_char(v@.subrange(0, i as int), c)[k],
            cur@ == split_char(v@.subrange(0, i as int), c).last(),
        decreases v.len() - i,
    {
        let ch = v[i];
        let ghost pre = v@.subrange(0, i as int);
        assert(v@.subrange(0, i + 1).drop_last() =~= pre);
        if ch == c {
            let done = cur;
            parts.push(done);
            cur = Vec::new();
        } else {
            cur.push(ch);
        }
        i = i + 1;
    }
    assert(v@.subrange(0, v.len() as int) =~= v@);
    parts.push(cur);
    parts
}

/// Lower-case form of a string as Rust's `str::to_lowercase` computes it
/// (full Unicode case mapping).
pub uninterp spec fn lowercase(s: Seq<char>) -> Seq<char>;

/// Lower-cases a string (std's `str::to_lowercase`).
#[verifier::external_body]
pub(crate) fn to_lower(s: &str) -> (r: String)
    ensures
        r@ == lowercase(s@),
{
    s.to_lowercase()
}

/// Appends a character (std's `String::push`).
#[verifier::external_body]
pub(crate) fn string_push(s: &mut String, c: char)
    ensures
        final(s)@ == old(s)@.push(c),
{
    s.push(c)
}

/// The character sequences of a sequence of strings.
pub open spec fn string_views(v: Seq<String>) -> Seq<Seq<char>> {
    v.map_values(|c: String| c@)
}

/// Whether `needle` occurs in `hay`.
pub open spec fn occurs_in(hay: Seq<char>, needle: Seq<char>) -> bool {
    exists|i: int|
        0 <= i <= hay.len() - needle.len() && #[trigger] hay.subrange(i, i + needle.len()) == needle
}

/// Whether `hay` begins with `needle`.
pub open spec fn begins_with(hay: Seq<char>, needle: Seq<char>) -> bool {
    hay.len() >= needle.len() && hay.subrange(0, needle.len() as int) == needle
}

fn matches_at(h: &Vec<char>, n: &Vec<char>, i: usize) -> (r: bool)
    requires
        i + n.len() <= h.len(),
    ensures
        r == (h@.subrange(i as int, i + n.len()) == n@),
{
    let mut j: usize = 0;
    while j < n.len()
        invariant
            i + n.len() <= h.len(),
            j <= n.len(),
            forall|k: int| 0 <= k < j ==> h@[i + k] == n@[k],
        decreases n.len() - j,
    {
        if h[i + j] != n[j] {
            assert(h@.subrange(i as int, i + n.len())[j as int] != n@[j as int]);
            return false;
        }
        j = j + 1;
    }
    assert(h@.subrange(i as int, i + n.len()) =~= n@);
    true
}

/// Whether `hay` begins with `needle` (`str::starts_with`).
pub fn starts_with_seq(hay: &String, needle: &String) -> (r: bool)
    ensures
        r == begins_with(hay@, needle@),
{
    let h = chars_of(hay.as_str());
    let n = chars_of(needle.as_str());
    if n.len() > h.len() {
        return false;
    }
    matches_at(&h, &n, 0)
}

/// Whether `needle` occurs in `hay` (`str::contains`).
pub fn contains_seq(hay: &String, needle: &String) -> (r: bool)
    ensures
        r == occurs_in(hay@, needle@),
{
    let h = chars_of(hay.as_str());
    let n = chars_of(needle.as_str());
    if n.len() > h.len() {
        return false;
    }
    let mut i: usize = 0;
    let last = h.len() - n.len();
    loop
        invariant
            n.len() <= h.len(),
            last == h.len() - n.len(),
            i <= last,
            h@ == hay@,
            n@ == needle@,
            forall|k: int| 0 <= k < i ==> #[trigger] h@.subrange(k, k + n.len()) != n@,
        decreases last - i,
    {
        if matches_at(&h, &n, i) {
            return true;
        }
        if i == last {
            return false;
        }
        i = i + 1;
    }
}

/// Position of the first `c` in `v`.
pub fn find_char(v: &Vec<char>, c: char) -> (r: Option<usize>)
    ensures
        match first_index_of(v@, c) {
            Some(k) => r == Some(k as usize),
            None => r is None,
        },
        r matches Some(k) ==> k < v.len() && v@[k as int] == c && first_index_of(v@, c) == Some(k as int),
        r is None ==> first_index_of(v@, c) is None,
{
    let mut i: usize = 0;
    while i < v.len()
        invariant
            i <= v.len(),
            forall|k: int| 0 <= k < i ==> v@[k] != c,
        decreases v.len() - i,
    {
        if v[i] == c {
            proof { lemma_first_index_at(v@, c, i as int); }
            return Some(i);
        }
        i = i + 1;
    }
    proof { lemma_first_index_none(v@, c); }
    None
}

pub proof fn lemma_first_index_at(s: Seq<char>, c: char, i: int)
    requires
        0 <= i < s.len(),
        s[i] == c,
        forall|k: int| 0 <= k < i ==> s[k] != c,
    ensures
        first_index_of(s, c) == Some(i),
    decreases i,
{
    if i > 0 {
        lemma_first_index_at(s.drop_first(), c, i - 1);
    }
}

pub proof fn lemma_first_index_none(s: Seq<char>, c: char)
    requires
        forall|k: int| 0 <= k < s.len() ==> s[k] != c,
    ensures
        first_index_of(s, c) is None,
    decreases s.len(),
{
    if s.len() > 0 {
        lemma_first_index_none(s.drop_first(), c);
    }
}


/// Whether `c` is whitespace (`char::is_whitespace`).
pub fn is_whitespace_char(c: char) -> (b: bool)
    ensures
        b == is_white(c),
{
    ('\u{9}' <= c && c <= '\u{d}') || c == ' ' || c == '\u{85}' || c == '\u{a0}'
        || c == '\u{1680}' || ('\u{2000}' <= c && c <= '\u{200a}') || c == '\u{2028}'
        || c == '\u{2029}' || c == '\u{202f}' || c == '\u{205f}' || c == '\u{3000}'
}

pub proof fn lemma_lead_ws(s: Seq<char>, i: int)
    requires
        0 <= i <= s.len(),
        forall|j: int| 0 <= j < i ==> is_white(#[trigger] s[j]),
        i == s.len() || !is_white(s[i]),
    ensures
        lead_ws(s) == i,
    decreases i,
{
    if i > 0 {
        let t = s.drop_first();
        assert forall|j: int| 0 <= j < i - 1 implies is_white(#[trigger] t[j]) by {
            assert(t[j] == s[j + 1]);
        }
        assert(is_white(s[0]));
        lemma_lead_ws(t, i - 1);
    }
}

pub proof fn lemma_trail_ws(s: Seq<char>, i: int)
    requires
        0 <= i <= s.len(),
        forall|j: int| s.len() - i <= j < s.len() ==> is_white(#[trigger] s[j]),
        i == s.len() || !is_white(s[s.len() - 1 - i]),
    ensures
        trail_ws(s) == i,
    decreases i,
{
    if i > 0 {
        let t = s.drop_last();
        assert forall|j: int| t.len() - (i - 1) <= j < t.len() implies is_white(#[trigger] t[j]) by {
            assert(t[j] == s[j]);
        }
        assert(is_white(s[s.len() - 1]));
        if i - 1 < t.len() {
            assert(t[t.len() - 1 - (i - 1)] == s[s.len() - 1 - i]);
        }
        lemma_trail_ws(t, i - 1);
    }
}

/// `v[lo..hi]` with leading and trailing whitespace removed (`str::trim`).
pub fn trim_range(v: &Vec<char>, lo: usize, hi: usize) -> (r: Vec<char>)
    requires
        lo <= hi <= v.len(),
    ensures
        r@ == trim(v@.subrange(lo as int, hi as int)),
{
    let ghost s = v@.subrange(lo as int, hi as int);
    let mut a: usize = lo;
    while a < hi && is_whitespace_char(v[a])
        invariant
            lo <= a <= hi <= v.len(),
            s == v@.subrange(lo as int, hi as int),
            forall|j: int| 0 <= j < a - lo ==> is_white(#[trigger] s[j]),
        decreases hi - a,
    {
        a = a + 1;
    }
    proof {
        lemma_lead_ws(s, a - lo);
    }
    let mut out: Vec<char> = Vec::new();
    if a == hi {
        assert(out@ =~= trim(s));
        return out;
    }
    let mut b: usize = hi;
    while b > a && is_whitespace_char(v[b - 1])
        invariant
            lo <= a < hi <= v.len(),
            a <= b <= hi,
            !is_white(v@[a as int]),
            s == v@.subrange(lo as int, hi as int),
            forall|j: int| b - lo <= j < s.len() ==> is_white(#[trigger] s[j]),
        decreases b - a,
    {
        b = b - 1;
    }
    proof {
        assert(s[a - lo] == v@[a as int]);
        lemma_trail_ws(s, (hi - b) as int);
    }
    let mut k: usize = a;
    while k < b
        invariant
            a <= k <= b <= hi <= v.len(),
            out@ == v@.subrange(a as int, k as int),
        decreases b - k,
    {
        out.push(v[k]);
        k = k + 1;
    }
    assert(out@ =~= trim(s));
    out
}

/// Lines of `v` as `str::lines` gives them.
pub fn lines_of(v: &Vec<char>) -> (r: Vec<Vec<char>>)
    ensures
        r.len() == lines(v@).len(),
        forall|i: int| 0 <= i < r.len() ==> #[trigger] r[i]@ == lines(v@)[i],
{
    let pieces = split_chars(v, '\n');
    let ghost ps = split_char(v@, '\n');
    proof {
        lemma_split_nonempty(v@, '\n');
    }
    let n: usize = if v.len() == 0 {
        0
    } else {
        pieces.len()
    };
    let ended = v.len() > 0 && v[v.len() - 1] == '\n';
    let mut out: Vec<Vec<char>> = Vec::new();
    let mut i: usize = 0;
    while i < n
        invariant
            n <= pieces.len(),
            n == 0 <==> v.len() == 0,
            n > 0 ==> n == pieces.len(),
            pieces.len() == ps.len(),
            ps.len() >= 1,
            ps == split_char(v@, '\n'),
            ended == (v.len() > 0 && v@.last() == '\n'),
            forall|k: int| 0 <= k < pieces.len() ==> #[trigger] pieces[k]@ == ps[k],
            i <= n,
            out.len() == if ended && i == n { (i - 1) as int } else { i as int },
            forall|k: int| 0 <= k < out.len() ==> #[trigger] out[k]@ == lines(v@)[k],
            i < n ==> out.len() == i,
        decreases n - i,
    {
        let p = &pieces[i];
        if i + 1 < n {
            let mut l: Vec<char> = Vec::new();
            let m: usize = if p.len() > 0 && p[p.len() - 1] == '\r' { p.len() - 1 } else { p.len() };
            let mut j: usize = 0;
            while j < m
                invariant
                    m <= p.len(),
                    j <= m,
                    l@ == p@.subrange(0, j as int),
                decreases m - j,
            {
                l.push(p[j]);
                j = j + 1;
            }
            assert(l@ =~= strip_cr(p@));
            proof {
                let e = ps.drop_last().map_values(|x: Seq<char>| strip_cr(x));
                assert(e[i as int] == strip_cr(ps[i as int]));
                assert(lines(v@)[i as int] == e[i as int]);
            }
            out.push(l);
        } else if !ended {
            let mut l: Vec<char> = Vec::new();
            let mut j: usize = 0;
            while j < p.len()
                invariant
                    j <= p.len(),
                    l@ == p@.subrange(0, j as int),
                decreases p.len() - j,
            {
                l.push(p[j]);
                j = j + 1;
            }
            assert(l@ =~= p@);
            proof {
                let e = ps.drop_last().map_values(|x: Seq<char>| strip_cr(x));
                assert(lines(v@) =~= e.push(ps.last()));
                assert(lines(v@)[i as int] == ps[i as int]);
            }
            out.push(l);
        }
        i = i + 1;
    }
    proof {
        if v.len() == 0 {
            assert(lines(v@).len() == 0);
        }
    }
    out
}

/// The rest of `v[lo..hi]` after `prefix`, when it begins with `prefix`
/// (`str::strip_prefix`).
pub fn strip_prefix_range(v: &Vec<char>, lo: usize, hi: usize, prefix: &str) -> (r: Option<usize>)
    requires
        lo <= hi <= v.len(),
    ensures
        match r {
            Some(k) => begins_with(v@.subrange(lo as int, hi as int), prefix@) && k == lo
                + prefix@.len(),
            None => !begins_with(v@.subrange(lo as int, hi as int), prefix@),
        },
{
    let p = chars_of(prefix);
    if p.len() > hi - lo {
        return None;
    }
    let mut j: usize = 0;
    while j < p.len()
        invariant
            lo + p.len() <= hi <= v.len(),
            p@ == prefix@,
            j <= p.len(),
            forall|k: int| 0 <= k < j ==> v@[lo + k] == p@[k],
        decreases p.len() - j,
    {
        if v[lo + j] != p[j] {
            assert(v@.subrange(lo as int, hi as int).subrange(0, p.len() as int)[j as int] != p@[j as int]);
            return None;
        }
        j = j + 1;
    }
    assert(v@.subrange(lo as int, hi as int).subrange(0, p.len() as int) =~= p@);
    Some(lo + p.len())
}

/// Appends the characters of a string slice.
pub fn push_str(out: &mut Vec<char>, s: &str)
    ensures
        final(out)@ == old(out)@ + s@,
{
    let v = chars_of(s);
    let mut i: usize = 0;
    let ghost start = out@;
    while i < v.len()
        invariant
            i <= v.len(),
            out@ == start + v@.subrange(0, i as int),
        decreases v.len() - i,
    {
        out.push(v[i]);
        i = i + 1;
        assert(out@ =~= start + v@.subrange(0, i as int));
    }
    assert(v@.subrange(0, v.len() as int) =~= v@);
}

} // verus!
