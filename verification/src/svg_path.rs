//! Reading the `d` attribute of an SVG path: its commands and their
//! numbers.
//!
//! Supported are M/m, L/l, H/h, V/v, C/c, Q/q and Z/z (upper case absolute,
//! lower case relative). Numbers are separated by spaces, tabs, line breaks
//! or commas; a number without a command letter repeats the last command,
//! and the coordinate pairs after a move are lines. Each number is handed
//! on as its text, which reads as an `f32`; turning it into coordinates is
//! the drawing side's work. Other command letters are skipped.
use vstd::prelude::*;
use crate::text::{chars_of, is_digit, string_from_chars, string_views};

verus! {

/// The drawing operation of a path segment.
#[derive(Debug, Clone, Copy, PartialEq, Eq, Structural)]
pub enum PathOp {
    /// Start a new subpath at (x, y).
    MoveTo,
    /// A line to (x, y).
    LineTo,
    /// A horizontal line to x.
    HorizontalTo,
    /// A vertical line to y.
    VerticalTo,
    /// A cubic Bézier curve: two control points, then the end point.
    CubicTo,
    /// A quadratic Bézier curve: one control point, then the end point.
    QuadTo,
    /// Close the subpath.
    Close,
}

/// One segment of a path: its operation, whether its numbers are relative
/// to the current point, and the text of its numbers.
#[derive(Debug, Clone)]
pub struct PathSeg {
    pub op: PathOp,
    pub relative: bool,
    pub args: Vec<String>,
}

/// A segment as values: operation, relative flag, number texts.
pub open spec fn seg_view(g: PathSeg) -> (PathOp, bool, Seq<Seq<char>>) {
    (g.op, g.relative, string_views(g.args@))
}

pub open spec fn is_sep(c: char) -> bool {
    c == ' ' || c == ',' || c == '\t' || c == '\n' || c == '\r'
}

pub open spec fn is_sign(c: char) -> bool {
    c == '-' || c == '+'
}

pub open spec fn is_exp(c: char) -> bool {
    c == 'e' || c == 'E'
}

pub open spec fn is_ascii_letter(c: char) -> bool {
    ('a' <= c <= 'z') || ('A' <= c <= 'Z')
}

/// A character with which a number can start.
pub open spec fn starts_number(c: char) -> bool {
    is_digit(c) || is_sign(c) || c == '.'
}

/// The position after the separators from `i` on.
pub open spec fn skip_sep(s: Seq<char>, i: int) -> int
    decreases s.len() - i,
{
    if 0 <= i < s.len() && is_sep(s[i]) {
        skip_sep(s, i + 1)
    } else {
        i
    }
}

/// The end of a number's digits, point and exponent from `i` on: digits,
/// one point before any exponent, and one `e` or `E` with an optional
/// sign right after it.
pub open spec fn numeral_end(s: Seq<char>, i: int, has_dot: bool, has_e: bool) -> int
    decreases s.len() - i,
{
    if i < 0 || i >= s.len() {
        i
    } else if is_digit(s[i]) {
        numeral_end(s, i + 1, has_dot, has_e)
    } else if s[i] == '.' && !has_dot && !has_e {
        numeral_end(s, i + 1, true, has_e)
    } else if is_exp(s[i]) && !has_e {
        if i + 1 < s.len() && is_sign(s[i + 1]) {
            numeral_end(s, i + 2, has_dot, true)
        } else {
            numeral_end(s, i + 1, has_dot, true)
        }
    } else {
        i
    }
}

/// Where the text of the number read from `i` starts (after separators)
/// and ends: an optional sign, then the numeral.
pub open spec fn number_span(s: Seq<char>, i: int) -> (int, int) {
    let a = skip_sep(s, i);
    let b = if 0 <= a < s.len() && is_sign(s[a]) {
        a + 1
    } else {
        a
    };
    (a, numeral_end(s, b, false, false))
}

/// The text without its leading sign, if it has one.
pub open spec fn unsigned_part(t: Seq<char>) -> Seq<char> {
    if t.len() > 0 && is_sign(t[0]) {
        t.drop_first()
    } else {
        t
    }
}

/// Digits with at most one point among them, and at least one digit.
pub open spec fn mantissa_text(m: Seq<char>) -> bool {
    &&& forall|k: int| 0 <= k < m.len() ==> is_digit(#[trigger] m[k]) || m[k] == '.'
    &&& forall|j: int, k: int| 0 <= j < m.len() && 0 <= k < m.len() && #[trigger] m[j] == '.' && #[trigger] m[k] == '.' ==> j == k
    &&& exists|k: int| 0 <= k < m.len() && is_digit(#[trigger] m[k])
}

/// An optional sign and at least one digit.
pub open spec fn exponent_text(x: Seq<char>) -> bool {
    let u = unsigned_part(x);
    u.len() > 0 && forall|k: int| 0 <= k < u.len() ==> is_digit(#[trigger] u[k])
}

/// The position of the first `e` or `E` from `i` on, or the length.
pub open spec fn first_exp(u: Seq<char>, i: int) -> int
    decreases u.len() - i,
{
    if i < 0 || i >= u.len() {
        u.len() as int
    } else if is_exp(u[i]) {
        i
    } else {
        first_exp(u, i + 1)
    }
}

/// Text that reads as a float: an optional sign, a mantissa of digits with
/// at most one point, and optionally `e` or `E` with a signed integer
/// exponent (the decimal grammar of `f32::from_str`).
pub open spec fn float_text(t: Seq<char>) -> bool {
    let u = unsigned_part(t);
    let k = first_exp(u, 0);
    mantissa_text(u.take(k)) && (k == u.len() || exponent_text(u.skip(k + 1)))
}

/// Read one number from `i`: its text if it reads as a float, and the
/// position after it. Separators and the number's characters are used up
/// either way.
pub open spec fn read_number(s: Seq<char>, i: int) -> (Option<Seq<char>>, int) {
    let (a, e) = number_span(s, i);
    let t = s.subrange(a, e);
    if float_text(t) {
        (Some(t), e)
    } else {
        (None, e)
    }
}

/// Read `k` numbers one after the other from `i`: all their texts if each
/// reads as a float, and the position after the last.
pub open spec fn read_numbers(s: Seq<char>, i: int, k: nat) -> (Option<Seq<Seq<char>>>, int)
    decreases k,
{
    if k == 0 {
        (Some(Seq::empty()), i)
    } else {
        let (x, p) = read_number(s, i);
        let (rest, q) = read_numbers(s, p, (k - 1) as nat);
        (
            match (x, rest) {
                (Some(v), Some(r)) => Some(seq![v] + r),
                _ => None,
            },
            q,
        )
    }
}

/// Segments of operation `op` made of groups of `k` numbers, as long as
/// the next character after separators can start a number; a group with a
/// number that does not read is dropped.
pub open spec fn repeated(s: Seq<char>, i: int, k: nat, op: PathOp, rel: bool) -> (Seq<(PathOp, bool, Seq<Seq<char>>)>, int)
    decreases s.len() - i,
{
    let a = skip_sep(s, i);
    if 0 <= a < s.len() && starts_number(s[a]) {
        let (vals, j) = read_numbers(s, a, k);
        if i < j <= s.len() {
            let (rest, e) = repeated(s, j, k, op, rel);
            (
                match vals {
                    Some(v) => seq![(op, rel, v)] + rest,
                    None => rest,
                },
                e,
            )
        } else {
            (Seq::empty(), a)
        }
    } else {
        (Seq::empty(), a)
    }
}

/// The segment of a single-number command (H, V), if its number reads.
pub open spec fn single(s: Seq<char>, b: int, op: PathOp, rel: bool) -> (Seq<(PathOp, bool, Seq<Seq<char>>)>, int) {
    let (x, p) = read_number(s, b);
    (
        match x {
            Some(v) => seq![(op, rel, seq![v])],
            None => Seq::empty(),
        },
        p,
    )
}

/// The segments of command `cmd` whose numbers start at `b`, and the
/// position after them.
pub open spec fn command(s: Seq<char>, b: int, cmd: char) -> (Seq<(PathOp, bool, Seq<Seq<char>>)>, int) {
    let rel = 'a' <= cmd <= 'z';
    if cmd == 'M' || cmd == 'm' {
        let (v, p) = read_numbers(s, b, 2);
        match v {
            Some(xy) => {
                let (rest, e) = repeated(s, p, 2, PathOp::LineTo, rel);
                (seq![(PathOp::MoveTo, rel, xy)] + rest, e)
            },
            None => (Seq::empty(), p),
        }
    } else if cmd == 'L' || cmd == 'l' {
        repeated(s, b, 2, PathOp::LineTo, rel)
    } else if cmd == 'H' || cmd == 'h' {
        single(s, b, PathOp::HorizontalTo, rel)
    } else if cmd == 'V' || cmd == 'v' {
        single(s, b, PathOp::VerticalTo, rel)
    } else if cmd == 'C' || cmd == 'c' {
        repeated(s, b, 6, PathOp::CubicTo, rel)
    } else if cmd == 'Q' || cmd == 'q' {
        repeated(s, b, 4, PathOp::QuadTo, rel)
    } else if cmd == 'Z' || cmd == 'z' {
        (seq![(PathOp::Close, false, Seq::empty())], b)
    } else {
        (Seq::empty(), b)
    }
}

/// The segments of the path text from `i` on, after `acc`, with `last` the
/// command last seen; `None` when reading gets stuck: a character that is
/// neither a separator nor a command letter where the last command takes
/// no number from it, so that the reader comes back to the same place with
/// the same command, for ever.
pub open spec fn run(s: Seq<char>, i: int, last: char, acc: Seq<(PathOp, bool, Seq<Seq<char>>)>) -> Option<Seq<(PathOp, bool, Seq<Seq<char>>)>>
    decreases s.len() - i,
{
    let a = skip_sep(s, i);
    if !(0 <= a < s.len()) {
        Some(acc)
    } else {
        let c = s[a];
        let cmd = if is_ascii_letter(c) {
            c
        } else {
            last
        };
        let b = if is_ascii_letter(c) {
            a + 1
        } else {
            a
        };
        let (segs, e) = command(s, b, cmd);
        if i < e <= s.len() {
            run(s, e, cmd, acc + segs)
        } else {
            None
        }
    }
}

/// The segments of a path text; `None` when reading it never ends.
pub open spec fn path_segments(d: Seq<char>) -> Option<Seq<(PathOp, bool, Seq<Seq<char>>)>> {
    run(d, 0, ' ', Seq::empty())
}

/// Some segment adds a point to the path (every one but a close does).
pub open spec fn has_point(segs: Seq<(PathOp, bool, Seq<Seq<char>>)>) -> bool {
    exists|k: int| 0 <= k < segs.len() && (#[trigger] segs[k]).0 != PathOp::Close
}

// ---------------------------------------------------------------------------
// Facts about positions
// ---------------------------------------------------------------------------

proof fn lemma_skip_sep_bounds(s: Seq<char>, i: int)
    requires
        0 <= i <= s.len(),
    ensures
        i <= skip_sep(s, i) <= s.len(),
        skip_sep(s, i) < s.len() ==> !is_sep(s[skip_sep(s, i)]),
    decreases s.len() - i,
{
    if i < s.len() && is_sep(s[i]) {
        lemma_skip_sep_bounds(s, i + 1);
    }
}

proof fn lemma_numeral_end_bounds(s: Seq<char>, i: int, has_dot: bool, has_e: bool)
    requires
        0 <= i <= s.len(),
    ensures
        i <= numeral_end(s, i, has_dot, has_e) <= s.len(),
    decreases s.len() - i,
{
    if i < s.len() {
        if is_digit(s[i]) {
            lemma_numeral_end_bounds(s, i + 1, has_dot, has_e);
        } else if s[i] == '.' && !has_dot && !has_e {
            lemma_numeral_end_bounds(s, i + 1, true, has_e);
        } else if is_exp(s[i]) && !has_e {
            if i + 1 < s.len() && is_sign(s[i + 1]) {
                lemma_numeral_end_bounds(s, i + 2, has_dot, true);
            } else {
                lemma_numeral_end_bounds(s, i + 1, has_dot, true);
            }
        }
    }
}

proof fn lemma_read_number_bounds(s: Seq<char>, i: int)
    requires
        0 <= i <= s.len(),
    ensures
        i <= number_span(s, i).0 <= number_span(s, i).1 <= s.len(),
        read_number(s, i).1 == number_span(s, i).1,
        number_span(s, i).0 == skip_sep(s, i),
        ({
            let a = skip_sep(s, i);
            a < s.len() && starts_number(s[a]) ==> read_number(s, i).1 > a
        }),
{
    lemma_skip_sep_bounds(s, i);
    let a = skip_sep(s, i);
    if 0 <= a < s.len() && is_sign(s[a]) {
        lemma_numeral_end_bounds(s, a + 1, false, false);
    } else {
        lemma_numeral_end_bounds(s, a, false, false);
        if a < s.len() && is_digit(s[a]) {
            lemma_numeral_end_bounds(s, a + 1, false, false);
        } else if a < s.len() && s[a] == '.' {
            lemma_numeral_end_bounds(s, a + 1, true, false);
        }
    }
}

proof fn lemma_read_numbers_bounds(s: Seq<char>, i: int, k: nat)
    requires
        0 <= i <= s.len(),
    ensures
        i <= read_numbers(s, i, k).1 <= s.len(),
        k > 0 && skip_sep(s, i) < s.len() && starts_number(s[skip_sep(s, i)]) ==> read_numbers(s, i, k).1
            > skip_sep(s, i),
        k > 0 ==> read_numbers(s, i, k).1 >= read_number(s, i).1,
    decreases k,
{
    if k > 0 {
        lemma_read_number_bounds(s, i);
        let p = read_number(s, i).1;
        lemma_read_numbers_bounds(s, p, (k - 1) as nat);
    }
}

proof fn lemma_repeated_bounds(s: Seq<char>, i: int, k: nat, op: PathOp, rel: bool)
    requires
        0 <= i <= s.len(),
    ensures
        i <= repeated(s, i, k, op, rel).1 <= s.len(),
    decreases s.len() - i,
{
    lemma_skip_sep_bounds(s, i);
    let a = skip_sep(s, i);
    if 0 <= a < s.len() && starts_number(s[a]) {
        let j = read_numbers(s, a, k).1;
        if i < j <= s.len() {
            lemma_repeated_bounds(s, j, k, op, rel);
        }
    }
}

proof fn lemma_command_bounds(s: Seq<char>, b: int, cmd: char)
    requires
        0 <= b <= s.len(),
    ensures
        b <= command(s, b, cmd).1 <= s.len(),
{
    if cmd == 'M' || cmd == 'm' {
        lemma_read_numbers_bounds(s, b, 2);
        let p = read_numbers(s, b, 2).1;
        lemma_repeated_bounds(s, p, 2, PathOp::LineTo, 'a' <= cmd <= 'z');
    } else if cmd == 'L' || cmd == 'l' {
        lemma_repeated_bounds(s, b, 2, PathOp::LineTo, 'a' <= cmd <= 'z');
    } else if cmd == 'H' || cmd == 'h' || cmd == 'V' || cmd == 'v' {
        lemma_read_number_bounds(s, b);
    } else if cmd == 'C' || cmd == 'c' {
        lemma_repeated_bounds(s, b, 6, PathOp::CubicTo, 'a' <= cmd <= 'z');
    } else if cmd == 'Q' || cmd == 'q' {
        lemma_repeated_bounds(s, b, 4, PathOp::QuadTo, 'a' <= cmd <= 'z');
    }
}

// ---------------------------------------------------------------------------
// Reading
// ---------------------------------------------------------------------------

/// The segments as values.
pub open spec fn segs_view(v: Seq<PathSeg>) -> Seq<(PathOp, bool, Seq<Seq<char>>)> {
    v.map_values(|g: PathSeg| seg_view(g))
}

fn is_sep_char(c: char) -> (r: bool)
    ensures
        r == is_sep(c),
{
    c == ' ' || c == ',' || c == '\t' || c == '\n' || c == '\r'
}

fn is_digit_char(c: char) -> (r: bool)
    ensures
        r == is_digit(c),
{
    '0' <= c && c <= '9'
}

fn is_sign_char(c: char) -> (r: bool)
    ensures
        r == is_sign(c),
{
    c == '-' || c == '+'
}

fn copy_range(s: &Vec<char>, lo: usize, hi: usize) -> (r: Vec<char>)
    requires
        lo <= hi <= s.len(),
    ensures
        r@ == s@.subrange(lo as int, hi as int),
{
    let mut r: Vec<char> = Vec::new();
    let mut j: usize = lo;
    while j < hi
        invariant
            lo <= j <= hi <= s.len(),
            r@ == s@.subrange(lo as int, j as int),
        decreases hi - j,
    {
        r.push(s[j]);
        j = j + 1;
        assert(r@ =~= s@.subrange(lo as int, j as int));
    }
    r
}

fn skip_sep_exec(s: &Vec<char>, i: usize) -> (r: usize)
    requires
        i <= s.len(),
    ensures
        r == skip_sep(s@, i as int),
        i <= r <= s.len(),
{
    let mut j: usize = i;
    while j < s.len() && is_sep_char(s[j])
        invariant
            i <= j <= s.len(),
            skip_sep(s@, i as int) == skip_sep(s@, j as int),
        decreases s.len() - j,
    {
        j = j + 1;
    }
    j
}

fn numeral_end_exec(s: &Vec<char>, i: usize) -> (r: usize)
    requires
        i <= s.len(),
    ensures
        r == numeral_end(s@, i as int, false, false),
        i <= r <= s.len(),
{
    let mut j: usize = i;
    let mut has_dot = false;
    let mut has_e = false;
    while j < s.len()
        invariant
            i <= j <= s.len(),
            numeral_end(s@, i as int, false, false) == numeral_end(s@, j as int, has_dot, has_e),
        decreases s.len() - j,
    {
        let c = s[j];
        if is_digit_char(c) {
            j = j + 1;
        } else if c == '.' && !has_dot && !has_e {
            has_dot = true;
            j = j + 1;
        } else if (c == 'e' || c == 'E') && !has_e {
            has_e = true;
            if j + 1 < s.len() && is_sign_char(s[j + 1]) {
                j = j + 2;
            } else {
                j = j + 1;
            }
        } else {
            return j;
        }
    }
    j
}

proof fn lemma_first_exp_bounds(u: Seq<char>, i: int)
    requires
        0 <= i <= u.len(),
    ensures
        i <= first_exp(u, i) <= u.len(),
        forall|m: int| i <= m < first_exp(u, i) ==> !is_exp(#[trigger] u[m]),
        first_exp(u, i) < u.len() ==> is_exp(u[first_exp(u, i)]),
    decreases u.len() - i,
{
    if i < u.len() && !is_exp(u[i]) {
        lemma_first_exp_bounds(u, i + 1);
    }
}

/// Whether `m` is a mantissa: digits with at most one point, and a digit.
fn mantissa_ok(m: &Vec<char>, n: usize) -> (r: bool)
    requires
        n <= m.len(),
    ensures
        r == mantissa_text(m@.take(n as int)),
{
    let ghost t = m@.take(n as int);
    let mut seen_dot = false;
    let ghost mut dot_at: int = 0;
    let mut seen_digit = false;
    let mut j: usize = 0;
    while j < n
        invariant
            j <= n <= m.len(),
            t == m@.take(n as int),
            forall|k: int| 0 <= k < j ==> is_digit(#[trigger] t[k]) || t[k] == '.',
            seen_dot ==> 0 <= dot_at < j && t[dot_at] == '.',
            forall|k: int| 0 <= k < j && t[k] == '.' ==> seen_dot && k == dot_at,
            seen_digit == exists|k: int| 0 <= k < j && is_digit(#[trigger] t[k]),
        decreases n - j,
    {
        let c = m[j];
        assert(t[j as int] == c);
        if is_digit_char(c) {
            seen_digit = true;
        } else if c == '.' {
            if seen_dot {
                assert(t[dot_at] == '.' && t[j as int] == '.' && dot_at != j);
                return false;
            }
            seen_dot = true;
            proof {
                dot_at = j as int;
            }
        } else {
            assert(!(is_digit(t[j as int]) || t[j as int] == '.'));
            return false;
        }
        j = j + 1;
    }
    seen_digit
}

/// Whether `t` reads as a float.
fn float_text_exec(t: &Vec<char>) -> (r: bool)
    ensures
        r == float_text(t@),
{
    let start: usize = if t.len() > 0 && is_sign_char(t[0]) {
        1
    } else {
        0
    };
    let u = copy_range(t, start, t.len());
    assert(u@ =~= unsigned_part(t@));
    let mut k: usize = 0;
    while k < u.len() && !(u[k] == 'e' || u[k] == 'E')
        invariant
            k <= u.len(),
            first_exp(u@, 0) == first_exp(u@, k as int),
        decreases u.len() - k,
    {
        k = k + 1;
    }
    if !mantissa_ok(&u, k) {
        return false;
    }
    if k == u.len() {
        return true;
    }
    assert(first_exp(u@, k as int) == k);
    let x = copy_range(&u, k + 1, u.len());
    assert(x@ =~= u@.skip(k + 1));
    let xs: usize = if x.len() > 0 && is_sign_char(x[0]) {
        1
    } else {
        0
    };
    let ghost w = unsigned_part(x@);
    assert(w =~= x@.subrange(xs as int, x.len() as int));
    if xs == x.len() {
        return false;
    }
    let mut j: usize = xs;
    while j < x.len()
        invariant
            xs <= j <= x.len(),
            w =~= x@.subrange(xs as int, x.len() as int),
            w == unsigned_part(x@),
            x@ == u@.skip(k + 1),
            u@ == unsigned_part(t@),
            k < u.len(),
            first_exp(u@, 0) == k,
            mantissa_text(u@.take(k as int)),
            forall|m: int| 0 <= m < j - xs ==> is_digit(#[trigger] w[m]),
        decreases x.len() - j,
    {
        if !is_digit_char(x[j]) {
            assert(w[j - xs] == x@[j as int]);
            assert(!is_digit(w[j - xs]));
            assert(0 <= j - xs < w.len());
            assert(!exponent_text(x@));
            return false;
        }
        j = j + 1;
    }
    true
}

/// Read one number from `i`.
fn read_number_exec(s: &Vec<char>, i: usize) -> (r: (Option<String>, usize))
    requires
        i <= s.len(),
    ensures
        r.1 == read_number(s@, i as int).1,
        match r.0 {
            Some(t) => read_number(s@, i as int).0 == Some(t@),
            None => read_number(s@, i as int).0 is None,
        },
{
    proof {
        lemma_read_number_bounds(s@, i as int);
    }
    let a = skip_sep_exec(s, i);
    let b = if a < s.len() && is_sign_char(s[a]) {
        a + 1
    } else {
        a
    };
    let e = numeral_end_exec(s, b);
    let t = copy_range(s, a, e);
    if float_text_exec(&t) {
        (Some(string_from_chars(&t)), e)
    } else {
        (None, e)
    }
}

/// Read `k` numbers one after the other from `i`.
fn read_numbers_exec(s: &Vec<char>, i: usize, k: usize) -> (r: (Option<Vec<String>>, usize))
    requires
        i <= s.len(),
    ensures
        r.1 == read_numbers(s@, i as int, k as nat).1,
        match r.0 {
            Some(v) => read_numbers(s@, i as int, k as nat).0 == Some(string_views(v@)),
            None => read_numbers(s@, i as int, k as nat).0 is None,
        },
{
    let mut vals: Vec<String> = Vec::new();
    let mut ok = true;
    let mut p: usize = i;
    let mut m: usize = 0;
    proof {
        assert(string_views(vals@) =~= Seq::<Seq<char>>::empty());
    }
    while m < k
        invariant
            m <= k,
            p <= s.len(),
            read_numbers(s@, i as int, k as nat).1 == read_numbers(s@, p as int, (k - m) as nat).1,
            read_numbers(s@, i as int, k as nat).0 == (if ok {
                match read_numbers(s@, p as int, (k - m) as nat).0 {
                    Some(rest) => Some(string_views(vals@) + rest),
                    None => None,
                }
            } else {
                None
            }),
        decreases k - m,
    {
        proof {
            lemma_read_number_bounds(s@, p as int);
        }
        let ghost old_vals = vals@;
        let (x, q) = read_number_exec(s, p);
        match x {
            Some(t) => {
                vals.push(t);
                proof {
                    assert(string_views(vals@) =~= string_views(old_vals).push(t@));
                    let rest = read_numbers(s@, q as int, (k - m - 1) as nat).0;
                    if let Some(r) = rest {
                        assert(string_views(vals@) + r =~= string_views(old_vals) + (seq![t@] + r));
                    }
                }
            },
            None => {
                ok = false;
            },
        }
        p = q;
        m = m + 1;
    }
    if ok {
        assert(string_views(vals@) + Seq::<Seq<char>>::empty() =~= string_views(vals@));
        (Some(vals), p)
    } else {
        (None, p)
    }
}

fn make_seg(op: PathOp, relative: bool, args: Vec<String>) -> (g: PathSeg)
    ensures
        seg_view(g) == (op, relative, string_views(args@)),
{
    PathSeg { op, relative, args }
}

proof fn lemma_segs_view_push(v: Seq<PathSeg>, g: PathSeg)
    ensures
        segs_view(v.push(g)) == segs_view(v).push(seg_view(g)),
{
    assert(segs_view(v.push(g)) =~= segs_view(v).push(seg_view(g)));
}

/// Append the segments of groups of `k` numbers from `i` on; returns the
/// position after them.
fn repeated_exec(s: &Vec<char>, i: usize, k: usize, op: PathOp, rel: bool, out: &mut Vec<PathSeg>) -> (r: usize)
    requires
        i <= s.len(),
        k > 0,
    ensures
        r == repeated(s@, i as int, k as nat, op, rel).1,
        segs_view(final(out)@) == segs_view(old(out)@) + repeated(s@, i as int, k as nat, op, rel).0,
{
    let mut j: usize = i;
    proof {
        assert(segs_view(out@) + repeated(s@, j as int, k as nat, op, rel).0 =~= segs_view(old(out)@)
            + repeated(s@, i as int, k as nat, op, rel).0);
    }
    loop
        invariant
            i <= j <= s.len(),
            k > 0,
            repeated(s@, j as int, k as nat, op, rel).1 == repeated(s@, i as int, k as nat, op, rel).1,
            segs_view(out@) + repeated(s@, j as int, k as nat, op, rel).0 == segs_view(old(out)@)
                + repeated(s@, i as int, k as nat, op, rel).0,
        decreases s.len() - j,
    {
        let a = skip_sep_exec(s, j);
        if !(a < s.len() && (is_digit_char(s[a]) || is_sign_char(s[a]) || s[a] == '.')) {
            assert(segs_view(out@) + repeated(s@, j as int, k as nat, op, rel).0 =~= segs_view(out@));
            return a;
        }
        proof {
            lemma_skip_sep_bounds(s@, j as int);
            assert(skip_sep(s@, a as int) == a);
            lemma_read_numbers_bounds(s@, a as int, k as nat);
        }
        let ghost before = segs_view(out@);
        let (vals, q) = read_numbers_exec(s, a, k);
        let ghost rest = repeated(s@, q as int, k as nat, op, rel);
        match vals {
            Some(v) => {
                let g = make_seg(op, rel, v);
                let ghost gv = seg_view(g);
                out.push(g);
                proof {
                    lemma_segs_view_push(old(out)@, g);
                    lemma_segs_view_push(out@.drop_last(), g);
                    assert(out@.drop_last().push(g) == out@);
                    assert(segs_view(out@) + rest.0 =~= before + (seq![gv] + rest.0));
                }
            },
            None => {},
        }
        j = q;
    }
}

/// Append the segments of command `cmd` with numbers from `b` on; returns
/// the position after them.
fn command_exec(s: &Vec<char>, b: usize, cmd: char, out: &mut Vec<PathSeg>) -> (r: usize)
    requires
        b <= s.len(),
    ensures
        r == command(s@, b as int, cmd).1,
        segs_view(final(out)@) == segs_view(old(out)@) + command(s@, b as int, cmd).0,
{
    let rel = 'a' <= cmd && cmd <= 'z';
    if cmd == 'M' || cmd == 'm' {
        proof {
            lemma_read_numbers_bounds(s@, b as int, 2);
        }
        let (v, p) = read_numbers_exec(s, b, 2);
        match v {
            Some(xy) => {
                let g = make_seg(PathOp::MoveTo, rel, xy);
                out.push(g);
                proof {
                    lemma_segs_view_push(old(out)@, g);
                }
                let ghost mid = segs_view(out@);
                let e = repeated_exec(s, p, 2, PathOp::LineTo, rel, out);
                proof {
                    let rest = repeated(s@, p as int, 2, PathOp::LineTo, rel).0;
                    assert(segs_view(out@) =~= segs_view(old(out)@) + (seq![seg_view(g)] + rest));
                }
                e
            },
            None => {
                assert(segs_view(out@) =~= segs_view(old(out)@) + Seq::<(PathOp, bool, Seq<Seq<char>>)>::empty());
                p
            },
        }
    } else if cmd == 'L' || cmd == 'l' {
        repeated_exec(s, b, 2, PathOp::LineTo, rel, out)
    } else if cmd == 'H' || cmd == 'h' || cmd == 'V' || cmd == 'v' {
        let op = if cmd == 'H' || cmd == 'h' {
            PathOp::HorizontalTo
        } else {
            PathOp::VerticalTo
        };
        let (x, p) = read_number_exec(s, b);
        match x {
            Some(t) => {
                let mut args: Vec<String> = Vec::new();
                args.push(t);
                let g = make_seg(op, rel, args);
                assert(string_views(args@) =~= seq![t@]);
                out.push(g);
                proof {
                    lemma_segs_view_push(old(out)@, g);
                }
            },
            None => {
                assert(segs_view(out@) =~= segs_view(old(out)@) + Seq::<(PathOp, bool, Seq<Seq<char>>)>::empty());
            },
        }
        p
    } else if cmd == 'C' || cmd == 'c' {
        repeated_exec(s, b, 6, PathOp::CubicTo, rel, out)
    } else if cmd == 'Q' || cmd == 'q' {
        repeated_exec(s, b, 4, PathOp::QuadTo, rel, out)
    } else if cmd == 'Z' || cmd == 'z' {
        let g = make_seg(PathOp::Close, false, Vec::new());
        assert(string_views(Seq::<String>::empty()) =~= Seq::<Seq<char>>::empty());
        out.push(g);
        proof {
            lemma_segs_view_push(old(out)@, g);
        }
        b
    } else {
        assert(segs_view(out@) =~= segs_view(old(out)@) + Seq::<(PathOp, bool, Seq<Seq<char>>)>::empty());
        b
    }
}

/// The segments of a path text, or `None` when reading it never ends.
fn read_path(s: &Vec<char>) -> (r: Option<Vec<PathSeg>>)
    ensures
        match r {
            Some(v) => path_segments(s@) == Some(segs_view(v@)),
            None => path_segments(s@) is None,
        },
{
    let mut out: Vec<PathSeg> = Vec::new();
    let mut j: usize = 0;
    let mut last: char = ' ';
    assert(segs_view(out@) =~= Seq::<(PathOp, bool, Seq<Seq<char>>)>::empty());
    loop
        invariant
            j <= s.len(),
            path_segments(s@) == run(s@, j as int, last, segs_view(out@)),
        decreases s.len() - j,
    {
        let a = skip_sep_exec(s, j);
        if a >= s.len() {
            return Some(out);
        }
        let c = s[a];
        let letter = ('a' <= c && c <= 'z') || ('A' <= c && c <= 'Z');
        let cmd = if letter {
            c
        } else {
            last
        };
        let b = if letter {
            a + 1
        } else {
            a
        };
        proof {
            lemma_command_bounds(s@, b as int, cmd);
        }
        let e = command_exec(s, b, cmd, &mut out);
        if e <= j {
            return None;
        }
        j = e;
        last = cmd;
    }
}

/// Whether reading the path text `d` never ends: somewhere a character that
/// is neither a separator nor a command letter stands where the command in
/// force takes no number from it (after Z, or after an unsupported command
/// such as A), or where no number can start.
pub fn svg_path_stalls(d: &str) -> (r: bool)
    ensures
        r == (path_segments(d@) is None),
{
    let s = chars_of(d);
    read_path(&s).is_none()
}

/// Read the `d` attribute of an SVG path into its segments; `None` when
/// no segment adds a point (an empty text, or only closes).
pub fn parse_svg_path(d: &str) -> (r: Option<Vec<PathSeg>>)
    requires
        path_segments(d@) is Some,
    ensures
        ({
            let segs = path_segments(d@)->0;
            match r {
                Some(v) => segs_view(v@) == segs && has_point(segs),
                None => !has_point(segs),
            }
        }),
{
    let s = chars_of(d);
    match read_path(&s) {
        Some(v) => {
            let mut k: usize = 0;
            while k < v.len()
                invariant
                    k <= v.len(),
                    path_segments(d@) == Some(segs_view(v@)),
                    forall|m: int| 0 <= m < k ==> (#[trigger] segs_view(v@)[m]).0 == PathOp::Close,
                decreases v.len() - k,
            {
                if v[k].op != PathOp::Close {
                    assert(segs_view(v@)[k as int].0 != PathOp::Close);
                    return Some(v);
                }
                k = k + 1;
            }
            None
        },
        None => None,
    }
}

// ---------------------------------------------------------------------------
// Shape of the segments
// ---------------------------------------------------------------------------

/// How many numbers an operation takes.
pub open spec fn arity(op: PathOp) -> nat {
    match op {
        PathOp::MoveTo => 2,
        PathOp::LineTo => 2,
        PathOp::HorizontalTo => 1,
        PathOp::VerticalTo => 1,
        PathOp::CubicTo => 6,
        PathOp::QuadTo => 4,
        PathOp::Close => 0,
    }
}

/// A segment with as many numbers as its operation takes, each of which
/// reads as a float.
pub open spec fn well_formed(g: (PathOp, bool, Seq<Seq<char>>)) -> bool {
    g.2.len() == arity(g.0) && forall|m: int| 0 <= m < g.2.len() ==> float_text(#[trigger] g.2[m])
}

pub open spec fn all_well_formed(segs: Seq<(PathOp, bool, Seq<Seq<char>>)>) -> bool {
    forall|k: int| 0 <= k < segs.len() ==> well_formed(#[trigger] segs[k])
}

proof fn lemma_read_numbers_shape(s: Seq<char>, i: int, k: nat)
    ensures
        read_numbers(s, i, k).0 matches Some(v) ==> v.len() == k && forall|m: int|
            0 <= m < v.len() ==> float_text(#[trigger] v[m]),
    decreases k,
{
    if k > 0 {
        let (x, p) = read_number(s, i);
        lemma_read_numbers_shape(s, p, (k - 1) as nat);
        if let (Some(t), Some(r)) = (x, read_numbers(s, p, (k - 1) as nat).0) {
            let v = seq![t] + r;
            assert forall|m: int| 0 <= m < v.len() implies float_text(#[trigger] v[m]) by {
                if m > 0 {
                    assert(v[m] == r[m - 1]);
                }
            }
        }
    }
}

proof fn lemma_concat_well_formed(a: Seq<(PathOp, bool, Seq<Seq<char>>)>, b: Seq<(PathOp, bool, Seq<Seq<char>>)>)
    requires
        all_well_formed(a),
        all_well_formed(b),
    ensures
        all_well_formed(a + b),
{
    assert forall|k: int| 0 <= k < (a + b).len() implies well_formed(#[trigger] (a + b)[k]) by {
        if k >= a.len() {
            assert((a + b)[k] == b[k - a.len()]);
        } else {
            assert((a + b)[k] == a[k]);
        }
    }
}

proof fn lemma_repeated_shape(s: Seq<char>, i: int, k: nat, op: PathOp, rel: bool)
    requires
        k == arity(op),
    ensures
        all_well_formed(repeated(s, i, k, op, rel).0),
    decreases s.len() - i,
{
    let a = skip_sep(s, i);
    if 0 <= a < s.len() && starts_number(s[a]) {
        let (vals, j) = read_numbers(s, a, k);
        if i < j <= s.len() {
            lemma_repeated_shape(s, j, k, op, rel);
            lemma_read_numbers_shape(s, a, k);
            let rest = repeated(s, j, k, op, rel).0;
            if let Some(v) = vals {
                lemma_concat_well_formed(seq![(op, rel, v)], rest);
            }
        }
    }
}

proof fn lemma_command_shape(s: Seq<char>, b: int, cmd: char)
    ensures
        all_well_formed(command(s, b, cmd).0),
{
    let rel = 'a' <= cmd <= 'z';
    if cmd == 'M' || cmd == 'm' {
        lemma_read_numbers_shape(s, b, 2);
        let (v, p) = read_numbers(s, b, 2);
        if let Some(xy) = v {
            lemma_repeated_shape(s, p, 2, PathOp::LineTo, rel);
            lemma_concat_well_formed(seq![(PathOp::MoveTo, rel, xy)], repeated(s, p, 2, PathOp::LineTo, rel).0);
        }
    } else if cmd == 'L' || cmd == 'l' {
        lemma_repeated_shape(s, b, 2, PathOp::LineTo, rel);
    } else if cmd == 'H' || cmd == 'h' || cmd == 'V' || cmd == 'v' {
        let (x, p) = read_number(s, b);
        if let Some(t) = x {
            let op = if cmd == 'H' || cmd == 'h' {
                PathOp::HorizontalTo
            } else {
                PathOp::VerticalTo
            };
            assert(well_formed(seq![(op, rel, seq![t])][0]));
        }
    } else if cmd == 'C' || cmd == 'c' {
        lemma_repeated_shape(s, b, 6, PathOp::CubicTo, rel);
    } else if cmd == 'Q' || cmd == 'q' {
        lemma_repeated_shape(s, b, 4, PathOp::QuadTo, rel);
    } else if cmd == 'Z' || cmd == 'z' {
        assert(well_formed(seq![(PathOp::Close, false, Seq::<Seq<char>>::empty())][0]));
    }
}

proof fn lemma_run_shape(s: Seq<char>, i: int, last: char, acc: Seq<(PathOp, bool, Seq<Seq<char>>)>)
    requires
        all_well_formed(acc),
    ensures
        run(s, i, last, acc) matches Some(segs) ==> all_well_formed(segs),
    decreases s.len() - i,
{
    let a = skip_sep(s, i);
    if 0 <= a < s.len() {
        let c = s[a];
        let cmd = if is_ascii_letter(c) {
            c
        } else {
            last
        };
        let b = if is_ascii_letter(c) {
            a + 1
        } else {
            a
        };
        let (segs, e) = command(s, b, cmd);
        if i < e <= s.len() {
            lemma_command_shape(s, b, cmd);
            lemma_concat_well_formed(acc, segs);
            lemma_run_shape(s, e, cmd, acc + segs);
        }
    }
}

/// Every segment read from a path text has as many numbers as its
/// operation takes, and each of them reads as a float.
pub proof fn lemma_segments_well_formed(d: Seq<char>)
    ensures
        path_segments(d) matches Some(segs) ==> all_well_formed(segs),
{
    lemma_run_shape(d, 0, ' ', Seq::empty());
}

// ---------------------------------------------------------------------------
// Relative and absolute segments
// ---------------------------------------------------------------------------

/// Every segment but a close is relative exactly when `lower` holds.
pub open spec fn relative_when(segs: Seq<(PathOp, bool, Seq<Seq<char>>)>, lower: bool) -> bool {
    forall|k: int| 0 <= k < segs.len() && (#[trigger] segs[k]).0 != PathOp::Close ==> segs[k].1 == lower
}

proof fn lemma_concat_relative(a: Seq<(PathOp, bool, Seq<Seq<char>>)>, b: Seq<(PathOp, bool, Seq<Seq<char>>)>, lower: bool)
    requires
        relative_when(a, lower),
        relative_when(b, lower),
    ensures
        relative_when(a + b, lower),
{
    assert forall|k: int| 0 <= k < (a + b).len() && (#[trigger] (a + b)[k]).0 != PathOp::Close implies (a + b)[k].1 == lower by {
        if k < a.len() {
            assert((a + b)[k] == a[k]);
        } else {
            assert((a + b)[k] == b[k - a.len()]);
        }
    }
}

proof fn lemma_repeated_relative(s: Seq<char>, i: int, k: nat, op: PathOp, rel: bool)
    ensures
        relative_when(repeated(s, i, k, op, rel).0, rel),
    decreases s.len() - i,
{
    let a = skip_sep(s, i);
    if 0 <= a < s.len() && starts_number(s[a]) {
        let (vals, j) = read_numbers(s, a, k);
        if i < j <= s.len() {
            lemma_repeated_relative(s, j, k, op, rel);
            if let Some(v) = vals {
                assert(relative_when(seq![(op, rel, v)], rel));
                lemma_concat_relative(seq![(op, rel, v)], repeated(s, j, k, op, rel).0, rel);
            }
        }
    }
}

proof fn lemma_command_relative(s: Seq<char>, b: int, cmd: char)
    ensures
        relative_when(command(s, b, cmd).0, 'a' <= cmd <= 'z'),
{
    let rel = 'a' <= cmd <= 'z';
    if cmd == 'M' || cmd == 'm' {
        let (v, p) = read_numbers(s, b, 2);
        if let Some(xy) = v {
            lemma_repeated_relative(s, p, 2, PathOp::LineTo, rel);
            assert(relative_when(seq![(PathOp::MoveTo, rel, xy)], rel));
            lemma_concat_relative(seq![(PathOp::MoveTo, rel, xy)], repeated(s, p, 2, PathOp::LineTo, rel).0, rel);
        }
    } else if cmd == 'L' || cmd == 'l' {
        lemma_repeated_relative(s, b, 2, PathOp::LineTo, rel);
    } else if cmd == 'H' || cmd == 'h' || cmd == 'V' || cmd == 'v' {
        let (x, p) = read_number(s, b);
        if let Some(t) = x {
            let op = if cmd == 'H' || cmd == 'h' {
                PathOp::HorizontalTo
            } else {
                PathOp::VerticalTo
            };
            assert(relative_when(seq![(op, rel, seq![t])], rel));
        }
    } else if cmd == 'C' || cmd == 'c' {
        lemma_repeated_relative(s, b, 6, PathOp::CubicTo, rel);
    } else if cmd == 'Q' || cmd == 'q' {
        lemma_repeated_relative(s, b, 4, PathOp::QuadTo, rel);
    } else if cmd == 'Z' || cmd == 'z' {
        assert(relative_when(seq![(PathOp::Close, false, Seq::<Seq<char>>::empty())], rel));
    }
}

proof fn lemma_run_relative(s: Seq<char>, i: int, c: char, acc: Seq<(PathOp, bool, Seq<Seq<char>>)>)
    requires
        1 <= i,
        forall|j: int| 1 <= j < s.len() ==> !is_ascii_letter(#[trigger] s[j]),
        relative_when(acc, 'a' <= c <= 'z'),
    ensures
        run(s, i, c, acc) matches Some(segs) ==> relative_when(segs, 'a' <= c <= 'z'),
    decreases s.len() - i,
{
    let a = skip_sep(s, i);
    if 0 <= a < s.len() {
        if i <= s.len() {
            lemma_skip_sep_bounds(s, i);
        } else {
            assert(a == i);
        }
        assert(!is_ascii_letter(s[a]));
        let (segs, e) = command(s, a, c);
        if i < e <= s.len() {
            lemma_command_relative(s, a, c);
            lemma_concat_relative(acc, segs, 'a' <= c <= 'z');
            lemma_run_relative(s, e, c, acc + segs);
        }
    }
}

/// The case of a command letter decides whether its segments are relative:
/// in a path text made of one command letter followed by numbers and
/// separators only, every segment (the implicit repeats included; a close
/// aside) is relative when the letter is lower case and absolute when it is
/// upper case.
pub proof fn lemma_letter_case_sets_relative(c: char, rest: Seq<char>)
    requires
        is_ascii_letter(c),
        forall|j: int| 0 <= j < rest.len() ==> !is_ascii_letter(#[trigger] rest[j]),
    ensures
        path_segments(seq![c] + rest) matches Some(segs) ==> relative_when(segs, 'a' <= c <= 'z'),
{
    let s = seq![c] + rest;
    assert forall|j: int| 1 <= j < s.len() implies !is_ascii_letter(#[trigger] s[j]) by {
        assert(s[j] == rest[j - 1]);
    }
    assert(s[0] == c);
    assert(!is_sep(c));
    assert(skip_sep(s, 0) == 0);
    let (segs, e) = command(s, 1, c);
    lemma_command_bounds(s, 1, c);
    if 0 < e <= s.len() {
        lemma_command_relative(s, 1, c);
        assert(Seq::<(PathOp, bool, Seq<Seq<char>>)>::empty() + segs =~= segs);
        lemma_run_relative(s, e, c, segs);
    }
}

} // verus!
