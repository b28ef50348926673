//! The launcher's application list: reading a desktop entry, ordering the
//! entries found, and ranking them against a search query.
use vstd::prelude::*;
use fuzzy_matcher::skim::SkimMatcherV2;
use fuzzy_matcher::FuzzyMatcher;
use crate::text::{
    begins_with, chars_of, is_white, lowercase, to_lower, is_whitespace_char, lines, lines_of, string_from_chars,
    strip_prefix_range, trim, trim_range,
};

verus! {

/// An application that can be launched.
#[derive(Debug)]
pub struct AppEntry {
    pub name: String,
    /// The launch command (the `Exec=` key).
    pub command: String,
    pub icon_name: Option<String>,
    pub desktop_id: String,
}

/// The characters of an optional string.
pub open spec fn opt_chars(o: Option<String>) -> Option<Seq<char>> {
    match o {
        Some(s) => Some(s@),
        None => None,
    }
}

impl AppEntry {
    /// The entry as (name, command, icon name, desktop id).
    pub open spec fn fields(self) -> (Seq<char>, Seq<char>, Option<Seq<char>>, Seq<char>) {
        (self.name@, self.command@, opt_chars(self.icon_name), self.desktop_id@)
    }

    pub fn copy(&self) -> (r: Self)
        ensures
            r == *self,
    {
        AppEntry {
            name: self.name.clone(),
            command: self.command.clone(),
            icon_name: match &self.icon_name {
                Some(s) => Some(s.clone()),
                None => None,
            },
            desktop_id: self.desktop_id.clone(),
        }
    }
}

// ---------------------------------------------------------------------------
// Desktop entries
// ---------------------------------------------------------------------------

/// The pieces of `s` between whitespace characters, empty ones included.
pub open spec fn split_white(s: Seq<char>) -> Seq<Seq<char>>
    decreases s.len(),
{
    if s.len() == 0 {
        seq![Seq::<char>::empty()]
    } else {
        let rest = split_white(s.drop_last());
        if is_white(s.last()) {
            rest.push(Seq::<char>::empty())
        } else {
            rest.update(rest.len() - 1, rest.last().push(s.last()))
        }
    }
}

proof fn lemma_split_white_nonempty(s: Seq<char>)
    ensures
        split_white(s).len() >= 1,
    decreases s.len(),
{
    if s.len() > 0 {
        lemma_split_white_nonempty(s.drop_last());
    }
}

/// A word kept in a launch command: not empty and not a field code (`%f`,
/// `%U`, ...).
pub open spec fn command_word(w: Seq<char>) -> bool {
    w.len() > 0 && w[0] != '%'
}

/// The command words among `ws`, in order.
pub open spec fn command_words(ws: Seq<Seq<char>>) -> Seq<Seq<char>>
    decreases ws.len(),
{
    if ws.len() == 0 {
        Seq::empty()
    } else if command_word(ws.last()) {
        command_words(ws.drop_last()).push(ws.last())
    } else {
        command_words(ws.drop_last())
    }
}

/// Words joined by single spaces.
pub open spec fn join_words(ws: Seq<Seq<char>>) -> Seq<char>
    decreases ws.len(),
{
    if ws.len() == 0 {
        Seq::empty()
    } else if ws.len() == 1 {
        ws[0]
    } else {
        join_words(ws.drop_last()) + seq![' '] + ws.last()
    }
}

/// The command of an `Exec=` value: its whitespace-separated words without
/// the field codes, joined by single spaces.
pub open spec fn clean_command(v: Seq<char>) -> Seq<char> {
    join_words(command_words(split_white(v)))
}

/// What has been read of a desktop file so far: name, command, icon name,
/// whether it asks not to be shown, whether it is an application, and
/// whether the current line lies in the `[Desktop Entry]` group.
pub type EntryScan = (Option<Seq<char>>, Option<Seq<char>>, Option<Seq<char>>, bool, bool, bool);

/// The effect of one (trimmed) line. The first `Name=` counts, the last
/// `Exec=` and `Icon=`; keys outside the `[Desktop Entry]` group are ignored.
pub open spec fn scan_line(st: EntryScan, l: Seq<char>) -> EntryScan {
    if l == "[Desktop Entry]"@ {
        (st.0, st.1, st.2, st.3, st.4, true)
    } else if l.len() > 0 && l[0] == '[' {
        (st.0, st.1, st.2, st.3, st.4, false)
    } else if !st.5 {
        st
    } else if begins_with(l, "Name="@) {
        if st.0 is None {
            (Some(l.skip(5)), st.1, st.2, st.3, st.4, st.5)
        } else {
            st
        }
    } else if begins_with(l, "Exec="@) {
        (st.0, Some(clean_command(l.skip(5))), st.2, st.3, st.4, st.5)
    } else if begins_with(l, "Icon="@) {
        (st.0, st.1, Some(l.skip(5)), st.3, st.4, st.5)
    } else if l == "NoDisplay=true"@ {
        (st.0, st.1, st.2, true, st.4, st.5)
    } else if l == "Type=Application"@ {
        (st.0, st.1, st.2, st.3, true, st.5)
    } else {
        st
    }
}

/// The lines `ls`, each trimmed, read in order.
pub open spec fn scan_lines(ls: Seq<Seq<char>>) -> EntryScan
    decreases ls.len(),
{
    if ls.len() == 0 {
        (None, None, None, false, false, false)
    } else {
        scan_line(scan_lines(ls.drop_last()), trim(ls.last()))
    }
}

/// The application a desktop file describes, as (name, command, icon name,
/// desktop id): none when it is hidden, not an application, or lacks a
/// name, a command or a file stem.
pub open spec fn desktop_entry(contents: Seq<char>, stem: Option<Seq<char>>) -> Option<
    (Seq<char>, Seq<char>, Option<Seq<char>>, Seq<char>),
> {
    let st = scan_lines(lines(contents));
    if st.3 || !st.4 {
        None
    } else {
        match (stem, st.0, st.1) {
            (Some(id), Some(n), Some(e)) => Some((n, e, st.2, id)),
            _ => None,
        }
    }
}

/// The characters of an optional string slice.
pub open spec fn opt_str(o: Option<&str>) -> Option<Seq<char>> {
    match o {
        Some(s) => Some(s@),
        None => None,
    }
}

/// Whether `v` holds exactly the characters of `s`.
fn chars_equal(v: &Vec<char>, s: &str) -> (b: bool)
    ensures
        b == (v@ == s@),
{
    let w = chars_of(s);
    if w.len() != v.len() {
        return false;
    }
    let mut i: usize = 0;
    while i < v.len()
        invariant
            w@ == s@,
            w.len() == v.len(),
            i <= v.len(),
            forall|k: int| 0 <= k < i ==> v@[k] == w@[k],
        decreases v.len() - i,
    {
        if v[i] != w[i] {
            return false;
        }
        i = i + 1;
    }
    assert(v@ =~= w@);
    true
}

/// `v[lo..hi]` as a string.
fn range_string(v: &Vec<char>, lo: usize, hi: usize) -> (r: String)
    requires
        lo <= hi <= v.len(),
    ensures
        r@ == v@.subrange(lo as int, hi as int),
{
    let mut out: Vec<char> = Vec::new();
    let mut k: usize = lo;
    while k < hi
        invariant
            lo <= k <= hi <= v.len(),
            out@ == v@.subrange(lo as int, k as int),
        decreases hi - k,
    {
        out.push(v[k]);
        k = k + 1;
    }
    string_from_chars(&out)
}

/// Splits `v[lo..hi]` at whitespace (`split_white`).
fn split_white_range(v: &Vec<char>, lo: usize, hi: usize) -> (r: Vec<Vec<char>>)
    requires
        lo <= hi <= v.len(),
    ensures
        r.len() == split_white(v@.subrange(lo as int, hi as int)).len(),
        forall|i: int| 0 <= i < r.len() ==> #[trigger] r[i]@ == split_white(
            v@.subrange(lo as int, hi as int),
        )[i],
{
    let mut parts: Vec<Vec<char>> = Vec::new();
    let mut cur: Vec<char> = Vec::new();
    let mut i: usize = lo;
    assert(v@.subrange(lo as int, lo as int) =~= Seq::<char>::empty());
    while i < hi
        invariant
            lo <= i <= hi <= v.len(),
            parts.len() + 1 == split_white(v@.subrange(lo as int, i as int)).len(),
            forall|k: int| 0 <= k < parts.len() ==> #[trigger] parts[k]@ == split_white(v@.subrange(lo as int, i as int))[k],
            cur@ == split_white(v@.subrange(lo as int, i as int)).last(),
        decreases hi - i,
    {
        let ch = v[i];
        let ghost pre = v@.subrange(lo as int, i as int);
        assert(v@.subrange(lo as int, i + 1).drop_last() =~= pre);
        assert(v@.subrange(lo as int, i + 1).last() == ch);
        proof {
            lemma_split_white_nonempty(pre);
        }
        if is_whitespace_char(ch) {
            let done = cur;
            parts.push(done);
            cur = Vec::new();
        } else {
            cur.push(ch);
        }
        i = i + 1;
    }
    parts.push(cur);
    parts
}

/// The launch command of an `Exec=` value `v[lo..hi]`.
fn clean_command_range(v: &Vec<char>, lo: usize, hi: usize) -> (r: String)
    requires
        lo <= hi <= v.len(),
    ensures
        r@ == clean_command(v@.subrange(lo as int, hi as int)),
{
    let pieces = split_white_range(v, lo, hi);
    let ghost ps = split_white(v@.subrange(lo as int, hi as int));
    let mut out: Vec<char> = Vec::new();
    let mut kept: usize = 0;
    let mut k: usize = 0;
    assert(ps.take(0) =~= Seq::<Seq<char>>::empty());
    while k < pieces.len()
        invariant
            pieces.len() == ps.len(),
            forall|j: int| 0 <= j < pieces.len() ==> #[trigger] pieces[j]@ == ps[j],
            k <= pieces.len(),
            kept == command_words(ps.take(k as int)).len(),
            kept <= k,
            out@ == join_words(command_words(ps.take(k as int))),
        decreases pieces.len() - k,
    {
        let p = &pieces[k];
        assert(p@ == ps[k as int]);
        assert(ps.take(k + 1).drop_last() =~= ps.take(k as int));
        assert(ps.take(k + 1).last() == ps[k as int]);
        if p.len() > 0 && p[0] != '%' {
            let ghost before = out@;
            if kept > 0 {
                out.push(' ');
            }
            let mut j: usize = 0;
            let ghost mid = out@;
            while j < p.len()
                invariant
                    j <= p.len(),
                    out@ == mid + p@.subrange(0, j as int),
                decreases p.len() - j,
            {
                out.push(p[j]);
                j = j + 1;
            }
            assert(p@.subrange(0, p.len() as int) =~= p@);
            let ghost cw = command_words(ps.take(k as int));
            assert(command_words(ps.take(k + 1)) == cw.push(p@));
            assert(cw.push(p@).drop_last() =~= cw);
            if kept > 0 {
                assert(out@ =~= join_words(cw) + seq![' '] + p@);
            } else {
                assert(out@ =~= p@);
            }
            kept = kept + 1;
        }
        k = k + 1;
    }
    assert(ps.take(ps.len() as int) =~= ps);
    string_from_chars(&out)
}

/// The application a desktop file describes. `contents` is the file's
/// text and `file_stem` its name without the `.desktop` extension.
pub fn parse_desktop_file(contents: &str, file_stem: Option<&str>) -> (r: Option<AppEntry>)
    ensures
        match desktop_entry(contents@, opt_str(file_stem)) {
            Some(e) => r matches Some(a) && a.fields() == e,
            None => r is None,
        },
{
    let v = chars_of(contents);
    let ls = lines_of(&v);
    let ghost gl = lines(contents@);
    let mut name: Option<String> = None;
    let mut command: Option<String> = None;
    let mut icon: Option<String> = None;
    let mut no_display = false;
    let mut is_app = false;
    let mut in_entry = false;
    let mut i: usize = 0;
    assert(gl.take(0) =~= Seq::<Seq<char>>::empty());
    while i < ls.len()
        invariant
            v@ == contents@,
            gl == lines(contents@),
            ls.len() == gl.len(),
            forall|k: int| 0 <= k < ls.len() ==> #[trigger] ls[k]@ == gl[k],
            i <= ls.len(),
            scan_lines(gl.take(i as int)) == (
                opt_chars(name),
                opt_chars(command),
                opt_chars(icon),
                no_display,
                is_app,
                in_entry,
            ),
        decreases ls.len() - i,
    {
        proof {
            reveal_strlit("Name=");
            reveal_strlit("Exec=");
            reveal_strlit("Icon=");
        }
        let raw = &ls[i];
        assert(raw@ == gl[i as int]);
        assert(raw@.subrange(0, raw.len() as int) =~= raw@);
        let l = trim_range(raw, 0, raw.len());
        assert(gl.take(i + 1).drop_last() =~= gl.take(i as int));
        assert(gl.take(i + 1).last() == gl[i as int]);
        assert(l@.subrange(0, l.len() as int) =~= l@);
        if chars_equal(&l, "[Desktop Entry]") {
            in_entry = true;
        } else if l.len() > 0 && l[0] == '[' {
            in_entry = false;
        } else if !in_entry {
        } else if let Some(k) = strip_prefix_range(&l, 0, l.len(), "Name=") {
            if name.is_none() {
                name = Some(range_string(&l, k, l.len()));
            }
        } else if let Some(k) = strip_prefix_range(&l, 0, l.len(), "Exec=") {
            command = Some(clean_command_range(&l, k, l.len()));
        } else if let Some(k) = strip_prefix_range(&l, 0, l.len(), "Icon=") {
            icon = Some(range_string(&l, k, l.len()));
        } else if chars_equal(&l, "NoDisplay=true") {
            no_display = true;
        } else if chars_equal(&l, "Type=Application") {
            is_app = true;
        }
        i = i + 1;
    }
    assert(gl.take(ls.len() as int) =~= gl);
    if no_display || !is_app {
        return None;
    }
    let desktop_id = match file_stem {
        Some(s) => s.to_owned(),
        None => {
            return None;
        },
    };
    match (name, command) {
        (Some(n), Some(e)) => Some(AppEntry { name: n, command: e, icon_name: icon, desktop_id }),
        _ => None,
    }
}

// ---------------------------------------------------------------------------
// Search
// ---------------------------------------------------------------------------

/// The score that the skim fuzzy matcher, in its default configuration,
/// gives `choice` against `pattern`; `None` when the pattern does not match.
pub uninterp spec fn skim_score(choice: Seq<char>, pattern: Seq<char>) -> Option<i64>;

/// Scores `choice` against `pattern` with `fuzzy_matcher`'s
/// `SkimMatcherV2::default()` and its `FuzzyMatcher::fuzzy_match`. The
/// result depends on the two strings alone (the matcher's caches are only
/// scratch space); an empty pattern matches with score 0. What the score is
/// otherwise is the matcher's own algorithm and is not stated here.
#[verifier::external_body]
fn skim_fuzzy_match(choice: &str, pattern: &str) -> (r: Option<i64>)
    ensures
        r == skim_score(choice@, pattern@),
        pattern@.len() == 0 ==> r == Some(0i64),
{
    SkimMatcherV2::default().fuzzy_match(choice, pattern)
}

/// `r` lists the positions of `scores` that hold a score, best score first,
/// equal scores in their original order.
pub open spec fn ranked(r: Seq<usize>, scores: Seq<Option<i64>>) -> bool {
    &&& forall|a: int| 0 <= a < r.len() ==> #[trigger] r[a] < scores.len() && scores[r[a] as int] is Some
    &&& forall|a: int, b: int|
        0 <= a < b < r.len() ==> {
            let sa = scores[#[trigger] r[a] as int]->0;
            let sb = scores[#[trigger] r[b] as int]->0;
            sa > sb || (sa == sb && r[a] < r[b])
        }
    &&& forall|i: int|
        0 <= i < scores.len() && #[trigger] scores[i] is Some ==> exists|a: int|
            0 <= a < r.len() && r[a] == i
}

/// The positions of `scores` that hold a score, best first; equal scores
/// keep their order.
pub fn rank_matches(scores: &Vec<Option<i64>>) -> (r: Vec<usize>)
    ensures
        ranked(r@, scores@),
{
    let mut out: Vec<usize> = Vec::new();
    let mut i: usize = 0;
    while i < scores.len()
        invariant
            i <= scores.len(),
            forall|a: int| 0 <= a < out.len() ==> #[trigger] out[a] < i && scores@[out[a] as int] is Some,
            forall|a: int, b: int|
                0 <= a < b < out.len() ==> {
                    let sa = scores@[#[trigger] out[a] as int]->0;
                    let sb = scores@[#[trigger] out[b] as int]->0;
                    sa > sb || (sa == sb && out[a] < out[b])
                },
            forall|j: int|
                0 <= j < i && #[trigger] scores@[j] is Some ==> exists|a: int|
                    0 <= a < out.len() && out[a] == j,
        decreases scores.len() - i,
    {
        if let Some(s) = scores[i] {
            let mut p: usize = 0;
            while p < out.len() && scores[out[p]].unwrap() >= s
                invariant
                    p <= out.len(),
                    i < scores.len(),
                    forall|a: int| 0 <= a < out.len() ==> #[trigger] out[a] < i && scores@[out[a] as int] is Some,
                    forall|a: int| 0 <= a < p ==> scores@[#[trigger] out[a] as int]->0 >= s,
                decreases out.len() - p,
            {
                p = p + 1;
            }
            let ghost o = out@;
            out.insert(p, i);
            proof {
                assert forall|a: int| 0 <= a < out.len() implies #[trigger] out[a] < i + 1 && scores@[out[a] as int] is Some by {
                    if a < p {
                        assert(out[a] == o[a]);
                    } else if a > p {
                        assert(out[a] == o[a - 1]);
                    }
                }
                assert forall|a: int, b: int| 0 <= a < b < out.len() implies {
                    let sa = scores@[#[trigger] out[a] as int]->0;
                    let sb = scores@[#[trigger] out[b] as int]->0;
                    sa > sb || (sa == sb && out[a] < out[b])
                } by {
                    let oa = if a < p { a } else { a - 1 };
                    let ob = if b < p { b } else { b - 1 };
                    if a != p as int && b != p as int {
                        assert(out[a] == o[oa]);
                        assert(out[b] == o[ob]);
                        assert(oa < ob);
                        let x = o[oa];
                        let y = o[ob];
                        assert({
                            let sa = scores@[x as int]->0;
                            let sb = scores@[y as int]->0;
                            sa > sb || (sa == sb && x < y)
                        });
                    } else if a == p as int {
                        assert(out[b] == o[ob]);
                        assert(ob >= p);
                        assert(scores@[o[p as int] as int]->0 < s);
                        if ob > p {
                            let x = o[p as int];
                            let y = o[ob];
                            assert({
                                let sa = scores@[x as int]->0;
                                let sb = scores@[y as int]->0;
                                sa > sb || (sa == sb && x < y)
                            });
                        }
                    } else {
                        assert(out[a] == o[oa]);
                        assert(scores@[o[oa] as int]->0 >= s);
                        assert(o[oa] < i);
                    }
                }
                assert forall|j: int| 0 <= j < i + 1 && #[trigger] scores@[j] is Some implies exists|a: int|
                    0 <= a < out.len() && out[a] == j by {
                    if j == i {
                        assert(out[p as int] == i);
                    } else {
                        let a0 = choose|a: int| 0 <= a < o.len() && o[a] == j;
                        if a0 < p {
                            assert(out[a0] == j);
                        } else {
                            assert(out[a0 + 1] == j);
                        }
                    }
                }
            }
        }
        i = i + 1;
    }
    out
}

/// The scores of the application names against `query`.
pub open spec fn name_scores(apps: Seq<AppEntry>, query: Seq<char>) -> Seq<Option<i64>> {
    Seq::new(apps.len(), |i: int| skim_score(apps[i].name@, query))
}

/// The positions of the applications whose name matches `query`, best
/// match first; every position, in order, when the query is empty.
pub fn fuzzy_search(apps: &[AppEntry], query: &str) -> (r: Vec<usize>)
    ensures
        query@.len() == 0 ==> r@ == Seq::new(apps@.len(), |i: int| i as usize),
        query@.len() > 0 ==> ranked(r@, name_scores(apps@, query@)),
{
    if query.is_empty() {
        let mut all: Vec<usize> = Vec::new();
        let mut i: usize = 0;
        while i < apps.len()
            invariant
                i <= apps@.len(),
                all@ == Seq::new(i as nat, |k: int| k as usize),
            decreases apps@.len() - i,
        {
            all.push(i);
            i = i + 1;
            assert(all@ =~= Seq::new(i as nat, |k: int| k as usize));
        }
        return all;
    }
    let mut scores: Vec<Option<i64>> = Vec::new();
    let mut i: usize = 0;
    while i < apps.len()
        invariant
            i <= apps@.len(),
            scores@ == name_scores(apps@, query@).take(i as int),
        decreases apps@.len() - i,
    {
        let sc = skim_fuzzy_match(apps[i].name.as_str(), query);
        scores.push(sc);
        i = i + 1;
        assert(scores@ =~= name_scores(apps@, query@).take(i as int));
    }
    assert(scores@ =~= name_scores(apps@, query@));
    rank_matches(&scores)
}

// ---------------------------------------------------------------------------
// Ordering the application list
// ---------------------------------------------------------------------------

/// `a` comes before `b` in the order of `str`'s comparison: character by
/// character, a proper prefix first.
pub open spec fn lex_lt(a: Seq<char>, b: Seq<char>) -> bool
    decreases a.len(),
{
    if a.len() == 0 {
        b.len() > 0
    } else if b.len() == 0 {
        false
    } else if a[0] != b[0] {
        a[0] < b[0]
    } else {
        lex_lt(a.drop_first(), b.drop_first())
    }
}

pub proof fn lemma_lex_irreflexive(a: Seq<char>)
    ensures
        !lex_lt(a, a),
    decreases a.len(),
{
    if a.len() > 0 {
        lemma_lex_irreflexive(a.drop_first());
    }
}

pub proof fn lemma_lex_asymmetric(a: Seq<char>, b: Seq<char>)
    requires
        lex_lt(a, b),
    ensures
        !lex_lt(b, a),
    decreases a.len(),
{
    if a.len() > 0 && b.len() > 0 && a[0] == b[0] {
        lemma_lex_asymmetric(a.drop_first(), b.drop_first());
    }
}

pub proof fn lemma_lex_transitive(a: Seq<char>, b: Seq<char>, c: Seq<char>)
    requires
        lex_lt(a, b),
        lex_lt(b, c),
    ensures
        lex_lt(a, c),
    decreases a.len(),
{
    if a.len() > 0 && b.len() > 0 && c.len() > 0 && a[0] == b[0] && b[0] == c[0] {
        lemma_lex_transitive(a.drop_first(), b.drop_first(), c.drop_first());
    }
}

pub proof fn lemma_lex_total(a: Seq<char>, b: Seq<char>)
    requires
        a != b,
    ensures
        lex_lt(a, b) || lex_lt(b, a),
    decreases a.len(),
{
    if a.len() > 0 && b.len() > 0 && a[0] == b[0] {
        if a.drop_first() == b.drop_first() {
            assert(a =~= seq![a[0]] + a.drop_first());
            assert(b =~= seq![b[0]] + b.drop_first());
        }
        lemma_lex_total(a.drop_first(), b.drop_first());
    } else if a.len() == 0 && b.len() == 0 {
        assert(a =~= b);
    }
}

/// Whether `a` comes before `b` (`lex_lt`).
fn lex_less(a: &Vec<char>, b: &Vec<char>) -> (r: bool)
    ensures
        r == lex_lt(a@, b@),
{
    let mut i: usize = 0;
    assert(a@.skip(0) =~= a@ && b@.skip(0) =~= b@);
    while i < a.len() && i < b.len() && a[i] == b[i]
        invariant
            i <= a.len(),
            i <= b.len(),
            forall|k: int| 0 <= k < i ==> a@[k] == b@[k],
            lex_lt(a@, b@) == lex_lt(a@.skip(i as int), b@.skip(i as int)),
        decreases a.len() - i,
    {
        let ghost x = a@.skip(i as int);
        let ghost y = b@.skip(i as int);
        assert(x.drop_first() =~= a@.skip(i + 1));
        assert(y.drop_first() =~= b@.skip(i + 1));
        i = i + 1;
    }
    let ghost x = a@.skip(i as int);
    let ghost y = b@.skip(i as int);
    if i == a.len() {
        i < b.len()
    } else if i == b.len() {
        false
    } else {
        assert(x[0] == a@[i as int] && y[0] == b@[i as int]);
        a[i] < b[i]
    }
}

/// The key the application list is sorted by: the lower-cased name.
pub open spec fn sort_key(a: AppEntry) -> Seq<char> {
    lowercase(a.name@)
}

/// `r` is `s` sorted by `sort_key`, equal keys in their original order;
/// `p` gives for each position of `r` the position in `s` it came from.
pub open spec fn stable_sorted(s: Seq<AppEntry>, r: Seq<AppEntry>, p: Seq<int>) -> bool {
    &&& r.len() == s.len()
    &&& p.len() == s.len()
    &&& forall|k: int| 0 <= k < p.len() ==> 0 <= #[trigger] p[k] < s.len() && r[k] == s[p[k]]
    &&& forall|a: int, b: int| 0 <= a < b < p.len() ==> #[trigger] p[a] != #[trigger] p[b]
    &&& forall|a: int, b: int|
        0 <= a < b < r.len() ==> !lex_lt(sort_key(#[trigger] r[b]), sort_key(#[trigger] r[a]))
    &&& forall|a: int, b: int|
        0 <= a < b < r.len() && sort_key(#[trigger] r[a]) == sort_key(#[trigger] r[b]) ==> p[a] < p[b]
}

/// `s` with each run of entries of equal desktop id cut to its first entry.
pub open spec fn dedup_ids(s: Seq<AppEntry>) -> Seq<AppEntry>
    decreases s.len(),
{
    if s.len() == 0 {
        s
    } else {
        let d = dedup_ids(s.drop_last());
        if d.len() > 0 && d.last().desktop_id@ == s.last().desktop_id@ {
            d
        } else {
            d.push(s.last())
        }
    }
}

/// The applications sorted by lower-cased name (equal names keep their
/// order), then with each run of entries of one desktop id cut to its first.
pub fn sort_and_dedup_apps(apps: Vec<AppEntry>) -> (r: Vec<AppEntry>)
    ensures
        exists|sorted: Seq<AppEntry>, p: Seq<int>|
            stable_sorted(apps@, sorted, p) && r@ == dedup_ids(sorted),
{
    let n = apps.len();
    let mut out: Vec<AppEntry> = Vec::new();
    let mut keys: Vec<Vec<char>> = Vec::new();
    let ghost mut p: Seq<int> = Seq::empty();
    let mut i: usize = 0;
    while i < n
        invariant
            n == apps.len(),
            i <= n,
            out.len() == i,
            keys.len() == i,
            p.len() == i,
            forall|k: int| 0 <= k < i ==> #[trigger] keys[k]@ == sort_key(out[k]),
            forall|k: int| 0 <= k < i ==> 0 <= #[trigger] p[k] < i && out[k] == apps@[p[k]],
            forall|a: int, b: int| 0 <= a < b < i ==> #[trigger] p[a] != #[trigger] p[b],
            forall|a: int, b: int|
                0 <= a < b < i ==> !lex_lt(sort_key(#[trigger] out@[b]), sort_key(#[trigger] out@[a])),
            forall|a: int, b: int|
                0 <= a < b < i && sort_key(#[trigger] out@[a]) == sort_key(#[trigger] out@[b]) ==> p[a] < p[b],
        decreases n - i,
    {
        let e = apps[i].copy();
        let low = to_lower(e.name.as_str());
        let key = chars_of(low.as_str());
        let mut q: usize = 0;
        while q < keys.len() && !lex_less(&key, &keys[q])
            invariant
                q <= keys.len(),
                keys.len() == out.len(),
                forall|k: int| 0 <= k < keys.len() ==> #[trigger] keys[k]@ == sort_key(out[k]),
                key@ == sort_key(e),
                forall|a: int| 0 <= a < q ==> !lex_lt(key@, #[trigger] keys[a]@),
            decreases keys.len() - q,
        {
            q = q + 1;
        }
        let ghost o = out@;
        let ghost ok = keys@;
        let ghost kv = key@;
        assert(forall|a: int| 0 <= a < q ==> !lex_lt(kv, #[trigger] ok[a]@));
        let ghost op = p;
        out.insert(q, e);
        keys.insert(q, key);
        proof {
            p = op.insert(q as int, i as int);
            let ek = sort_key(e);
            assert forall|k: int| 0 <= k < i + 1 implies #[trigger] keys[k]@ == sort_key(out[k]) by {
                if k < q {
                    assert(keys[k] == ok[k] && out[k] == o[k]);
                } else if k > q {
                    assert(keys[k] == ok[k - 1] && out[k] == o[k - 1]);
                }
            }
            assert forall|k: int| 0 <= k < i + 1 implies 0 <= #[trigger] p[k] < i + 1 && out[k] == apps@[p[k]] by {
                if k < q {
                    assert(p[k] == op[k] && out[k] == o[k]);
                } else if k > q {
                    assert(p[k] == op[k - 1] && out[k] == o[k - 1]);
                }
            }
            assert forall|a: int, b: int| 0 <= a < b < i + 1 implies #[trigger] p[a] != #[trigger] p[b] by {
                let oa = if a < q { a } else { a - 1 };
                let ob = if b < q { b } else { b - 1 };
                if a != q && b != q {
                    assert(p[a] == op[oa] && p[b] == op[ob]);
                } else if a == q {
                    assert(p[b] == op[ob]);
                } else {
                    assert(p[a] == op[oa]);
                }
            }
            assert forall|a: int, b: int| 0 <= a < b < i + 1 implies !lex_lt(sort_key(#[trigger] out@[b]), sort_key(#[trigger] out@[a]))
                && (sort_key(out@[a]) == sort_key(out@[b]) ==> p[a] < p[b]) by {
                let oa = if a < q { a } else { a - 1 };
                let ob = if b < q { b } else { b - 1 };
                if a != q && b != q {
                    assert(out@[a] == o[oa] && out@[b] == o[ob]);
                    assert(p[a] == op[oa] && p[b] == op[ob]);
                    assert(oa < ob);
                    let x = o[oa];
                    let y = o[ob];
                    assert(!lex_lt(sort_key(y), sort_key(x)));
                    assert(sort_key(x) == sort_key(y) ==> op[oa] < op[ob]);
                } else if a == q {
                    assert(out@[b] == o[ob]);
                    assert(p[b] == op[ob]);
                    assert(ob >= q);
                    assert(keys[q as int + 1] == ok[q as int]);
                    assert(lex_lt(ek, sort_key(o[q as int])));
                    lemma_lex_asymmetric(ek, sort_key(o[q as int]));
                    lemma_lex_irreflexive(ek);
                    if ob > q {
                        let x = o[q as int];
                        let y = o[ob];
                        assert(!lex_lt(sort_key(y), sort_key(x)));
                        if lex_lt(sort_key(y), ek) {
                            lemma_lex_transitive(sort_key(y), ek, sort_key(x));
                        }
                        if sort_key(y) == ek {
                            assert(lex_lt(sort_key(y), sort_key(x)));
                        }
                    }
                } else {
                    assert(out@[a] == o[oa]);
                    assert(p[a] == op[oa]);
                    assert(ok[oa]@ == sort_key(o[oa]));
                    assert(!lex_lt(kv, ok[oa]@));
                    assert(!lex_lt(ek, sort_key(o[oa])));
                }
            }
        }
        i = i + 1;
    }
    let ghost sorted = out@;
    let mut d: Vec<AppEntry> = Vec::new();
    let mut k: usize = 0;
    assert(sorted.take(0) =~= Seq::<AppEntry>::empty());
    while k < out.len()
        invariant
            sorted == out@,
            k <= out.len(),
            d@ == dedup_ids(sorted.take(k as int)),
        decreases out.len() - k,
    {
        assert(sorted.take(k + 1).drop_last() =~= sorted.take(k as int));
        assert(sorted.take(k + 1).last() == out@[k as int]);
        let keep = if d.len() == 0 {
            true
        } else {
            d[d.len() - 1].desktop_id != out[k].desktop_id
        };
        if keep {
            d.push(out[k].copy());
        }
        k = k + 1;
    }
    assert(sorted.take(out.len() as int) =~= sorted);
    assert(stable_sorted(apps@, sorted, p));
    d
}

/// After the cut, no two neighbouring entries share a desktop id.
pub proof fn lemma_dedup_no_adjacent_repeats(s: Seq<AppEntry>)
    ensures
        forall|k: int|
            0 <= k < dedup_ids(s).len() - 1 ==> #[trigger] dedup_ids(s)[k].desktop_id@ != dedup_ids(
                s,
            )[k + 1].desktop_id@,
    decreases s.len(),
{
    if s.len() > 0 {
        let d0 = dedup_ids(s.drop_last());
        let d = dedup_ids(s);
        lemma_dedup_no_adjacent_repeats(s.drop_last());
        if d != d0 {
            assert forall|k: int| 0 <= k < d.len() - 1 implies #[trigger] d[k].desktop_id@ != d[k + 1].desktop_id@ by {
                assert(d[k] == d0[k]);
                if k + 1 < d0.len() {
                    assert(d[k + 1] == d0[k + 1]);
                }
            }
        }
    }
}

/// Every desktop id of the list is still present after the cut.
pub proof fn lemma_dedup_keeps_ids(s: Seq<AppEntry>, i: int)
    requires
        0 <= i < s.len(),
    ensures
        exists|k: int| 0 <= k < dedup_ids(s).len() && #[trigger] dedup_ids(s)[k].desktop_id@ == s[i].desktop_id@,
    decreases s.len(),
{
    let s0 = s.drop_last();
    let d0 = dedup_ids(s0);
    let d = dedup_ids(s);
    if i < s.len() - 1 {
        lemma_dedup_keeps_ids(s0, i);
        let k = choose|k: int| 0 <= k < d0.len() && #[trigger] d0[k].desktop_id@ == s0[i].desktop_id@;
        assert(d[k] == d0[k]);
    } else {
        if d == d0 {
            assert(d[d.len() - 1].desktop_id@ == s[i].desktop_id@);
        } else {
            assert(d[d.len() - 1] == s.last());
        }
    }
}

} // verus!
