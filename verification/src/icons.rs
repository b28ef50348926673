//! Icon lookup: the freedesktop icon-theme paths an icon name may live at,
//! the search for the first of them that exists, and an icon registry that
//! resolves names through inline SVG data, icon packs and theme directories.
//!
//! Whether a path exists is asked of a probe supplied by the caller (the
//! file system, in the programs); the search is stated for every answer the
//! probe may give.
use vstd::prelude::*;
use crate::text::{chars_of, push_str, string_from_chars, string_views};

verus! {

/// Whether the probe, asked about some string with the characters `p`,
/// answered `b`.
pub open spec fn answered<F: Fn(&str) -> bool>(probe: F, p: Seq<char>, b: bool) -> bool {
    exists|s: &str| s@ == p && #[trigger] probe.ensures((s,), b)
}

/// The first candidate, in order, on which the probe answered yes; every
/// earlier one was answered no.
pub open spec fn first_yes<F: Fn(&str) -> bool>(probe: F, cands: Seq<Seq<char>>, k: int) -> bool {
    &&& 0 <= k < cands.len()
    &&& answered(probe, cands[k], true)
    &&& forall|j: int| 0 <= j < k ==> answered(probe, #[trigger] cands[j], false)
}

/// The probe answered no on every candidate.
pub open spec fn all_no<F: Fn(&str) -> bool>(probe: F, cands: Seq<Seq<char>>) -> bool {
    forall|j: int| 0 <= j < cands.len() ==> answered(probe, #[trigger] cands[j], false)
}

/// Asks the probe about each candidate in turn and returns the position of
/// the first one it accepts.
pub fn first_existing<F: Fn(&str) -> bool>(cands: &Vec<String>, probe: &F) -> (r: Option<usize>)
    requires
        forall|s: &str| #[trigger] probe.requires((s,)),
    ensures
        match r {
            Some(k) => first_yes(*probe, string_views(cands@), k as int),
            None => all_no(*probe, string_views(cands@)),
        },
{
    let ghost cs = string_views(cands@);
    let mut i: usize = 0;
    while i < cands.len()
        invariant
            i <= cands.len(),
            cs == string_views(cands@),
            forall|s: &str| #[trigger] probe.requires((s,)),
            forall|j: int| 0 <= j < i ==> answered(*probe, #[trigger] cs[j], false),
        decreases cands.len() - i,
    {
        let p = cands[i].as_str();
        let b = probe(p);
        assert(answered(*probe, cs[i as int], b));
        if b {
            return Some(i);
        }
        i = i + 1;
    }
    None
}

// ---------------------------------------------------------------------------
// Application icon paths (dock and launcher)
// ---------------------------------------------------------------------------

pub open spec fn app_icon_base(i: int) -> Seq<char> {
    if i == 0 {
        "/usr/share/icons"@
    } else {
        "/usr/local/share/icons"@
    }
}

pub open spec fn app_icon_theme(i: int) -> Seq<char> {
    if i == 0 {
        "hicolor"@
    } else if i == 1 {
        "breeze-dark"@
    } else {
        "breeze"@
    }
}

pub open spec fn app_icon_size(i: int) -> Seq<char> {
    if i == 0 {
        "48x48"@
    } else if i == 1 {
        "64x64"@
    } else if i == 2 {
        "scalable"@
    } else if i == 3 {
        "256x256"@
    } else if i == 4 {
        "128x128"@
    } else {
        "32x32"@
    }
}

pub open spec fn app_icon_category(i: int) -> Seq<char> {
    if i == 0 {
        "apps"@
    } else {
        "applications"@
    }
}

pub open spec fn image_ext(i: int) -> Seq<char> {
    if i == 0 {
        ".svg"@
    } else {
        ".png"@
    }
}

/// The `i`-th path where an application icon is looked for: first the
/// theme directories (base, then theme, then size, then category, SVG
/// before PNG), then `/usr/share/pixmaps` as PNG and then as SVG.
pub open spec fn app_icon_candidate(name: Seq<char>, i: int) -> Seq<char> {
    if i < 144 {
        app_icon_base(i / 72) + "/"@ + app_icon_theme((i / 24) % 3) + "/"@ + app_icon_size(
            (i / 4) % 6,
        ) + "/"@ + app_icon_category((i / 2) % 2) + "/"@ + name + image_ext(i % 2)
    } else if i == 144 {
        "/usr/share/pixmaps/"@ + name + ".png"@
    } else {
        "/usr/share/pixmaps/"@ + name + ".svg"@
    }
}

pub open spec fn app_icon_candidates(name: Seq<char>) -> Seq<Seq<char>> {
    Seq::new(146, |i: int| app_icon_candidate(name, i))
}

fn app_icon_base_str(i: usize) -> (r: &'static str)
    ensures
        r@ == app_icon_base(i as int),
{
    if i == 0 {
        "/usr/share/icons"
    } else {
        "/usr/local/share/icons"
    }
}

fn app_icon_theme_str(i: usize) -> (r: &'static str)
    ensures
        r@ == app_icon_theme(i as int),
{
    if i == 0 {
        "hicolor"
    } else if i == 1 {
        "breeze-dark"
    } else {
        "breeze"
    }
}

fn app_icon_size_str(i: usize) -> (r: &'static str)
    ensures
        r@ == app_icon_size(i as int),
{
    if i == 0 {
        "48x48"
    } else if i == 1 {
        "64x64"
    } else if i == 2 {
        "scalable"
    } else if i == 3 {
        "256x256"
    } else if i == 4 {
        "128x128"
    } else {
        "32x32"
    }
}

fn app_icon_category_str(i: usize) -> (r: &'static str)
    ensures
        r@ == app_icon_category(i as int),
{
    if i == 0 {
        "apps"
    } else {
        "applications"
    }
}

fn image_ext_str(i: usize) -> (r: &'static str)
    ensures
        r@ == image_ext(i as int),
{
    if i == 0 {
        ".svg"
    } else {
        ".png"
    }
}

fn app_icon_candidate_string(name: &str, i: usize) -> (r: String)
    requires
        i < 146,
    ensures
        r@ == app_icon_candidate(name@, i as int),
{
    let mut out: Vec<char> = Vec::new();
    if i < 144 {
        push_str(&mut out, app_icon_base_str(i / 72));
        push_str(&mut out, "/");
        push_str(&mut out, app_icon_theme_str((i / 24) % 3));
        push_str(&mut out, "/");
        push_str(&mut out, app_icon_size_str((i / 4) % 6));
        push_str(&mut out, "/");
        push_str(&mut out, app_icon_category_str((i / 2) % 2));
        push_str(&mut out, "/");
        push_str(&mut out, name);
        push_str(&mut out, image_ext_str(i % 2));
    } else if i == 144 {
        push_str(&mut out, "/usr/share/pixmaps/");
        push_str(&mut out, name);
        push_str(&mut out, ".png");
    } else {
        push_str(&mut out, "/usr/share/pixmaps/");
        push_str(&mut out, name);
        push_str(&mut out, ".svg");
    }
    assert(out@ =~= app_icon_candidate(name@, i as int));
    string_from_chars(&out)
}

/// The paths, in search order, where an application icon named `icon_name`
/// is looked for.
pub fn icon_path_candidates(icon_name: &str) -> (r: Vec<String>)
    ensures
        string_views(r@) == app_icon_candidates(icon_name@),
{
    let mut out: Vec<String> = Vec::new();
    let mut i: usize = 0;
    while i < 146
        invariant
            i <= 146,
            out.len() == i,
            string_views(out@) == Seq::new(i as nat, |k: int| app_icon_candidate(icon_name@, k)),
        decreases 146 - i,
    {
        let c = app_icon_candidate_string(icon_name, i);
        let ghost before = out@;
        out.push(c);
        assert forall|k: int| 0 <= k < i + 1 implies #[trigger] string_views(out@)[k]
            == app_icon_candidate(icon_name@, k) by {
            if k < i {
                assert(out@[k] == before[k]);
                assert(string_views(before)[k] == app_icon_candidate(icon_name@, k));
            }
        }
        i = i + 1;
        assert(string_views(out@) =~= Seq::new(i as nat, |k: int| app_icon_candidate(icon_name@, k)));
    }
    assert(app_icon_candidates(icon_name@) =~= Seq::new(146, |k: int| app_icon_candidate(icon_name@, k)));
    out
}

/// Find the file of an application icon. An absolute name is taken as is
/// when it exists; otherwise the theme directories and then
/// `/usr/share/pixmaps` are searched, and the first existing candidate of
/// `icon_path_candidates` is returned.
pub fn find_icon_path<F: Fn(&str) -> bool>(icon_name: &str, path_exists: &F) -> (r: Option<String>)
    requires
        forall|s: &str| #[trigger] path_exists.requires((s,)),
    ensures
        ({
            let abs = icon_name@.len() > 0 && icon_name@[0] == '/';
            let cands = app_icon_candidates(icon_name@);
            match r {
                Some(p) => (abs && p@ == icon_name@ && answered(*path_exists, icon_name@, true)) || (
                (abs ==> answered(*path_exists, icon_name@, false)) && exists|k: int|
                    first_yes(*path_exists, cands, k) && #[trigger] cands[k] == p@),
                None => (abs ==> answered(*path_exists, icon_name@, false)) && all_no(*path_exists, cands),
            }
        }),
{
    let name = chars_of(icon_name);
    if name.len() > 0 && name[0] == '/' {
        let b = path_exists(icon_name);
        assert(answered(*path_exists, icon_name@, b));
        if b {
            return Some(icon_name.to_owned());
        }
    }
    let cands = icon_path_candidates(icon_name);
    match first_existing(&cands, path_exists) {
        Some(k) => {
            let p = cands[k].clone();
            assert(app_icon_candidates(icon_name@)[k as int] == p@);
            Some(p)
        },
        None => None,
    }
}

// ---------------------------------------------------------------------------
// Icon packs and the icon registry
// ---------------------------------------------------------------------------

/// The data stored under `name` in a list of (name, data) entries: that of
/// the first entry with this name.
pub open spec fn entry_lookup(entries: Seq<(String, String)>, name: Seq<char>) -> Option<Seq<char>>
    decreases entries.len(),
{
    if entries.len() == 0 {
        None
    } else if entries[0].0@ == name {
        Some(entries[0].1@)
    } else {
        entry_lookup(entries.drop_first(), name)
    }
}

/// The names of a list of (name, data) entries, in order.
pub open spec fn entry_names(entries: Seq<(String, String)>) -> Seq<Seq<char>> {
    entries.map_values(|e: (String, String)| e.0@)
}

/// Index of the first entry named `name`.
pub open spec fn entry_index(entries: Seq<(String, String)>, name: Seq<char>) -> Option<int>
    decreases entries.len(),
{
    if entries.len() == 0 {
        None
    } else if entries[0].0@ == name {
        Some(0)
    } else {
        match entry_index(entries.drop_first(), name) {
            Some(i) => Some(i + 1),
            None => None,
        }
    }
}

proof fn lemma_entry_index(entries: Seq<(String, String)>, name: Seq<char>, i: int)
    requires
        0 <= i < entries.len(),
        entries[i].0@ == name,
        forall|j: int| 0 <= j < i ==> #[trigger] entries[j].0@ != name,
    ensures
        entry_index(entries, name) == Some(i),
        entry_lookup(entries, name) == Some(entries[i].1@),
    decreases i,
{
    if i > 0 {
        lemma_entry_index(entries.drop_first(), name, i - 1);
    }
}

proof fn lemma_entry_absent(entries: Seq<(String, String)>, name: Seq<char>)
    requires
        forall|j: int| 0 <= j < entries.len() ==> #[trigger] entries[j].0@ != name,
    ensures
        entry_index(entries, name) is None,
        entry_lookup(entries, name) is None,
    decreases entries.len(),
{
    if entries.len() > 0 {
        let rest = entries.drop_first();
        assert forall|j: int| 0 <= j < rest.len() implies #[trigger] rest[j].0@ != name by {
            assert(rest[j] == entries[j + 1]);
        }
        lemma_entry_absent(rest, name);
    }
}

proof fn lemma_lookup_agree(a: Seq<(String, String)>, b: Seq<(String, String)>, q: Seq<char>)
    requires
        a.len() == b.len(),
        forall|j: int| 0 <= j < a.len() ==> (#[trigger] a[j].0@ == q <==> b[j].0@ == q),
        forall|j: int| 0 <= j < a.len() && a[j].0@ == q ==> #[trigger] a[j].1@ == b[j].1@,
    ensures
        entry_lookup(a, q) == entry_lookup(b, q),
    decreases a.len(),
{
    if a.len() > 0 {
        let a1 = a.drop_first();
        let b1 = b.drop_first();
        assert forall|j: int| 0 <= j < a1.len() implies (#[trigger] a1[j].0@ == q <==> b1[j].0@ == q) by {
            assert(a[j + 1].0@ == q <==> b[j + 1].0@ == q);
        }
        assert forall|j: int| 0 <= j < a1.len() && a1[j].0@ == q implies #[trigger] a1[j].1@ == b1[j].1@ by {
            assert(a[j + 1].0@ == q ==> a[j + 1].1@ == b[j + 1].1@);
        }
        assert(a[0].0@ == q <==> b[0].0@ == q);
        lemma_lookup_agree(a1, b1, q);
    }
}

proof fn lemma_lookup_push(a: Seq<(String, String)>, x: (String, String), q: Seq<char>)
    requires
        x.0@ != q,
    ensures
        entry_lookup(a.push(x), q) == entry_lookup(a, q),
    decreases a.len(),
{
    let ax = a.push(x);
    if a.len() == 0 {
        assert(ax[0] == x);
        assert(ax.drop_first().len() == 0);
        assert(entry_lookup(ax.drop_first(), q) is None);
    } else {
        assert(ax[0] == a[0]);
        assert(ax.drop_first() =~= a.drop_first().push(x));
        lemma_lookup_push(a.drop_first(), x, q);
    }
}

/// Replacing the data of the first entry named `name` stores the new data
/// under `name` and leaves every other name as it was.
proof fn lemma_entry_replace(
    entries: Seq<(String, String)>,
    updated: Seq<(String, String)>,
    name: Seq<char>,
    data: Seq<char>,
    i: int,
)
    requires
        0 <= i < entries.len(),
        entries[i].0@ == name,
        forall|j: int| 0 <= j < i ==> #[trigger] entries[j].0@ != name,
        updated.len() == entries.len(),
        updated[i].0@ == name,
        updated[i].1@ == data,
        forall|j: int| 0 <= j < entries.len() && j != i ==> #[trigger] updated[j] == entries[j],
    ensures
        forall|q: Seq<char>|
            #[trigger] entry_lookup(updated, q) == if q == name {
                Some(data)
            } else {
                entry_lookup(entries, q)
            },
{
    assert forall|q: Seq<char>| #[trigger] entry_lookup(updated, q) == if q == name {
        Some(data)
    } else {
        entry_lookup(entries, q)
    } by {
        if q == name {
            assert forall|j: int| 0 <= j < i implies #[trigger] updated[j].0@ != name by {
                assert(updated[j] == entries[j]);
            }
            lemma_entry_index(updated, name, i);
        } else {
            assert forall|j: int| 0 <= j < updated.len() implies (#[trigger] updated[j].0@ == q
                <==> entries[j].0@ == q) by {
                if j != i {
                    assert(updated[j] == entries[j]);
                }
            }
            assert forall|j: int| 0 <= j < updated.len() && updated[j].0@ == q implies
                #[trigger] updated[j].1@ == entries[j].1@ by {
                assert(updated[j] == entries[j]);
            }
            lemma_lookup_agree(updated, entries, q);
        }
    }
}

/// Appending an entry for a name that no entry has stores the data under
/// that name and leaves every other name as it was.
proof fn lemma_entry_append(
    entries: Seq<(String, String)>,
    x: (String, String),
)
    requires
        forall|j: int| 0 <= j < entries.len() ==> #[trigger] entries[j].0@ != x.0@,
    ensures
        forall|q: Seq<char>|
            #[trigger] entry_lookup(entries.push(x), q) == if q == x.0@ {
                Some(x.1@)
            } else {
                entry_lookup(entries, q)
            },
{
    let updated = entries.push(x);
    assert forall|q: Seq<char>| #[trigger] entry_lookup(updated, q) == if q == x.0@ {
        Some(x.1@)
    } else {
        entry_lookup(entries, q)
    } by {
        if q == x.0@ {
            assert forall|j: int| 0 <= j < entries.len() implies #[trigger] updated[j].0@ != q by {
                assert(updated[j] == entries[j]);
            }
            lemma_entry_index(updated, q, entries.len() as int);
        } else {
            lemma_lookup_push(entries, x, q);
        }
    }
}

/// Store `data` under `name`: replace the data of the first entry named
/// `name`, or append a new entry.
fn entries_insert(entries: &mut Vec<(String, String)>, name: &str, data: &str)
    ensures
        entry_names(final(entries)@).to_set() == entry_names(old(entries)@).to_set().insert(name@),
        entry_names(old(entries)@).no_duplicates() ==> entry_names(final(entries)@).no_duplicates(),
        forall|q: Seq<char>|
            #[trigger] entry_lookup(final(entries)@, q) == if q == name@ {
                Some(data@)
            } else {
                entry_lookup(old(entries)@, q)
            },
{
    let key = name.to_owned();
    let mut i: usize = 0;
    while i < entries.len()
        invariant
            i <= entries.len(),
            entries@ == old(entries)@,
            key@ == name@,
            forall|j: int| 0 <= j < i ==> #[trigger] entries@[j].0@ != name@,
        decreases entries.len() - i,
    {
        if entries[i].0 == key {
            proof {
                lemma_entry_index(entries@, name@, i as int);
            }
            let ghost before = entries@;
            entries.set(i, (key, data.to_owned()));
            proof {
                lemma_entry_replace(before, entries@, name@, data@, i as int);
                assert(entry_names(entries@) =~= entry_names(before));
                assert(entry_names(before)[i as int] == name@);
                assert(entry_names(before).to_set().insert(name@) =~= entry_names(before).to_set());
            }
            return;
        }
        i = i + 1;
    }
    proof {
        lemma_entry_absent(entries@, name@);
    }
    let ghost before = entries@;
    entries.push((key, data.to_owned()));
    proof {
        lemma_entry_append(before, entries@.last());
        assert(entries@ =~= before.push(entries@.last()));
        assert(entry_names(entries@) =~= entry_names(before).push(name@));
        assert(!entry_names(before).contains(name@)) by {
            if entry_names(before).contains(name@) {
                let j = choose|j: int| 0 <= j < entry_names(before).len() && entry_names(before)[j] == name@;
                assert(before[j].0@ == name@);
            }
        }
        assert(entry_names(before).push(name@).to_set() =~= entry_names(before).to_set().insert(name@)) by {
            broadcast use vstd::seq_lib::group_seq_properties;
        }
    }
}

fn entries_get(entries: &Vec<(String, String)>, name: &str) -> (r: Option<String>)
    ensures
        match entry_lookup(entries@, name@) {
            Some(d) => r is Some && r->0@ == d,
            None => r is None,
        },
{
    let key = name.to_owned();
    let mut i: usize = 0;
    while i < entries.len()
        invariant
            i <= entries.len(),
            key@ == name@,
            forall|j: int| 0 <= j < i ==> #[trigger] entries@[j].0@ != name@,
        decreases entries.len() - i,
    {
        if entries[i].0 == key {
            proof {
                lemma_entry_index(entries@, name@, i as int);
            }
            return Some(entries[i].1.clone());
        }
        i = i + 1;
    }
    proof {
        assert forall|j: int| 0 <= j < entries@.len() implies #[trigger] entries@[j].0@ != name@ by {
            assert(j < i);
        }
        lemma_entry_absent(entries@, name@);
    }
    None
}

/// A named collection of SVG icons, keyed by icon name.
#[derive(Debug, Clone)]
pub struct IconPack {
    pub name: String,
    /// (icon name, SVG data) entries.
    pub icons: Vec<(String, String)>,
}

impl IconPack {
    /// A new empty icon pack.
    pub fn new(name: &str) -> (r: Self)
        ensures
            r.name@ == name@,
            r.icons@.len() == 0,
            forall|q: Seq<char>| #[trigger] entry_lookup(r.icons@, q) is None,
    {
        IconPack { name: name.to_owned(), icons: Vec::new() }
    }

    /// Add an icon, replacing any icon of the same name.
    pub fn add(&mut self, name: &str, svg_data: &str)
        ensures
            final(self).name == old(self).name,
            entry_names(final(self).icons@).to_set() == entry_names(old(self).icons@).to_set().insert(name@),
            entry_names(old(self).icons@).no_duplicates() ==> entry_names(final(self).icons@).no_duplicates(),
            forall|q: Seq<char>|
                #[trigger] entry_lookup(final(self).icons@, q) == if q == name@ {
                    Some(svg_data@)
                } else {
                    entry_lookup(old(self).icons@, q)
                },
    {
        entries_insert(&mut self.icons, name, svg_data);
    }

    /// Load the SVG files of a directory, given as (file stem, SVG data)
    /// pairs in the order the directory listed them: each is added under its
    /// stem. Returns how many icons were loaded.
    pub fn load_directory(&mut self, files: &Vec<(String, String)>) -> (count: usize)
        ensures
            count == files.len(),
            final(self).name == old(self).name,
            entry_names(final(self).icons@).to_set() == entry_names(old(self).icons@).to_set()
                + entry_names(files@).to_set(),
            entry_names(old(self).icons@).no_duplicates() ==> entry_names(final(self).icons@).no_duplicates(),
            forall|q: Seq<char>|
                #[trigger] entry_lookup(final(self).icons@, q) == match last_entry(files@, q) {
                    Some(d) => Some(d),
                    None => entry_lookup(old(self).icons@, q),
                },
    {
        let mut i: usize = 0;
        assert(files@.take(0) =~= Seq::<(String, String)>::empty());
        while i < files.len()
            invariant
                i <= files.len(),
                self.name == old(self).name,
                entry_names(self.icons@).to_set() == entry_names(old(self).icons@).to_set()
                    + entry_names(files@.take(i as int)).to_set(),
                entry_names(old(self).icons@).no_duplicates() ==> entry_names(self.icons@).no_duplicates(),
                forall|q: Seq<char>|
                    #[trigger] entry_lookup(self.icons@, q) == match last_entry(files@.take(i as int), q) {
                        Some(d) => Some(d),
                        None => entry_lookup(old(self).icons@, q),
                    },
            decreases files.len() - i,
        {
            let ghost before = self.icons@;
            let (stem, data) = (&files[i].0, &files[i].1);
            self.add(stem.as_str(), data.as_str());
            assert(files@.take(i + 1).drop_last() =~= files@.take(i as int));
            assert(files@.take(i + 1).last() == files@[i as int]);
            proof {
                assert(entry_names(files@.take(i + 1)) =~= entry_names(files@.take(i as int)).push(files@[i as int].0@));
                assert(entry_names(files@.take(i + 1)).to_set() =~= entry_names(files@.take(i as int)).to_set().insert(
                    files@[i as int].0@,
                )) by {
                    broadcast use vstd::seq_lib::group_seq_properties;
                }
                assert(entry_names(self.icons@).to_set() =~= entry_names(old(self).icons@).to_set()
                    + entry_names(files@.take(i + 1)).to_set());
            }
            i = i + 1;
        }
        assert(files@.take(files.len() as int) =~= files@);
        files.len()
    }
}

/// The data of the last of `entries` named `name`.
pub open spec fn last_entry(entries: Seq<(String, String)>, name: Seq<char>) -> Option<Seq<char>>
    decreases entries.len(),
{
    if entries.len() == 0 {
        None
    } else if entries.last().0@ == name {
        Some(entries.last().1@)
    } else {
        last_entry(entries.drop_last(), name)
    }
}

/// A resolved icon: inline SVG data or a file path.
#[derive(Debug, Clone)]
pub enum ResolvedIcon {
    /// Inline SVG data.
    Svg(String),
    /// Path of an SVG or PNG file.
    File(String),
}

/// Icon registry: inline icons first, then icon packs in registration
/// order, then freedesktop icon-theme directories.
#[derive(Debug, Clone)]
pub struct IconRegistry {
    inline: Vec<(String, String)>,
    packs: Vec<IconPack>,
    theme_paths: Vec<String>,
    theme: String,
}

/// SVG data of the first pack, in order, that has an icon named `name`.
pub open spec fn packs_lookup(packs: Seq<IconPack>, name: Seq<char>) -> Option<Seq<char>>
    decreases packs.len(),
{
    if packs.len() == 0 {
        None
    } else {
        match entry_lookup(packs[0].icons@, name) {
            Some(d) => Some(d),
            None => packs_lookup(packs.drop_first(), name),
        }
    }
}

pub open spec fn registry_size(i: int) -> Seq<char> {
    if i == 0 {
        "scalable"@
    } else if i == 1 {
        "48x48"@
    } else if i == 2 {
        "64x64"@
    } else if i == 3 {
        "256x256"@
    } else if i == 4 {
        "128x128"@
    } else if i == 5 {
        "32x32"@
    } else if i == 6 {
        "24x24"@
    } else if i == 7 {
        "22x22"@
    } else {
        "16x16"@
    }
}

pub open spec fn registry_category(i: int) -> Seq<char> {
    if i == 0 {
        "apps"@
    } else if i == 1 {
        "applications"@
    } else if i == 2 {
        "actions"@
    } else if i == 3 {
        "categories"@
    } else if i == 4 {
        "devices"@
    } else if i == 5 {
        "emblems"@
    } else if i == 6 {
        "mimetypes"@
    } else if i == 7 {
        "places"@
    } else {
        "status"@
    }
}

/// The `j`-th candidate (of 324) under one theme path: the active theme
/// then "hicolor", nine sizes, nine categories, SVG before PNG.
pub open spec fn registry_theme_candidate(base: Seq<char>, theme: Seq<char>, name: Seq<char>, j: int) -> Seq<char> {
    base + "/"@ + (if j / 162 == 0 {
        theme
    } else {
        "hicolor"@
    }) + "/"@ + registry_size((j / 18) % 9) + "/"@ + registry_category((j / 2) % 9) + "/"@
        + name + image_ext(j % 2)
}

/// Every path, in search order, where the registry looks for an icon file:
/// 324 under each theme path, then `/usr/share/pixmaps` as SVG and as PNG.
pub open spec fn registry_candidates(paths: Seq<Seq<char>>, theme: Seq<char>, name: Seq<char>) -> Seq<Seq<char>> {
    Seq::new(
        (paths.len() * 324 + 2) as nat,
        |i: int|
            if i < paths.len() * 324 {
                registry_theme_candidate(paths[i / 324], theme, name, i % 324)
            } else {
                "/usr/share/pixmaps/"@ + name + image_ext(i - paths.len() * 324)
            },
    )
}

/// The theme-directory path of size `si`, category `ci` and extension `e`
/// under base `base` and theme `theme`, named by the freedesktop layout:
/// sizes scalable, 48x48, 64x64, 256x256, 128x128, 32x32, 24x24, 22x22,
/// 16x16; categories apps, applications, actions, categories, devices,
/// emblems, mimetypes, places, status; extensions .svg and .png.
pub open spec fn layout_path(base: Seq<char>, theme: Seq<char>, si: int, ci: int, name: Seq<char>, e: int) -> Seq<char> {
    let sizes = seq![
        "scalable"@,
        "48x48"@,
        "64x64"@,
        "256x256"@,
        "128x128"@,
        "32x32"@,
        "24x24"@,
        "22x22"@,
        "16x16"@,
    ];
    let cats = seq![
        "apps"@,
        "applications"@,
        "actions"@,
        "categories"@,
        "devices"@,
        "emblems"@,
        "mimetypes"@,
        "places"@,
        "status"@,
    ];
    let exts = seq![".svg"@, ".png"@];
    base + "/"@ + theme + "/"@ + sizes[si] + "/"@ + cats[ci] + "/"@ + name + exts[e]
}

/// Every path of the freedesktop layout is searched: for each theme path,
/// the active theme and "hicolor", each of the nine sizes, each of the nine
/// categories and both extensions, the path is among the candidates, the
/// active theme's before hicolor's.
pub proof fn lemma_every_layout_path_searched(
    paths: Seq<Seq<char>>,
    theme: Seq<char>,
    name: Seq<char>,
    b: int,
    si: int,
    ci: int,
    e: int,
)
    requires
        0 <= b < paths.len(),
        0 <= si < 9,
        0 <= ci < 9,
        0 <= e < 2,
    ensures
        ({
            let c = registry_candidates(paths, theme, name);
            let k = b * 324 + si * 18 + ci * 2 + e;
            &&& 0 <= k < c.len()
            &&& c[k] == layout_path(paths[b], theme, si, ci, name, e)
            &&& c[k + 162] == layout_path(paths[b], "hicolor"@, si, ci, name, e)
        }),
{
    let j = si * 18 + ci * 2 + e;
    assert(0 <= j < 162);
    lemma_candidate_index(paths.len() as int, b, j);
    lemma_candidate_index(paths.len() as int, b, j + 162);
    assert(j / 162 == 0 && (j / 18) % 9 == si && (j / 2) % 9 == ci && j % 2 == e) by (nonlinear_arith)
        requires
            j == si * 18 + ci * 2 + e,
            0 <= si < 9,
            0 <= ci < 9,
            0 <= e < 2,
    ;
    assert((j + 162) / 162 == 1 && ((j + 162) / 18) % 9 == si && ((j + 162) / 2) % 9 == ci && (j + 162) % 2 == e)
        by (nonlinear_arith)
        requires
            j == si * 18 + ci * 2 + e,
            0 <= si < 9,
            0 <= ci < 9,
            0 <= e < 2,
    ;
    let sizes = seq![
        "scalable"@,
        "48x48"@,
        "64x64"@,
        "256x256"@,
        "128x128"@,
        "32x32"@,
        "24x24"@,
        "22x22"@,
        "16x16"@,
    ];
    let cats = seq![
        "apps"@,
        "applications"@,
        "actions"@,
        "categories"@,
        "devices"@,
        "emblems"@,
        "mimetypes"@,
        "places"@,
        "status"@,
    ];
    let exts = seq![".svg"@, ".png"@];
    assert(registry_size(si) == sizes[si]) by {
        if si == 0 {} else if si == 1 {} else if si == 2 {} else if si == 3 {} else if si == 4 {} else if si == 5 {} else if si == 6 {} else if si == 7 {} else {}
    }
    assert(registry_category(ci) == cats[ci]) by {
        if ci == 0 {} else if ci == 1 {} else if ci == 2 {} else if ci == 3 {} else if ci == 4 {} else if ci == 5 {} else if ci == 6 {} else if ci == 7 {} else {}
    }
    assert(image_ext(e) == exts[e]) by {
        if e == 0 {} else {}
    }
}

/// Candidate `b * 324 + j` is the `j`-th under theme path `b`.
proof fn lemma_candidate_index(n: int, b: int, j: int)
    requires
        0 <= b < n,
        0 <= j < 324,
    ensures
        (b * 324 + j) / 324 == b,
        (b * 324 + j) % 324 == j,
        b * 324 + j < n * 324,
        (b + 1) * 324 == b * 324 + 324,
{
    assert((b * 324 + j) / 324 == b && (b * 324 + j) % 324 == j) by (nonlinear_arith)
        requires
            0 <= j < 324,
    ;
    assert(b * 324 + j < n * 324) by (nonlinear_arith)
        requires
            b < n,
            j < 324,
    ;
    assert((b + 1) * 324 == b * 324 + 324) by (nonlinear_arith);
}

/// The `e`-th candidate under `/usr/share/pixmaps`.
fn pixmap_candidate(name: &str, e: usize) -> (r: String)
    requires
        e < 2,
    ensures
        r@ == "/usr/share/pixmaps/"@ + name@ + image_ext(e as int),
{
    let mut v: Vec<char> = Vec::new();
    push_str(&mut v, "/usr/share/pixmaps/");
    push_str(&mut v, name);
    push_str(&mut v, image_ext_str(e));
    string_from_chars(&v)
}

fn registry_size_str(i: usize) -> (r: &'static str)
    ensures
        r@ == registry_size(i as int),
{
    if i == 0 {
        "scalable"
    } else if i == 1 {
        "48x48"
    } else if i == 2 {
        "64x64"
    } else if i == 3 {
        "256x256"
    } else if i == 4 {
        "128x128"
    } else if i == 5 {
        "32x32"
    } else if i == 6 {
        "24x24"
    } else if i == 7 {
        "22x22"
    } else {
        "16x16"
    }
}

fn registry_category_str(i: usize) -> (r: &'static str)
    ensures
        r@ == registry_category(i as int),
{
    if i == 0 {
        "apps"
    } else if i == 1 {
        "applications"
    } else if i == 2 {
        "actions"
    } else if i == 3 {
        "categories"
    } else if i == 4 {
        "devices"
    } else if i == 5 {
        "emblems"
    } else if i == 6 {
        "mimetypes"
    } else if i == 7 {
        "places"
    } else {
        "status"
    }
}

impl IconRegistry {
    /// The active freedesktop theme.
    pub closed spec fn theme_name(&self) -> Seq<char> {
        self.theme@
    }

    /// The freedesktop theme search paths.
    pub closed spec fn search_paths(&self) -> Seq<Seq<char>> {
        string_views(self.theme_paths@)
    }

    /// Inline SVG data registered under `name`.
    pub closed spec fn inline_icon(&self, name: Seq<char>) -> Option<Seq<char>> {
        entry_lookup(self.inline@, name)
    }

    /// The registered icon packs, in order.
    pub closed spec fn icon_packs(&self) -> Seq<IconPack> {
        self.packs@
    }

    /// A registry with no inline icons and no packs, searching
    /// "/usr/share/icons" and "/usr/local/share/icons" with theme "breeze-dark".
    pub fn new() -> (r: Self)
        ensures
            r.search_paths() == seq!["/usr/share/icons"@, "/usr/local/share/icons"@],
            r.theme_name() == "breeze-dark"@,
            forall|q: Seq<char>| #[trigger] r.inline_icon(q) is None,
            r.icon_packs().len() == 0,
    {
        let mut paths: Vec<String> = Vec::new();
        paths.push("/usr/share/icons".to_owned());
        paths.push("/usr/local/share/icons".to_owned());
        let r = IconRegistry {
            inline: Vec::new(),
            packs: Vec::new(),
            theme_paths: paths,
            theme: "breeze-dark".to_owned(),
        };
        assert(r.search_paths() =~= seq!["/usr/share/icons"@, "/usr/local/share/icons"@]);
        r
    }

    /// Set the active freedesktop theme.
    pub fn set_theme(&mut self, theme: &str)
        ensures
            final(self).theme_name() == theme@,
            final(self).search_paths() == old(self).search_paths(),
            forall|q: Seq<char>| #[trigger] final(self).inline_icon(q) == old(self).inline_icon(q),
            final(self).icon_packs() == old(self).icon_packs(),
    {
        self.theme = theme.to_owned();
    }

    /// Register an inline SVG icon, replacing any of the same name.
    pub fn register(&mut self, name: &str, svg_data: &str)
        ensures
            forall|q: Seq<char>|
                #[trigger] final(self).inline_icon(q) == if q == name@ {
                    Some(svg_data@)
                } else {
                    old(self).inline_icon(q)
                },
            final(self).theme_name() == old(self).theme_name(),
            final(self).search_paths() == old(self).search_paths(),
            final(self).icon_packs() == old(self).icon_packs(),
    {
        entries_insert(&mut self.inline, name, svg_data);
    }

    /// Register an icon pack, searched after those registered before it.
    pub fn register_pack(&mut self, pack: IconPack)
        ensures
            final(self).icon_packs() == old(self).icon_packs().push(pack),
            forall|q: Seq<char>| #[trigger] final(self).inline_icon(q) == old(self).inline_icon(q),
            final(self).theme_name() == old(self).theme_name(),
            final(self).search_paths() == old(self).search_paths(),
    {
        self.packs.push(pack);
    }

    /// The `j`-th candidate under theme path `b`.
    fn theme_candidate(&self, name: &str, b: usize, j: usize) -> (r: String)
        requires
            b < self.search_paths().len(),
            j < 324,
        ensures
            r@ == registry_theme_candidate(self.search_paths()[b as int], self.theme_name(), name@, j as int),
    {
        let mut v: Vec<char> = Vec::new();
        push_str(&mut v, self.theme_paths[b].as_str());
        push_str(&mut v, "/");
        if j / 162 == 0 {
            push_str(&mut v, self.theme.as_str());
        } else {
            push_str(&mut v, "hicolor");
        }
        push_str(&mut v, "/");
        push_str(&mut v, registry_size_str((j / 18) % 9));
        push_str(&mut v, "/");
        push_str(&mut v, registry_category_str((j / 2) % 9));
        push_str(&mut v, "/");
        push_str(&mut v, name);
        push_str(&mut v, image_ext_str(j % 2));
        assert(v@ =~= registry_theme_candidate(self.search_paths()[b as int], self.theme_name(), name@, j as int)) by {
            assert(self.search_paths()[b as int] == self.theme_paths@[b as int]@);
        }
        string_from_chars(&v)
    }

    /// Every path, in order, where an icon file named `name` is looked for.
    pub fn freedesktop_candidates(&self, name: &str) -> (r: Vec<String>)
        requires
            self.search_paths().len() * 324 + 2 <= usize::MAX,
        ensures
            string_views(r@) == registry_candidates(self.search_paths(), self.theme_name(), name@),
    {
        let ghost want = registry_candidates(self.search_paths(), self.theme_name(), name@);
        let ghost paths = self.search_paths();
        let mut out: Vec<String> = Vec::new();
        let mut b: usize = 0;
        while b < self.theme_paths.len()
            invariant
                b <= self.theme_paths.len(),
                paths == self.search_paths(),
                paths.len() == self.theme_paths.len(),
                want == registry_candidates(paths, self.theme_name(), name@),
                out.len() == b * 324,
                forall|k: int| 0 <= k < out.len() ==> #[trigger] string_views(out@)[k] == want[k],
            decreases self.theme_paths.len() - b,
        {
            let mut j: usize = 0;
            while j < 324
                invariant
                    b < self.theme_paths.len(),
                    j <= 324,
                    paths == self.search_paths(),
                    paths.len() == self.theme_paths.len(),
                    want == registry_candidates(paths, self.theme_name(), name@),
                    out.len() == b * 324 + j,
                    forall|k: int| 0 <= k < out.len() ==> #[trigger] string_views(out@)[k] == want[k],
                decreases 324 - j,
            {
                let c = self.theme_candidate(name, b, j);
                proof {
                    lemma_candidate_index(paths.len() as int, b as int, j as int);
                }
                let ghost before = out@;
                out.push(c);
                assert forall|k: int| 0 <= k < out.len() implies #[trigger] string_views(out@)[k]
                    == want[k] by {
                    if k < before.len() {
                        assert(out@[k] == before[k]);
                        assert(string_views(before)[k] == want[k]);
                    }
                }
                j = j + 1;
            }
            b = b + 1;
        }
        let mut e: usize = 0;
        while e < 2
            invariant
                e <= 2,
                paths.len() == self.theme_paths.len(),
                want == registry_candidates(paths, self.theme_name(), name@),
                out.len() == paths.len() * 324 + e,
                forall|k: int| 0 <= k < out.len() ==> #[trigger] string_views(out@)[k] == want[k],
            decreases 2 - e,
        {
            let c = pixmap_candidate(name, e);
            let ghost before = out@;
            out.push(c);
            assert forall|k: int| 0 <= k < out.len() implies #[trigger] string_views(out@)[k]
                == want[k] by {
                if k < before.len() {
                    assert(out@[k] == before[k]);
                    assert(string_views(before)[k] == want[k]);
                }
            }
            e = e + 1;
        }
        assert(string_views(out@) =~= want);
        out
    }

    /// Resolve an icon name: inline icons first, then packs in registration
    /// order, then the first file among `freedesktop_candidates` that exists.
    pub fn resolve<F: Fn(&str) -> bool>(&self, name: &str, path_exists: &F) -> (r: Option<ResolvedIcon>)
        requires
            forall|s: &str| #[trigger] path_exists.requires((s,)),
        ensures
            ({
                let cands = registry_candidates(self.search_paths(), self.theme_name(), name@);
                match self.inline_icon(name@) {
                    Some(d) => r matches Some(ResolvedIcon::Svg(s)) && s@ == d,
                    None => match packs_lookup(self.icon_packs(), name@) {
                        Some(d) => r matches Some(ResolvedIcon::Svg(s)) && s@ == d,
                        None => match r {
                            Some(ResolvedIcon::File(p)) => exists|k: int|
                                first_yes(*path_exists, cands, k) && #[trigger] cands[k] == p@,
                            Some(ResolvedIcon::Svg(_)) => false,
                            None => all_no(*path_exists, cands),
                        },
                    },
                }
            }),
    {
        if let Some(svg) = entries_get(&self.inline, name) {
            return Some(ResolvedIcon::Svg(svg));
        }
        let mut i: usize = 0;
        assert(self.packs@.subrange(0, self.packs@.len() as int) =~= self.packs@);
        while i < self.packs.len()
            invariant
                i <= self.packs.len(),
                entry_lookup(self.inline@, name@) is None,
                packs_lookup(self.packs@, name@) == packs_lookup(self.packs@.subrange(i as int, self.packs@.len() as int), name@),
            decreases self.packs.len() - i,
        {
            let ghost rest = self.packs@.subrange(i as int, self.packs@.len() as int);
            assert(rest.drop_first() =~= self.packs@.subrange(i + 1, self.packs@.len() as int));
            if let Some(svg) = entries_get(&self.packs[i].icons, name) {
                return Some(ResolvedIcon::Svg(svg));
            }
            i = i + 1;
        }
        assert(self.packs@.subrange(i as int, self.packs@.len() as int).len() == 0);
        match self.find_freedesktop_icon(name, path_exists) {
            Some(p) => Some(ResolvedIcon::File(p)),
            None => None,
        }
    }

    /// The first file among `freedesktop_candidates` that exists.
    pub fn find_freedesktop_icon<F: Fn(&str) -> bool>(&self, name: &str, path_exists: &F) -> (r: Option<String>)
        requires
            forall|s: &str| #[trigger] path_exists.requires((s,)),
        ensures
            ({
                let cands = registry_candidates(self.search_paths(), self.theme_name(), name@);
                match r {
                    Some(p) => exists|k: int| first_yes(*path_exists, cands, k) && #[trigger] cands[k] == p@,
                    None => all_no(*path_exists, cands),
                }
            }),
    {
        let ghost cands = registry_candidates(self.search_paths(), self.theme_name(), name@);
        let ghost paths = self.search_paths();
        let mut b: usize = 0;
        while b < self.theme_paths.len()
            invariant
                b <= self.theme_paths.len(),
                paths == self.search_paths(),
                paths.len() == self.theme_paths.len(),
                cands == registry_candidates(paths, self.theme_name(), name@),
                forall|s: &str| #[trigger] path_exists.requires((s,)),
                forall|k: int| 0 <= k < b * 324 ==> answered(*path_exists, #[trigger] cands[k], false),
            decreases self.theme_paths.len() - b,
        {
            let mut j: usize = 0;
            while j < 324
                invariant
                    b < self.theme_paths.len(),
                    j <= 324,
                    paths == self.search_paths(),
                    paths.len() == self.theme_paths.len(),
                    cands == registry_candidates(paths, self.theme_name(), name@),
                    forall|s: &str| #[trigger] path_exists.requires((s,)),
                    forall|k: int| 0 <= k < b * 324 + j ==> answered(*path_exists, #[trigger] cands[k], false),
                decreases 324 - j,
            {
                let c = self.theme_candidate(name, b, j);
                proof {
                    lemma_candidate_index(paths.len() as int, b as int, j as int);
                }
                let ghost k = b * 324 + j;
                let yes = path_exists(c.as_str());
                assert(answered(*path_exists, cands[k], yes));
                if yes {
                    assert(first_yes(*path_exists, cands, k));
                    assert(cands[k] == c@);
                    return Some(c);
                }
                j = j + 1;
            }
            b = b + 1;
        }
        let mut e: usize = 0;
        while e < 2
            invariant
                e <= 2,
                paths == self.search_paths(),
                paths.len() == self.theme_paths.len(),
                cands == registry_candidates(paths, self.theme_name(), name@),
                forall|s: &str| #[trigger] path_exists.requires((s,)),
                forall|k: int| 0 <= k < paths.len() * 324 + e ==> answered(*path_exists, #[trigger] cands[k], false),
            decreases 2 - e,
        {
            let c = pixmap_candidate(name, e);
            let ghost k = paths.len() * 324 + e;
            let yes = path_exists(c.as_str());
            assert(answered(*path_exists, cands[k], yes));
            if yes {
                assert(first_yes(*path_exists, cands, k));
                assert(cands[k] == c@);
                return Some(c);
            }
            e = e + 1;
        }
        None
    }

    /// Register a pack named `name` made of the SVG files of a directory,
    /// given as (file stem, SVG data) pairs in the order the directory
    /// listed them; returns how many icons were loaded. The pack holds one
    /// icon per distinct stem (the data of the last file with that stem);
    /// the stems of one directory's files are distinct, and then the pack
    /// holds as many icons as the count returned.
    pub fn register_pack_from_dir(&mut self, name: &str, files: &Vec<(String, String)>) -> (count: usize)
        ensures
            count == files.len(),
            final(self).icon_packs().len() == old(self).icon_packs().len() + 1,
            final(self).icon_packs().drop_last() == old(self).icon_packs(),
            final(self).icon_packs().last().name@ == name@,
            forall|q: Seq<char>|
                #[trigger] entry_lookup(final(self).icon_packs().last().icons@, q) == last_entry(files@, q),
            entry_names(final(self).icon_packs().last().icons@).no_duplicates(),
            entry_names(final(self).icon_packs().last().icons@).to_set() == entry_names(files@).to_set(),
            final(self).icon_packs().last().icons@.len() == entry_names(files@).to_set().len(),
            entry_names(files@).no_duplicates() ==> final(self).icon_packs().last().icons@.len() == count,
            forall|q: Seq<char>| #[trigger] final(self).inline_icon(q) == old(self).inline_icon(q),
            final(self).theme_name() == old(self).theme_name(),
            final(self).search_paths() == old(self).search_paths(),
    {
        let mut pack = IconPack::new(name);
        proof {
            assert(entry_names(pack.icons@) =~= Seq::<Seq<char>>::empty());
            assert(entry_names(pack.icons@).to_set() =~= Set::<Seq<char>>::empty());
        }
        let count = pack.load_directory(files);
        proof {
            assert(entry_names(pack.icons@).to_set() =~= entry_names(files@).to_set());
            entry_names(pack.icons@).unique_seq_to_set();
            if entry_names(files@).no_duplicates() {
                entry_names(files@).unique_seq_to_set();
            }
        }
        self.packs.push(pack);
        assert(self.packs@.drop_last() =~= old(self).packs@);
        count
    }
}

impl Default for IconRegistry {
    fn default() -> (r: Self)
        ensures
            r.search_paths() == seq!["/usr/share/icons"@, "/usr/local/share/icons"@],
            r.theme_name() == "breeze-dark"@,
            forall|q: Seq<char>| #[trigger] r.inline_icon(q) is None,
            r.icon_packs().len() == 0,
    {
        IconRegistry::new()
    }
}

} // verus!
