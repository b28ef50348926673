//! Window tracking for the dock: the windows the compositor announced, in
//! the order they appeared, the changes it reports on each, and the grouping
//! of those windows into one dock entry per application.
//!
//! The compositor's events arrive through `handle_window_announced` and
//! `handle_window_event`; the program that owns the protocol objects feeds
//! them in and performs the requests these return.
use vstd::prelude::*;
use crate::text::{
    begins_with, chars_of, lines, lines_of, push_str, string_from_chars, strip_prefix_range, trim,
    trim_range,
};

verus! {

/// Protocol state flag: the window is active.
pub const STATE_IS_ACTIVE: u32 = 0x1;

/// Protocol state flag: the window asks not to be shown in task bars.
pub const STATE_SKIP_TASKBAR: u32 = 0x4000;

/// One entry of the dock: an application and its windows.
#[derive(Debug, Clone)]
pub struct DockApp {
    pub app_id: String,
    pub name: String,
    pub icon_name: String,
    pub is_active: bool,
    pub window_count: u32,
}

/// What is known of one window.
#[derive(Debug)]
pub struct WindowInfo {
    pub app_id: String,
    pub title: String,
    pub icon_name: String,
    pub is_active: bool,
    pub skip_taskbar: bool,
    /// The compositor sends one spurious unmap while a window is set up;
    /// this records that it has been seen.
    pub seen_first_unmap: bool,
}

impl WindowInfo {
    /// A window of which nothing is known yet.
    pub open spec fn is_blank(self) -> bool {
        &&& self.app_id@ == Seq::<char>::empty()
        &&& self.title@ == Seq::<char>::empty()
        &&& self.icon_name@ == Seq::<char>::empty()
        &&& !self.is_active
        &&& !self.skip_taskbar
        &&& !self.seen_first_unmap
    }

    pub fn new() -> (r: Self)
        ensures
            r.is_blank(),
    {
        WindowInfo {
            app_id: String::new(),
            title: String::new(),
            icon_name: String::new(),
            is_active: false,
            skip_taskbar: false,
            seen_first_unmap: false,
        }
    }

    fn copy(&self) -> (r: Self)
        ensures
            r == *self,
    {
        WindowInfo {
            app_id: self.app_id.clone(),
            title: self.title.clone(),
            icon_name: self.icon_name.clone(),
            is_active: self.is_active,
            skip_taskbar: self.skip_taskbar,
            seen_first_unmap: self.seen_first_unmap,
        }
    }
}

impl Default for WindowInfo {
    fn default() -> (r: Self)
        ensures
            r.is_blank(),
    {
        WindowInfo::new()
    }
}

/// A change the compositor reports on a window.
pub enum WindowUpdate {
    Title(String),
    AppId(String),
    IconName(String),
    /// The window's state flags.
    State(u32),
}

/// An event of a single window, as the protocol delivers it.
pub enum WindowEvent {
    TitleChanged(String),
    AppIdChanged(String),
    ThemedIconNameChanged(String),
    StateChanged(u32),
    Unmapped,
    /// Any event the dock does not act on.
    Other,
}

/// The window after `u`.
pub open spec fn updated_info(w: WindowInfo, u: WindowUpdate) -> WindowInfo {
    match u {
        WindowUpdate::Title(t) => WindowInfo { title: t, ..w },
        WindowUpdate::AppId(a) => WindowInfo { app_id: a, ..w },
        WindowUpdate::IconName(n) => WindowInfo { icon_name: n, ..w },
        WindowUpdate::State(f) => WindowInfo {
            is_active: f & STATE_IS_ACTIVE != 0,
            skip_taskbar: f & STATE_SKIP_TASKBAR != 0,
            ..w
        },
    }
}

/// A state change with flags `f` makes a window active exactly when the
/// lowest bit of `f` (the active bit) is set, and leaves it out of the dock
/// exactly when bit 14 (the skip-taskbar bit) is set, whatever other bits
/// are set; its other fields stay. So adding bits to the flags never
/// clears either property: flags `f | x` give the properties of `f` or of `x`.
pub proof fn lemma_state_flags(w: WindowInfo, f: u32, x: u32)
    ensures
        updated_info(w, WindowUpdate::State(f)).is_active == (f % 2 == 1),
        updated_info(w, WindowUpdate::State(f)).skip_taskbar == ((f / 16384) % 2 == 1),
        updated_info(w, WindowUpdate::State(f)).app_id == w.app_id,
        updated_info(w, WindowUpdate::State(f)).title == w.title,
        updated_info(w, WindowUpdate::State(f)).icon_name == w.icon_name,
        updated_info(w, WindowUpdate::State(f)).seen_first_unmap == w.seen_first_unmap,
        updated_info(w, WindowUpdate::State(f | x)).is_active == (updated_info(w, WindowUpdate::State(f)).is_active
            || updated_info(w, WindowUpdate::State(x)).is_active),
        updated_info(w, WindowUpdate::State(f | x)).skip_taskbar == (updated_info(w, WindowUpdate::State(
            f,
        )).skip_taskbar || updated_info(w, WindowUpdate::State(x)).skip_taskbar),
{
    assert((f & 1u32 != 0u32) == (f % 2 == 1)) by (bit_vector);
    assert((f & 0x4000u32 != 0u32) == ((f / 16384) % 2 == 1)) by (bit_vector);
    assert(((f | x) & 1u32 != 0u32) == ((f & 1u32 != 0u32) || (x & 1u32 != 0u32))) by (bit_vector);
    assert(((f | x) & 0x4000u32 != 0u32) == ((f & 0x4000u32 != 0u32) || (x & 0x4000u32 != 0u32))) by (bit_vector);
}

/// Position of the window `id`.
pub open spec fn window_index(ws: Seq<(u32, WindowInfo)>, id: u32) -> Option<int>
    decreases ws.len(),
{
    if ws.len() == 0 {
        None
    } else if ws[0].0 == id {
        Some(0)
    } else {
        match window_index(ws.drop_first(), id) {
            Some(i) => Some(i + 1),
            None => None,
        }
    }
}

/// No window id occurs twice.
pub open spec fn ids_unique(ws: Seq<(u32, WindowInfo)>) -> bool {
    forall|i: int, j: int| 0 <= i < j < ws.len() ==> #[trigger] ws[i].0 != #[trigger] ws[j].0
}

proof fn lemma_window_index_at(ws: Seq<(u32, WindowInfo)>, id: u32, i: int)
    requires
        0 <= i < ws.len(),
        ws[i].0 == id,
        forall|j: int| 0 <= j < i ==> #[trigger] ws[j].0 != id,
    ensures
        window_index(ws, id) == Some(i),
    decreases i,
{
    if i > 0 {
        lemma_window_index_at(ws.drop_first(), id, i - 1);
    }
}

proof fn lemma_window_index_none(ws: Seq<(u32, WindowInfo)>, id: u32)
    requires
        forall|j: int| 0 <= j < ws.len() ==> #[trigger] ws[j].0 != id,
    ensures
        window_index(ws, id) is None,
    decreases ws.len(),
{
    if ws.len() > 0 {
        lemma_window_index_none(ws.drop_first(), id);
    }
}

/// The index found for `id` holds `id`, and no window before it does.
pub proof fn lemma_window_index_found(ws: Seq<(u32, WindowInfo)>, id: u32)
    ensures
        match window_index(ws, id) {
            Some(k) => 0 <= k < ws.len() && ws[k].0 == id,
            None => forall|j: int| 0 <= j < ws.len() ==> #[trigger] ws[j].0 != id,
        },
    decreases ws.len(),
{
    if ws.len() > 0 {
        lemma_window_index_found(ws.drop_first(), id);
        if ws[0].0 != id {
            match window_index(ws.drop_first(), id) {
                Some(k) => {},
                None => {
                    assert forall|j: int| 0 <= j < ws.len() implies #[trigger] ws[j].0 != id by {
                        if j > 0 {
                            assert(ws[j] == ws.drop_first()[j - 1]);
                        }
                    }
                },
            }
        }
    }
}

/// A window is shown in the dock when it has an application id and does
/// not ask to be left out of task bars.
pub open spec fn shown_in_dock(w: WindowInfo) -> bool {
    !w.skip_taskbar && w.app_id@.len() > 0
}

/// A dock entry before its icon is resolved: application id, name (the
/// title of its first window), icon name of its first window, whether any
/// of its windows is active, and how many windows it has.
pub type AppGroup = (Seq<char>, Seq<char>, Seq<char>, bool, nat);

/// Position of the group of application `app` in `gs`.
pub open spec fn group_index(gs: Seq<AppGroup>, app: Seq<char>) -> Option<int>
    decreases gs.len(),
{
    if gs.len() == 0 {
        None
    } else if gs[0].0 == app {
        Some(0)
    } else {
        match group_index(gs.drop_first(), app) {
            Some(i) => Some(i + 1),
            None => None,
        }
    }
}

/// The windows `ws`, taken in order, grouped by application: a group per
/// application in the order its first shown window appeared.
pub open spec fn group_windows(ws: Seq<(u32, WindowInfo)>) -> Seq<AppGroup>
    decreases ws.len(),
{
    if ws.len() == 0 {
        Seq::empty()
    } else {
        let gs = group_windows(ws.drop_last());
        let w = ws.last().1;
        if !shown_in_dock(w) {
            gs
        } else {
            match group_index(gs, w.app_id@) {
                Some(k) => gs.update(
                    k,
                    (gs[k].0, gs[k].1, gs[k].2, gs[k].3 || w.is_active, gs[k].4 + 1),
                ),
                None => gs.push((w.app_id@, w.title@, w.icon_name@, w.is_active, 1)),
            }
        }
    }
}

proof fn lemma_group_index_at(gs: Seq<AppGroup>, app: Seq<char>, i: int)
    requires
        0 <= i < gs.len(),
        gs[i].0 == app,
        forall|j: int| 0 <= j < i ==> #[trigger] gs[j].0 != app,
    ensures
        group_index(gs, app) == Some(i),
    decreases i,
{
    if i > 0 {
        lemma_group_index_at(gs.drop_first(), app, i - 1);
    }
}

proof fn lemma_group_index_none(gs: Seq<AppGroup>, app: Seq<char>)
    requires
        forall|j: int| 0 <= j < gs.len() ==> #[trigger] gs[j].0 != app,
    ensures
        group_index(gs, app) is None,
    decreases gs.len(),
{
    if gs.len() > 0 {
        lemma_group_index_none(gs.drop_first(), app);
    }
}

// ---------------------------------------------------------------------------
// Desktop files
// ---------------------------------------------------------------------------

/// The `Icon=` value of the first line of a desktop file that starts with
/// `Icon=`, trimmed.
pub open spec fn desktop_icon(contents: Seq<char>) -> Option<Seq<char>> {
    first_icon_line(lines(contents))
}

pub open spec fn first_icon_line(ls: Seq<Seq<char>>) -> Option<Seq<char>>
    decreases ls.len(),
{
    if ls.len() == 0 {
        None
    } else if begins_with(ls[0], "Icon="@) {
        Some(trim(ls[0].skip(5)))
    } else {
        first_icon_line(ls.drop_first())
    }
}

proof fn lemma_first_icon_line_at(ls: Seq<Seq<char>>, i: int)
    requires
        0 <= i < ls.len(),
        begins_with(ls[i], "Icon="@),
        forall|j: int| 0 <= j < i ==> !begins_with(#[trigger] ls[j], "Icon="@),
    ensures
        first_icon_line(ls) == Some(trim(ls[i].skip(5))),
    decreases i,
{
    if i > 0 {
        lemma_first_icon_line_at(ls.drop_first(), i - 1);
    }
}

proof fn lemma_first_icon_line_none(ls: Seq<Seq<char>>)
    requires
        forall|j: int| 0 <= j < ls.len() ==> !begins_with(#[trigger] ls[j], "Icon="@),
    ensures
        first_icon_line(ls) is None,
    decreases ls.len(),
{
    if ls.len() > 0 {
        lemma_first_icon_line_none(ls.drop_first());
    }
}

/// The icon name a desktop file gives: the trimmed value of its first line
/// that starts with `Icon=`.
pub fn extract_icon_from_desktop(contents: &str) -> (r: Option<String>)
    ensures
        match desktop_icon(contents@) {
            Some(icon) => r matches Some(s) && s@ == icon,
            None => r is None,
        },
{
    proof {
        reveal_strlit("Icon=");
    }
    let v = chars_of(contents);
    let ls = lines_of(&v);
    let ghost gl = lines(contents@);
    let mut i: usize = 0;
    while i < ls.len()
        invariant
            v@ == contents@,
            gl == lines(contents@),
            ls.len() == gl.len(),
            forall|k: int| 0 <= k < ls.len() ==> #[trigger] ls[k]@ == gl[k],
            i <= ls.len(),
            forall|j: int| 0 <= j < i ==> !begins_with(#[trigger] gl[j], "Icon="@),
        decreases ls.len() - i,
    {
        proof {
            reveal_strlit("Icon=");
        }
        let l = &ls[i];
        assert(l@ == gl[i as int]);
        assert(l@.subrange(0, l.len() as int) =~= l@);
        match strip_prefix_range(l, 0, l.len(), "Icon=") {
            Some(k) => {
                let t = trim_range(l, k, l.len());
                proof {
                    assert(l@.subrange(k as int, l.len() as int) =~= gl[i as int].skip(5));
                    lemma_first_icon_line_at(gl, i as int);
                }
                return Some(string_from_chars(&t));
            },
            None => {},
        }
        i = i + 1;
    }
    proof {
        lemma_first_icon_line_none(gl);
    }
    None
}

/// The desktop files looked at for the icon of application `app`, in order.
pub open spec fn desktop_paths(app: Seq<char>) -> Seq<Seq<char>> {
    seq![
        "/usr/share/applications/"@ + app + ".desktop"@,
        "/usr/share/applications/org.kde."@ + app + ".desktop"@,
        "/usr/local/share/applications/"@ + app + ".desktop"@,
        "/usr/local/share/applications/org.kde."@ + app + ".desktop"@,
    ]
}

fn desktop_path(app: &str, i: usize) -> (r: String)
    requires
        i < 4,
    ensures
        r@ == desktop_paths(app@)[i as int],
{
    let mut out: Vec<char> = Vec::new();
    if i < 2 {
        push_str(&mut out, "/usr/share/applications/");
    } else {
        push_str(&mut out, "/usr/local/share/applications/");
    }
    if i % 2 == 1 {
        push_str(&mut out, "org.kde.");
    }
    push_str(&mut out, app);
    push_str(&mut out, ".desktop");
    proof {
        reveal_strlit("/usr/share/applications/");
        reveal_strlit("/usr/local/share/applications/");
        reveal_strlit("/usr/share/applications/org.kde.");
        reveal_strlit("/usr/local/share/applications/org.kde.");
        reveal_strlit("org.kde.");
    }
    assert(out@ =~= desktop_paths(app@)[i as int]);
    string_from_chars(&out)
}

/// Whether the reader, asked for the file at `path`, gave back `out`.
pub open spec fn read_gave<F: Fn(&str) -> Option<String>>(
    read: F,
    path: Seq<char>,
    out: Option<String>,
) -> bool {
    exists|s: &str| s@ == path && #[trigger] read.ensures((s,), out)
}

/// `r` is the icon name that the files from `paths[i]` on, read through
/// `read`, can give for application `app`: the icon of the first file that
/// was read and names one, or `app` itself when none does.
pub open spec fn icon_from<F: Fn(&str) -> Option<String>>(
    read: F,
    paths: Seq<Seq<char>>,
    i: int,
    app: Seq<char>,
    r: Seq<char>,
) -> bool
    decreases paths.len() - i,
{
    if i < 0 || i >= paths.len() {
        r == app
    } else {
        exists|out: Option<String>|
            #[trigger] read_gave(read, paths[i], out) && match out {
                Some(c) => match desktop_icon(c@) {
                    Some(icon) => r == icon,
                    None => icon_from(read, paths, i + 1, app, r),
                },
                None => icon_from(read, paths, i + 1, app, r),
            }
    }
}

/// `r` is an icon name that the desktop files of `app` can give.
pub open spec fn icon_for_app<F: Fn(&str) -> Option<String>>(
    read: F,
    app: Seq<char>,
    r: Seq<char>,
) -> bool {
    icon_from(read, desktop_paths(app), 0, app, r)
}

/// The icon name of an application from its desktop file: the files of
/// `desktop_paths` are read in turn through `read_file` (which gives the
/// contents of a file, or nothing when it cannot be read), and the first
/// icon found is returned; the application id itself when there is none.
pub fn resolve_icon_name<F: Fn(&str) -> Option<String>>(app_id: &str, read_file: &F) -> (r: String)
    requires
        forall|s: &str| #[trigger] read_file.requires((s,)),
    ensures
        icon_for_app(*read_file, app_id@, r@),
{
    let ghost paths = desktop_paths(app_id@);
    let mut i: usize = 0;
    while i < 4
        invariant
            i <= 4,
            paths == desktop_paths(app_id@),
            forall|s: &str| #[trigger] read_file.requires((s,)),
            forall|r: Seq<char>|
                icon_from(*read_file, paths, i as int, app_id@, r) ==> icon_from(
                    *read_file,
                    paths,
                    0,
                    app_id@,
                    r,
                ),
        decreases 4 - i,
    {
        let path = desktop_path(app_id, i);
        let p = path.as_str();
        let out = read_file(p);
        proof {
            assert(read_gave(*read_file, paths[i as int], out));
        }
        let found = match &out {
            Some(contents) => extract_icon_from_desktop(contents.as_str()),
            None => None,
        };
        match found {
            Some(icon) => {
                proof {
                    assert(icon_from(*read_file, paths, i as int, app_id@, icon@));
                }
                return icon;
            },
            None => {},
        }
        proof {
            assert forall|r: Seq<char>|
                icon_from(*read_file, paths, i + 1, app_id@, r) implies icon_from(
                *read_file,
                paths,
                0,
                app_id@,
                r,
            ) by {
                assert(icon_from(*read_file, paths, i as int, app_id@, r));
            }
        }
        i = i + 1;
    }
    app_id.to_owned()
}

// ---------------------------------------------------------------------------
// The tracker
// ---------------------------------------------------------------------------

/// The windows the compositor announced, in the order they appeared.
pub struct WindowTracker {
    windows: Vec<(u32, WindowInfo)>,
    /// Whether the window list changed since it was last shown.
    pub changed: bool,
}

impl WindowTracker {
    /// The tracked windows with their ids, oldest first.
    pub closed spec fn windows(self) -> Seq<(u32, WindowInfo)> {
        self.windows@
    }

    /// Whether the window list changed since it was last shown.
    pub closed spec fn is_changed(self) -> bool {
        self.changed
    }

    /// No window is tracked twice.
    pub open spec fn wf(self) -> bool {
        ids_unique(self.windows())
    }

    pub fn new() -> (r: Self)
        ensures
            r.wf(),
            r.windows() == Seq::<(u32, WindowInfo)>::empty(),
            r.is_changed(),
    {
        WindowTracker { windows: Vec::new(), changed: true }
    }

    fn find(&self, id: u32) -> (r: Option<usize>)
        ensures
            r matches Some(k) ==> window_index(self.windows(), id) == Some(k as int) && k
                < self.windows().len() && self.windows()[k as int].0 == id,
            r is None ==> window_index(self.windows(), id) is None,
    {
        let mut i: usize = 0;
        while i < self.windows.len()
            invariant
                i <= self.windows.len(),
                forall|j: int| 0 <= j < i ==> #[trigger] self.windows@[j].0 != id,
            decreases self.windows.len() - i,
        {
            if self.windows[i].0 == id {
                proof {
                    lemma_window_index_at(self.windows@, id, i as int);
                }
                return Some(i);
            }
            i = i + 1;
        }
        proof {
            lemma_window_index_none(self.windows@, id);
        }
        None
    }

    /// Number of tracked windows.
    pub fn window_count(&self) -> (n: usize)
        ensures
            n == self.windows().len(),
    {
        self.windows.len()
    }

    /// Whether window `id` is tracked.
    pub fn has_window(&self, id: u32) -> (r: bool)
        ensures
            r == (window_index(self.windows(), id) is Some),
    {
        self.find(id).is_some()
    }

    /// Start tracking window `id`, with nothing known of it yet. A window
    /// already tracked is left as it is.
    pub fn add_window(&mut self, id: u32)
        requires
            old(self).wf(),
        ensures
            final(self).wf(),
            match window_index(old(self).windows(), id) {
                Some(_) => final(self).windows() == old(self).windows() && final(self).is_changed() == old(
                    self,
                ).is_changed(),
                None => {
                    &&& final(self).windows().len() == old(self).windows().len() + 1
                    &&& final(self).windows().drop_last() == old(self).windows()
                    &&& final(self).windows().last().0 == id
                    &&& final(self).windows().last().1.is_blank()
                    &&& final(self).is_changed()
                },
            },
    {
        if self.find(id).is_none() {
            proof {
                lemma_window_index_found(self.windows@, id);
            }
            self.windows.push((id, WindowInfo::new()));
            self.changed = true;
            assert(self.windows@.drop_last() =~= old(self).windows@);
        }
    }

    /// Stop tracking window `id`; the others keep their order.
    pub fn remove_window(&mut self, id: u32)
        requires
            old(self).wf(),
        ensures
            final(self).wf(),
            final(self).is_changed(),
            match window_index(old(self).windows(), id) {
                Some(k) => final(self).windows() == old(self).windows().remove(k),
                None => final(self).windows() == old(self).windows(),
            },
    {
        match self.find(id) {
            Some(k) => {
                let _ = self.windows.remove(k);
                let ghost o = old(self).windows@;
                assert forall|i: int, j: int| 0 <= i < j < self.windows@.len() implies #[trigger] self.windows@[i].0
                    != #[trigger] self.windows@[j].0 by {
                    let oi = if i < k { i } else { i + 1 };
                    let oj = if j < k { j } else { j + 1 };
                    assert(self.windows@[i] == o[oi]);
                    assert(self.windows@[j] == o[oj]);
                    assert(o[oi].0 != o[oj].0);
                }
            },
            None => {},
        }
        self.changed = true;
    }

    /// Notes an unmap of window `id` and tells whether it is a real one:
    /// the first unmap of a window only ends its setup and is recorded,
    /// any later one means the window closed.
    pub fn mark_first_unmap(&mut self, id: u32) -> (r: bool)
        requires
            old(self).wf(),
        ensures
            final(self).wf(),
            final(self).is_changed() == old(self).is_changed(),
            match window_index(old(self).windows(), id) {
                Some(k) => if old(self).windows()[k].1.seen_first_unmap {
                    r && final(self).windows() == old(self).windows()
                } else {
                    !r && final(self).windows() == old(self).windows().update(
                        k,
                        (id, WindowInfo { seen_first_unmap: true, ..old(self).windows()[k].1 }),
                    )
                },
                None => !r && final(self).windows() == old(self).windows(),
            },
    {
        match self.find(id) {
            Some(k) => {
                if self.windows[k].1.seen_first_unmap {
                    return true;
                }
                let mut info = self.windows[k].1.copy();
                info.seen_first_unmap = true;
                self.windows.set(k, (id, info));
                let ghost o = old(self).windows@;
                assert forall|i: int, j: int| 0 <= i < j < self.windows@.len() implies #[trigger] self.windows@[i].0
                    != #[trigger] self.windows@[j].0 by {
                    assert(self.windows@[i].0 == o[i].0);
                    assert(self.windows@[j].0 == o[j].0);
                }
                false
            },
            None => false,
        }
    }

    /// Apply a reported change to window `id`; an untracked window is
    /// ignored.
    pub fn update_window(&mut self, id: u32, update: WindowUpdate)
        requires
            old(self).wf(),
        ensures
            final(self).wf(),
            match window_index(old(self).windows(), id) {
                Some(k) => final(self).windows() == old(self).windows().update(
                    k,
                    (id, updated_info(old(self).windows()[k].1, update)),
                ) && final(self).is_changed(),
                None => final(self).windows() == old(self).windows() && final(self).is_changed() == old(
                    self,
                ).is_changed(),
            },
    {
        match self.find(id) {
            Some(k) => {
                let mut info = self.windows[k].1.copy();
                match update {
                    WindowUpdate::Title(t) => {
                        info.title = t;
                    },
                    WindowUpdate::AppId(a) => {
                        info.app_id = a;
                    },
                    WindowUpdate::IconName(n) => {
                        info.icon_name = n;
                    },
                    WindowUpdate::State(f) => {
                        info.is_active = f & STATE_IS_ACTIVE != 0;
                        info.skip_taskbar = f & STATE_SKIP_TASKBAR != 0;
                    },
                }
                self.windows.set(k, (id, info));
                self.changed = true;
                let ghost o = old(self).windows@;
                assert forall|i: int, j: int| 0 <= i < j < self.windows@.len() implies #[trigger] self.windows@[i].0
                    != #[trigger] self.windows@[j].0 by {
                    assert(self.windows@[i].0 == o[i].0);
                    assert(self.windows@[j].0 == o[j].0);
                }
            },
            None => {},
        }
    }

    /// The compositor announced window `id`. A new window is tracked, and
    /// the result tells whether its protocol object should be requested
    /// (only once per window).
    pub fn handle_window_announced(&mut self, id: u32) -> (request: bool)
        requires
            old(self).wf(),
        ensures
            final(self).wf(),
            request == (window_index(old(self).windows(), id) is None),
            match window_index(old(self).windows(), id) {
                Some(_) => final(self).windows() == old(self).windows() && final(self).is_changed() == old(
                    self,
                ).is_changed(),
                None => {
                    &&& final(self).windows().len() == old(self).windows().len() + 1
                    &&& final(self).windows().drop_last() == old(self).windows()
                    &&& final(self).windows().last().0 == id
                    &&& final(self).windows().last().1.is_blank()
                    &&& final(self).is_changed()
                },
            },
    {
        if !self.has_window(id) {
            self.add_window(id);
            true
        } else {
            false
        }
    }

    /// An event of window `id`: changes update the window; its first unmap
    /// is recorded and a later one removes it.
    pub fn handle_window_event(&mut self, id: u32, event: WindowEvent)
        requires
            old(self).wf(),
        ensures
            final(self).wf(),
            match event {
                WindowEvent::TitleChanged(t) => window_updated(old(self).windows(), old(self).is_changed(), final(self).windows(), final(self).is_changed(), id, WindowUpdate::Title(t)),
                WindowEvent::AppIdChanged(a) => window_updated(old(self).windows(), old(self).is_changed(), final(self).windows(), final(self).is_changed(), id, WindowUpdate::AppId(a)),
                WindowEvent::ThemedIconNameChanged(n) => window_updated(
                    old(self).windows(),
                    old(self).is_changed(),
                    final(self).windows(),
                    final(self).is_changed(),
                    id,
                    WindowUpdate::IconName(n),
                ),
                WindowEvent::StateChanged(f) => window_updated(old(self).windows(), old(self).is_changed(), final(self).windows(), final(self).is_changed(), id, WindowUpdate::State(f)),
                WindowEvent::Unmapped => match window_index(old(self).windows(), id) {
                    Some(k) => if old(self).windows()[k].1.seen_first_unmap {
                        final(self).windows() == old(self).windows().remove(k) && final(self).is_changed()
                    } else {
                        final(self).windows() == old(self).windows().update(
                            k,
                            (id, WindowInfo { seen_first_unmap: true, ..old(self).windows()[k].1 }),
                        ) && final(self).is_changed() == old(self).is_changed()
                    },
                    None => final(self).windows() == old(self).windows() && final(self).is_changed()
                        == old(self).is_changed(),
                },
                WindowEvent::Other => final(self).windows() == old(self).windows() && final(self).is_changed()
                    == old(self).is_changed(),
            },
    {
        match event {
            WindowEvent::TitleChanged(t) => self.update_window(id, WindowUpdate::Title(t)),
            WindowEvent::AppIdChanged(a) => self.update_window(id, WindowUpdate::AppId(a)),
            WindowEvent::ThemedIconNameChanged(n) => self.update_window(id, WindowUpdate::IconName(n)),
            WindowEvent::StateChanged(f) => self.update_window(id, WindowUpdate::State(f)),
            WindowEvent::Unmapped => {
                if self.mark_first_unmap(id) {
                    self.remove_window(id);
                }
            },
            WindowEvent::Other => {},
        }
    }
}

/// Every dock entry's window count fits the entry's `u32` field.
pub open spec fn counts_fit(ws: Seq<(u32, WindowInfo)>) -> bool {
    forall|k: int| 0 <= k < group_windows(ws).len() ==> #[trigger] group_windows(ws)[k].4 <= u32::MAX
}

/// One more window keeps the entries there were, with as many windows or
/// one more, and may add an entry at the end.
proof fn lemma_group_step(ws: Seq<(u32, WindowInfo)>)
    requires
        ws.len() > 0,
    ensures
        group_windows(ws.drop_last()).len() <= group_windows(ws).len(),
        forall|k: int|
            0 <= k < group_windows(ws.drop_last()).len() ==> #[trigger] group_windows(ws)[k].0
                == group_windows(ws.drop_last())[k].0 && group_windows(ws.drop_last())[k].4
                <= group_windows(ws)[k].4,
{
    let g0 = group_windows(ws.drop_last());
    let w = ws.last().1;
    lemma_group_index_found(g0, w.app_id@);
}

/// The entries of a prefix of the windows are those of all the windows,
/// each counting no more windows.
proof fn lemma_group_prefix(ws: Seq<(u32, WindowInfo)>, i: int)
    requires
        0 <= i <= ws.len(),
    ensures
        group_windows(ws.take(i)).len() <= group_windows(ws).len(),
        forall|k: int|
            0 <= k < group_windows(ws.take(i)).len() ==> #[trigger] group_windows(ws)[k].0
                == group_windows(ws.take(i))[k].0 && group_windows(ws.take(i))[k].4
                <= group_windows(ws)[k].4,
    decreases ws.len(),
{
    if i == ws.len() {
        assert(ws.take(i) =~= ws);
    } else {
        let w0 = ws.drop_last();
        assert(ws.take(i) =~= w0.take(i));
        lemma_group_prefix(w0, i);
        lemma_group_step(ws);
        let g = group_windows(ws.take(i));
        let h0 = group_windows(w0);
        let h = group_windows(ws);
        assert forall|k: int| 0 <= k < g.len() implies #[trigger] h[k].0 == g[k].0 && g[k].4 <= h[k].4 by {
            assert(h0[k].0 == g[k].0 && g[k].4 <= h0[k].4);
            assert(h[k].0 == h0[k].0 && h0[k].4 <= h[k].4);
        }
    }
}

/// A dock entry counts no more windows than are tracked, so the counts
/// fit whenever the number of windows does.
pub proof fn lemma_group_counts_bounded(ws: Seq<(u32, WindowInfo)>)
    ensures
        forall|k: int| 0 <= k < group_windows(ws).len() ==> #[trigger] group_windows(ws)[k].4 <= ws.len(),
        ws.len() <= u32::MAX ==> counts_fit(ws),
    decreases ws.len(),
{
    if ws.len() > 0 {
        lemma_group_counts_bounded(ws.drop_last());
        lemma_group_step(ws);
        let g0 = group_windows(ws.drop_last());
        let w = ws.last().1;
        lemma_group_index_found(g0, w.app_id@);
    }
}

impl WindowTracker {
    /// The windows grouped by application, icons not yet resolved.
    fn group_apps(&self) -> (r: Vec<DockApp>)
        requires
            counts_fit(self.windows()),
        ensures
            r.len() == group_windows(self.windows()).len(),
            forall|k: int| 0 <= k < r.len() ==> #[trigger] dock_group(r[k]) == group_windows(self.windows())[k],
    {
        let mut apps: Vec<DockApp> = Vec::new();
        let mut i: usize = 0;
        assert(self.windows@.take(0) =~= Seq::<(u32, WindowInfo)>::empty());
        while i < self.windows.len()
            invariant
                i <= self.windows.len(),
                counts_fit(self.windows@),
                apps.len() == group_windows(self.windows@.take(i as int)).len(),
                forall|k: int| 0 <= k < apps.len() ==> #[trigger] dock_group(apps[k]) == group_windows(self.windows@.take(i as int))[k],
            decreases self.windows.len() - i,
        {
            let ghost gs = group_windows(self.windows@.take(i as int));
            let ghost ws1 = self.windows@.take(i + 1);
            assert(ws1.drop_last() =~= self.windows@.take(i as int));
            assert(ws1.last() == self.windows@[i as int]);
            let w = &self.windows[i].1;
            if !w.skip_taskbar && !w.app_id.as_str().is_empty() {
                proof {
                    assert(w.app_id@.len() > 0);
                }
                let found = find_group(&apps, &w.app_id);
                proof {
                    assert forall|k: int| 0 <= k < apps.len() implies #[trigger] gs[k].0 == apps[k].app_id@ by {
                        assert(dock_group(apps[k]) == gs[k]);
                    }
                }
                if let Some(j) = found {
                    proof {
                        assert(dock_group(apps[j as int]) == gs[j as int]);
                        lemma_group_index_at(gs, w.app_id@, j as int);
                        lemma_group_prefix(self.windows@, i + 1);
                        assert(group_windows(ws1)[j as int].4 == gs[j as int].4 + 1);
                        assert(j < group_windows(ws1).len());
                        let jj = j as int;
                        assert(ws1 == self.windows@.take(i + 1));
                        assert(0 <= jj < group_windows(self.windows@.take(i + 1)).len());
                        assert(group_windows(self.windows@)[jj].0 == group_windows(self.windows@.take(i + 1))[jj].0);
                        assert(group_windows(ws1)[jj].4 <= group_windows(self.windows@)[jj].4);
                        assert(group_windows(self.windows@)[j as int].4 <= u32::MAX);
                    }
                    let a = &apps[j];
                    let updated = DockApp {
                        app_id: a.app_id.clone(),
                        name: a.name.clone(),
                        icon_name: a.icon_name.clone(),
                        is_active: a.is_active || w.is_active,
                        window_count: a.window_count + 1,
                    };
                    apps.set(j, updated);
                } else {
                    proof {
                        lemma_group_index_none(gs, w.app_id@);
                    }
                    apps.push(DockApp {
                        app_id: w.app_id.clone(),
                        name: w.title.clone(),
                        icon_name: w.icon_name.clone(),
                        is_active: w.is_active,
                        window_count: 1,
                    });
                }
            }
            i = i + 1;
            assert(group_windows(ws1).len() == apps.len());
        }
        assert(self.windows@.take(self.windows@.len() as int) =~= self.windows@);
        apps
    }

    /// The dock entries: one per application, in the order its first shown
    /// window appeared, named after the title of that window, active when
    /// any of its windows is, with its number of windows. The icon is that
    /// of the first window, or when it has none, the one its desktop files
    /// give (see `resolve_icon_name`).
    pub fn get_dock_apps<F: Fn(&str) -> Option<String>>(&self, read_file: &F) -> (r: Vec<DockApp>)
        requires
            forall|s: &str| #[trigger] read_file.requires((s,)),
            counts_fit(self.windows()),
        ensures
            r.len() == group_windows(self.windows()).len(),
            forall|k: int| 0 <= k < r.len() ==> {
                let g = #[trigger] group_windows(self.windows())[k];
                &&& r[k].app_id@ == g.0
                &&& r[k].name@ == g.1
                &&& r[k].is_active == g.3
                &&& r[k].window_count == g.4
                &&& if g.2.len() > 0 {
                    r[k].icon_name@ == g.2
                } else {
                    icon_for_app(*read_file, g.0, r[k].icon_name@)
                }
            },
    {
        let groups = self.group_apps();
        let ghost gs = group_windows(self.windows());
        let mut out: Vec<DockApp> = Vec::new();
        let mut k: usize = 0;
        while k < groups.len()
            invariant
                k <= groups.len(),
                groups.len() == gs.len(),
                forall|j: int| 0 <= j < groups.len() ==> #[trigger] dock_group(groups[j]) == gs[j],
                forall|s: &str| #[trigger] read_file.requires((s,)),
                out.len() == k,
                forall|j: int| 0 <= j < k ==> {
                    let g = #[trigger] gs[j];
                    &&& out[j].app_id@ == g.0
                    &&& out[j].name@ == g.1
                    &&& out[j].is_active == g.3
                    &&& out[j].window_count == g.4
                    &&& if g.2.len() > 0 {
                        out[j].icon_name@ == g.2
                    } else {
                        icon_for_app(*read_file, g.0, out[j].icon_name@)
                    }
                },
            decreases groups.len() - k,
        {
            let g = &groups[k];
            assert(dock_group(groups[k as int]) == gs[k as int]);
            let icon = if g.icon_name.as_str().is_empty() {
                resolve_icon_name(g.app_id.as_str(), read_file)
            } else {
                g.icon_name.clone()
            };
            out.push(DockApp {
                app_id: g.app_id.clone(),
                name: g.name.clone(),
                icon_name: icon,
                is_active: g.is_active,
                window_count: g.window_count,
            });
            k = k + 1;
        }
        out
    }
}

/// Position of the first entry of application `app`.
fn find_group(apps: &Vec<DockApp>, app: &String) -> (r: Option<usize>)
    ensures
        r matches Some(j) ==> j < apps.len() && apps[j as int].app_id@ == app@ && forall|k: int|
            0 <= k < j ==> #[trigger] apps[k].app_id@ != app@,
        r is None ==> forall|k: int| 0 <= k < apps.len() ==> #[trigger] apps[k].app_id@ != app@,
{
    let mut j: usize = 0;
    while j < apps.len()
        invariant
            j <= apps.len(),
            forall|k: int| 0 <= k < j ==> #[trigger] apps[k].app_id@ != app@,
        decreases apps.len() - j,
    {
        if apps[j].app_id == *app {
            return Some(j);
        }
        j = j + 1;
    }
    None
}

/// A dock entry's fields other than its resolved icon.
pub open spec fn dock_group(a: DockApp) -> AppGroup {
    (a.app_id@, a.name@, a.icon_name@, a.is_active, a.window_count as nat)
}

/// The windows and change flag after update `u` to window `id` of the
/// windows `ws` with change flag `changed`.
pub open spec fn window_updated(
    ws: Seq<(u32, WindowInfo)>,
    changed: bool,
    after: Seq<(u32, WindowInfo)>,
    after_changed: bool,
    id: u32,
    u: WindowUpdate,
) -> bool {
    match window_index(ws, id) {
        Some(k) => after == ws.update(k, (id, updated_info(ws[k].1, u))) && after_changed,
        None => after == ws && after_changed == changed,
    }
}

// ---------------------------------------------------------------------------
// Laws of the grouping
// ---------------------------------------------------------------------------

proof fn lemma_group_index_found(gs: Seq<AppGroup>, app: Seq<char>)
    ensures
        match group_index(gs, app) {
            Some(k) => 0 <= k < gs.len() && gs[k].0 == app,
            None => forall|j: int| 0 <= j < gs.len() ==> #[trigger] gs[j].0 != app,
        },
    decreases gs.len(),
{
    if gs.len() > 0 {
        lemma_group_index_found(gs.drop_first(), app);
        if gs[0].0 != app && group_index(gs.drop_first(), app) is None {
            assert forall|j: int| 0 <= j < gs.len() implies #[trigger] gs[j].0 != app by {
                if j > 0 {
                    assert(gs[j] == gs.drop_first()[j - 1]);
                }
            }
        }
    }
}

/// The applications of the dock entries, in order (the first field of
/// `group_windows`).
pub open spec fn group_ids(ws: Seq<(u32, WindowInfo)>) -> Seq<Seq<char>>
    decreases ws.len(),
{
    if ws.len() == 0 {
        Seq::empty()
    } else {
        let ids = group_ids(ws.drop_last());
        let w = ws.last().1;
        if shown_in_dock(w) && !ids.contains(w.app_id@) {
            ids.push(w.app_id@)
        } else {
            ids
        }
    }
}

proof fn lemma_group_ids(ws: Seq<(u32, WindowInfo)>)
    ensures
        group_ids(ws).len() == group_windows(ws).len(),
        forall|k: int| 0 <= k < group_ids(ws).len() ==> #[trigger] group_ids(ws)[k] == group_windows(ws)[k].0,
    decreases ws.len(),
{
    if ws.len() > 0 {
        let w0 = ws.drop_last();
        let w = ws.last().1;
        lemma_group_ids(w0);
        let g0 = group_windows(w0);
        let i0 = group_ids(w0);
        lemma_group_index_found(g0, w.app_id@);
        if shown_in_dock(w) {
            if i0.contains(w.app_id@) {
                let k = choose|k: int| 0 <= k < i0.len() && i0[k] == w.app_id@;
                assert(g0[k].0 == w.app_id@);
                assert(group_index(g0, w.app_id@) is Some);
            } else {
                assert forall|k: int| 0 <= k < g0.len() implies #[trigger] g0[k].0 != w.app_id@ by {
                    assert(i0[k] == g0[k].0);
                }
            }
        }
    }
}

/// Window `p` is the first window shown in the dock for application `app`.
pub open spec fn first_shown(ws: Seq<(u32, WindowInfo)>, app: Seq<char>, p: int) -> bool {
    &&& 0 <= p < ws.len()
    &&& shown_in_dock(ws[p].1)
    &&& ws[p].1.app_id@ == app
    &&& forall|q: int| 0 <= q < p ==> !(shown_in_dock(#[trigger] ws[q].1) && ws[q].1.app_id@ == app)
}

/// An application has a dock entry exactly when one of its windows is
/// shown.
proof fn lemma_ids_shown(ws: Seq<(u32, WindowInfo)>, app: Seq<char>)
    ensures
        group_ids(ws).contains(app) <==> exists|p: int| #[trigger] first_shown(ws, app, p),
    decreases ws.len(),
{
    if ws.len() > 0 {
        let w0 = ws.drop_last();
        let w = ws.last().1;
        let n = ws.len() - 1;
        lemma_ids_shown(w0, app);
        let i0 = group_ids(w0);
        let ids = group_ids(ws);
        if exists|p: int| #[trigger] first_shown(w0, app, p) {
            let p = choose|p: int| #[trigger] first_shown(w0, app, p);
            assert forall|q: int| 0 <= q < p implies !(shown_in_dock(#[trigger] ws[q].1) && ws[q].1.app_id@ == app) by {
                assert(ws[q] == w0[q]);
            }
            assert(ws[p] == w0[p]);
            assert(first_shown(ws, app, p));
            assert(i0.contains(app));
            let k = choose|k: int| 0 <= k < i0.len() && i0[k] == app;
            assert(ids[k] == app);
        } else {
            if shown_in_dock(w) && w.app_id@ == app {
                assert forall|q: int| 0 <= q < n implies !(shown_in_dock(#[trigger] ws[q].1) && ws[q].1.app_id@ == app) by {
                    assert(ws[q] == w0[q]);
                    if shown_in_dock(w0[q].1) && w0[q].1.app_id@ == app {
                        assert(first_shown(w0, app, q) || exists|r: int| 0 <= r < q && shown_in_dock(w0[r].1) && w0[r].1.app_id@ == app);
                        lemma_some_first_shown(w0, app, q);
                    }
                }
                assert(first_shown(ws, app, n));
                assert(ids[ids.len() - 1] == app);
            } else {
                assert(ids.contains(app) <==> i0.contains(app)) by {
                    if ids != i0 {
                        assert(ids =~= i0.push(w.app_id@));
                        assert(w.app_id@ != app);
                        if ids.contains(app) {
                            let k = choose|k: int| 0 <= k < ids.len() && ids[k] == app;
                            assert(k < i0.len());
                            assert(i0[k] == app);
                        }
                        if i0.contains(app) {
                            let k = choose|k: int| 0 <= k < i0.len() && i0[k] == app;
                            assert(ids[k] == app);
                        }
                    }
                }
                if exists|p: int| #[trigger] first_shown(ws, app, p) {
                    let p = choose|p: int| #[trigger] first_shown(ws, app, p);
                    assert(p != n);
                    assert forall|q: int| 0 <= q < p implies !(shown_in_dock(#[trigger] w0[q].1) && w0[q].1.app_id@ == app) by {
                        assert(ws[q] == w0[q]);
                    }
                    assert(ws[p] == w0[p]);
                    assert(first_shown(w0, app, p));
                }
            }
        }
    }
}

/// A shown window of `app` at `q` means `app` has a first shown window.
proof fn lemma_some_first_shown(ws: Seq<(u32, WindowInfo)>, app: Seq<char>, q: int)
    requires
        0 <= q < ws.len(),
        shown_in_dock(ws[q].1),
        ws[q].1.app_id@ == app,
    ensures
        exists|p: int| #[trigger] first_shown(ws, app, p),
    decreases q,
{
    if !first_shown(ws, app, q) {
        let r = choose|r: int| 0 <= r < q && !!(shown_in_dock(#[trigger] ws[r].1) && ws[r].1.app_id@ == app);
        lemma_some_first_shown(ws, app, r);
    }
}

proof fn lemma_ids_distinct(ws: Seq<(u32, WindowInfo)>)
    ensures
        forall|i: int, j: int| 0 <= i < j < group_ids(ws).len() ==> #[trigger] group_ids(ws)[i] != #[trigger] group_ids(ws)[j],
    decreases ws.len(),
{
    if ws.len() > 0 {
        let i0 = group_ids(ws.drop_last());
        let ids = group_ids(ws);
        lemma_ids_distinct(ws.drop_last());
        if ids != i0 {
            let x = ws.last().1.app_id@;
            assert(ids =~= i0.push(x));
            assert forall|i: int, j: int| 0 <= i < j < ids.len() implies #[trigger] ids[i] != #[trigger] ids[j] by {
                if j == ids.len() - 1 {
                    assert(ids[i] == i0[i]);
                    if ids[i] == x {
                        assert(i0.contains(x));
                    }
                } else {
                    assert(ids[i] == i0[i] && ids[j] == i0[j]);
                }
            }
        }
    }
}

/// How many of the windows `ws` are shown in the dock for application `app`.
pub open spec fn app_window_count(ws: Seq<(u32, WindowInfo)>, app: Seq<char>) -> nat
    decreases ws.len(),
{
    if ws.len() == 0 {
        0
    } else {
        app_window_count(ws.drop_last(), app) + if shown_in_dock(ws.last().1) && ws.last().1.app_id@ == app {
            1nat
        } else {
            0nat
        }
    }
}

/// Some window shown in the dock for application `app` is active.
pub open spec fn app_has_active(ws: Seq<(u32, WindowInfo)>, app: Seq<char>) -> bool {
    exists|p: int|
        0 <= p < ws.len() && shown_in_dock(#[trigger] ws[p].1) && ws[p].1.app_id@ == app && ws[p].1.is_active
}

/// What dock entry `g` says of its application, measured on the windows.
pub open spec fn entry_matches_windows(ws: Seq<(u32, WindowInfo)>, g: AppGroup) -> bool {
    &&& g.4 == app_window_count(ws, g.0)
    &&& g.3 == app_has_active(ws, g.0)
    &&& forall|p: int| #[trigger] first_shown(ws, g.0, p) ==> g.1 == ws[p].1.title@ && g.2 == ws[p].1.icon_name@
}

proof fn lemma_no_window_of_app(ws: Seq<(u32, WindowInfo)>, app: Seq<char>)
    requires
        forall|p: int| 0 <= p < ws.len() ==> !(shown_in_dock(#[trigger] ws[p].1) && ws[p].1.app_id@ == app),
    ensures
        app_window_count(ws, app) == 0,
        !app_has_active(ws, app),
    decreases ws.len(),
{
    if ws.len() > 0 {
        let w0 = ws.drop_last();
        assert forall|p: int| 0 <= p < w0.len() implies !(shown_in_dock(#[trigger] w0[p].1) && w0[p].1.app_id@ == app) by {
            assert(w0[p] == ws[p]);
        }
        lemma_no_window_of_app(w0, app);
        assert(!(shown_in_dock(ws[ws.len() - 1].1) && ws[ws.len() - 1].1.app_id@ == app));
    }
}

proof fn lemma_entries_match_windows(ws: Seq<(u32, WindowInfo)>)
    ensures
        forall|k: int| 0 <= k < group_windows(ws).len() ==> entry_matches_windows(ws, #[trigger] group_windows(ws)[k]),
    decreases ws.len(),
{
    if ws.len() > 0 {
        let w0 = ws.drop_last();
        let n = ws.len() - 1;
        let w = ws.last().1;
        let g0 = group_windows(w0);
        let g = group_windows(ws);
        lemma_entries_match_windows(w0);
        lemma_group_index_found(g0, w.app_id@);
        lemma_groups_distinct(w0);
        lemma_groups_cover(w0);
        assert(ws.drop_last() == w0);
        assert forall|p: int| 0 <= p < n implies #[trigger] ws[p] == w0[p] by {}
        // Facts about any application `app` that the new window does not belong to.
        assert forall|app: Seq<char>| !(shown_in_dock(w) && w.app_id@ == app) implies app_window_count(ws, app)
            == app_window_count(w0, app) && (app_has_active(ws, app) == app_has_active(w0, app)) && (forall|p: int|
            #[trigger] first_shown(ws, app, p) ==> first_shown(w0, app, p)) by {
            if app_has_active(ws, app) {
                let p = choose|p: int|
                    0 <= p < ws.len() && shown_in_dock(#[trigger] ws[p].1) && ws[p].1.app_id@ == app && ws[p].1.is_active;
                assert(p < n);
                assert(w0[p] == ws[p]);
            }
            if app_has_active(w0, app) {
                let p = choose|p: int|
                    0 <= p < w0.len() && shown_in_dock(#[trigger] w0[p].1) && w0[p].1.app_id@ == app && w0[p].1.is_active;
                assert(w0[p] == ws[p]);
            }
            assert forall|p: int| #[trigger] first_shown(ws, app, p) implies first_shown(w0, app, p) by {
                assert(p < n);
                assert forall|q: int| 0 <= q < p implies !(shown_in_dock(#[trigger] w0[q].1) && w0[q].1.app_id@ == app) by {
                    assert(w0[q] == ws[q]);
                    assert(!(shown_in_dock(ws[q].1) && ws[q].1.app_id@ == app));
                }
            }
        }
        assert forall|k: int| 0 <= k < g.len() implies entry_matches_windows(ws, #[trigger] g[k]) by {
            if !shown_in_dock(w) {
                assert(g == g0);
                assert(entry_matches_windows(w0, g0[k]));
            } else {
                match group_index(g0, w.app_id@) {
                    Some(k0) => {
                        let app = g[k].0;
                        if k == k0 {
                            assert(entry_matches_windows(w0, g0[k0]));
                            assert(entry_has_window(w0, k0));
                            let q = choose|q: int| #[trigger] first_shown(w0, g0[k0].0, q);
                            assert(w0[q] == ws[q]);
                            assert(app_has_active(ws, app) == (app_has_active(w0, app) || w.is_active)) by {
                                if app_has_active(w0, app) {
                                    let p = choose|p: int|
                                        0 <= p < w0.len() && shown_in_dock(#[trigger] w0[p].1) && w0[p].1.app_id@ == app
                                            && w0[p].1.is_active;
                                    assert(w0[p] == ws[p]);
                                }
                                if w.is_active {
                                    assert(ws[n].1 == w);
                                }
                                if app_has_active(ws, app) && !w.is_active {
                                    let p = choose|p: int|
                                        0 <= p < ws.len() && shown_in_dock(#[trigger] ws[p].1) && ws[p].1.app_id@ == app
                                            && ws[p].1.is_active;
                                    assert(p != n);
                                    assert(w0[p] == ws[p]);
                                }
                            }
                            assert forall|p: int| #[trigger] first_shown(ws, app, p) implies first_shown(w0, app, p) by {
                                if p == n {
                                    assert(q < p);
                                    assert(ws[q] == w0[q]);
                                    assert(!(shown_in_dock(ws[q].1) && ws[q].1.app_id@ == app));
                                }
                                assert forall|r: int| 0 <= r < p implies !(shown_in_dock(#[trigger] w0[r].1) && w0[r].1.app_id@
                                    == app) by {
                                    assert(w0[r] == ws[r]);
                                    assert(!(shown_in_dock(ws[r].1) && ws[r].1.app_id@ == app));
                                }
                            }
                        } else {
                            assert(g[k] == g0[k]);
                            assert(g0[k].0 != g0[k0].0);
                            assert(entry_matches_windows(w0, g0[k]));
                        }
                    },
                    None => {
                        if k < g0.len() {
                            assert(g[k] == g0[k]);
                            assert(entry_matches_windows(w0, g0[k]));
                        } else {
                            let app = w.app_id@;
                            assert(g[k] == (w.app_id@, w.title@, w.icon_name@, w.is_active, 1nat));
                            assert forall|p: int| 0 <= p < w0.len() implies !(shown_in_dock(#[trigger] w0[p].1)
                                && w0[p].1.app_id@ == app) by {
                                if shown_in_dock(w0[p].1) && w0[p].1.app_id@ == app {
                                    assert(window_has_entry(w0, p));
                                }
                            }
                            lemma_no_window_of_app(w0, app);
                            assert(ws[n].1 == w);
                            assert(app_has_active(ws, app) == w.is_active) by {
                                if app_has_active(ws, app) {
                                    let p = choose|p: int|
                                        0 <= p < ws.len() && shown_in_dock(#[trigger] ws[p].1) && ws[p].1.app_id@ == app
                                            && ws[p].1.is_active;
                                    if p < n {
                                        assert(w0[p] == ws[p]);
                                    }
                                }
                            }
                            assert forall|p: int| #[trigger] first_shown(ws, app, p) implies g[k].1 == ws[p].1.title@
                                && g[k].2 == ws[p].1.icon_name@ by {
                                if p < n {
                                    assert(w0[p] == ws[p]);
                                }
                            }
                        }
                    },
                }
            }
        }
    }
}

/// Each dock entry counts the windows of its application that the dock
/// shows, is active when one of them is, and takes its name and icon from
/// the first of them.
pub proof fn lemma_entry_counts_windows(ws: Seq<(u32, WindowInfo)>, k: int)
    requires
        0 <= k < group_windows(ws).len(),
    ensures
        group_windows(ws)[k].4 == app_window_count(ws, group_windows(ws)[k].0),
        group_windows(ws)[k].3 == app_has_active(ws, group_windows(ws)[k].0),
        forall|p: int| #[trigger] first_shown(ws, group_windows(ws)[k].0, p) ==> group_windows(ws)[k].1
            == ws[p].1.title@ && group_windows(ws)[k].2 == ws[p].1.icon_name@,
{
    lemma_entries_match_windows(ws);
    assert(entry_matches_windows(ws, group_windows(ws)[k]));
}

/// No application has two dock entries.
pub proof fn lemma_groups_distinct(ws: Seq<(u32, WindowInfo)>)
    ensures
        forall|i: int, j: int|
            0 <= i < j < group_windows(ws).len() ==> #[trigger] group_windows(ws)[i].0
                != #[trigger] group_windows(ws)[j].0,
{
    lemma_group_ids(ws);
    lemma_ids_distinct(ws);
    assert forall|i: int, j: int| 0 <= i < j < group_windows(ws).len() implies #[trigger] group_windows(ws)[i].0
        != #[trigger] group_windows(ws)[j].0 by {
        assert(group_ids(ws)[i] != group_ids(ws)[j]);
    }
}

/// Dock entry `k` is the application of some shown window.
pub open spec fn entry_has_window(ws: Seq<(u32, WindowInfo)>, k: int) -> bool {
    exists|p: int| #[trigger] first_shown(ws, group_windows(ws)[k].0, p)
}

/// The application of window `p` has a dock entry.
pub open spec fn window_has_entry(ws: Seq<(u32, WindowInfo)>, p: int) -> bool {
    exists|k: int| 0 <= k < group_windows(ws).len() && #[trigger] group_windows(ws)[k].0 == ws[p].1.app_id@
}

/// Every dock entry is the application of a shown window, and every shown
/// window's application has a dock entry.
pub proof fn lemma_groups_cover(ws: Seq<(u32, WindowInfo)>)
    ensures
        forall|k: int| 0 <= k < group_windows(ws).len() ==> #[trigger] entry_has_window(ws, k),
        forall|p: int| 0 <= p < ws.len() && shown_in_dock(ws[p].1) ==> #[trigger] window_has_entry(ws, p),
{
    lemma_group_ids(ws);
    let ids = group_ids(ws);
    assert forall|k: int| 0 <= k < group_windows(ws).len() implies #[trigger] entry_has_window(ws, k) by {
        assert(ids[k] == group_windows(ws)[k].0);
        assert(ids.contains(ids[k]));
        lemma_ids_shown(ws, ids[k]);
        let p = choose|p: int| #[trigger] first_shown(ws, ids[k], p);
        assert(first_shown(ws, group_windows(ws)[k].0, p));
    }
    assert forall|p: int| 0 <= p < ws.len() && shown_in_dock(ws[p].1) implies #[trigger] window_has_entry(ws, p) by {
        let app = ws[p].1.app_id@;
        lemma_some_first_shown(ws, app, p);
        lemma_ids_shown(ws, app);
        let k = choose|k: int| 0 <= k < ids.len() && ids[k] == app;
        assert(group_windows(ws)[k].0 == app);
    }
}

proof fn lemma_ids_first_seen_order(ws: Seq<(u32, WindowInfo)>, i: int, j: int, p: int, q: int)
    requires
        0 <= i < j < group_ids(ws).len(),
        first_shown(ws, group_ids(ws)[i], p),
        first_shown(ws, group_ids(ws)[j], q),
    ensures
        p < q,
    decreases ws.len(),
{
    let w0 = ws.drop_last();
    let w = ws.last().1;
    let n = ws.len() - 1;
    let i0 = group_ids(w0);
    let ids = group_ids(ws);
    // The first shown window of an application listed before the last
    // window is an earlier window.
    assert forall|a: Seq<char>, r: int| i0.contains(a) && #[trigger] first_shown(ws, a, r) implies r < n
        && first_shown(w0, a, r) by {
        lemma_ids_shown(w0, a);
        let r0 = choose|r0: int| #[trigger] first_shown(w0, a, r0);
        assert(ws[r0] == w0[r0]);
        if r < r0 {
            assert(ws[r] == w0[r]);
        }
        assert(r == r0);
        assert forall|x: int| 0 <= x < r implies !(shown_in_dock(#[trigger] w0[x].1) && w0[x].1.app_id@ == a) by {
            assert(ws[x] == w0[x]);
        }
    }
    if j < i0.len() {
        assert(ids[i] == i0[i] && ids[j] == i0[j]);
        assert(i0.contains(i0[i]) && i0.contains(i0[j]));
        lemma_ids_first_seen_order(w0, i, j, p, q);
    } else {
        assert(ids[i] == i0[i]);
        assert(i0.contains(i0[i]));
        assert(ids[j] == w.app_id@ && !i0.contains(w.app_id@));
        if q < n {
            assert(ws[q] == w0[q]);
            lemma_some_first_shown(w0, w.app_id@, q);
            lemma_ids_shown(w0, w.app_id@);
        }
    }
}

/// The dock entries come in the order in which their applications' first
/// shown windows appeared.
pub proof fn lemma_groups_in_first_seen_order(ws: Seq<(u32, WindowInfo)>, i: int, j: int, p: int, q: int)
    requires
        0 <= i < j < group_windows(ws).len(),
        first_shown(ws, group_windows(ws)[i].0, p),
        first_shown(ws, group_windows(ws)[j].0, q),
    ensures
        p < q,
{
    lemma_group_ids(ws);
    lemma_ids_first_seen_order(ws, i, j, p, q);
}

/// A window that is announced is tracked afterwards; a window that is
/// removed is not, and the remaining windows keep their ids unique.
pub proof fn lemma_add_then_remove(ws: Seq<(u32, WindowInfo)>, id: u32, info: WindowInfo)
    requires
        ids_unique(ws),
        window_index(ws, id) is None,
    ensures
        window_index(ws.push((id, info)), id) == Some(ws.len() as int),
        ws.push((id, info)).remove(ws.len() as int) == ws,
{
    lemma_window_index_found(ws, id);
    let ws1 = ws.push((id, info));
    assert forall|j: int| 0 <= j < ws.len() implies #[trigger] ws1[j].0 != id by {
        assert(ws1[j] == ws[j]);
    }
    lemma_window_index_at(ws1, id, ws.len() as int);
    assert(ws1.remove(ws.len() as int) =~= ws);
}

/// Removing window `id` leaves no window with that id.
pub proof fn lemma_removed_window_gone(ws: Seq<(u32, WindowInfo)>, id: u32)
    requires
        ids_unique(ws),
    ensures
        match window_index(ws, id) {
            Some(k) => window_index(ws.remove(k), id) is None,
            None => true,
        },
{
    lemma_window_index_found(ws, id);
    if let Some(k) = window_index(ws, id) {
        let r = ws.remove(k);
        assert forall|j: int| 0 <= j < r.len() implies #[trigger] r[j].0 != id by {
            if j < k {
                assert(r[j] == ws[j]);
                assert(ws[j].0 != ws[k].0);
            } else {
                assert(r[j] == ws[j + 1]);
                assert(ws[k].0 != ws[j + 1].0);
            }
        }
        lemma_window_index_none(r, id);
    }
}

} // verus!
