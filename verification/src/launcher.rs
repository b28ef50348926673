//! The launcher's search box: the query typed so far, the applications that
//! match it, the selected one and the visible window of results, driven key
//! by key. The program owning the window performs what each key asks for:
//! a redraw, a resize to `calc_height`, launching a command, or exiting.
use vstd::prelude::*;
use crate::apps::{fuzzy_search, name_scores, ranked, AppEntry};
use crate::text::{chars_of, string_from_chars};

verus! {

pub const WINDOW_WIDTH: u32 = 600;
pub const SEARCH_HEIGHT: u32 = 56;
pub const RESULT_HEIGHT: u32 = 44;
/// Results shown at once.
pub const MAX_VISIBLE: usize = 8;
pub const BOTTOM_PAD: u32 = 8;
pub const SEPARATOR_PAD: u32 = 4;

/// XKB key symbols the launcher reacts to.
pub const KEY_ESCAPE: u32 = 0xff1b;
pub const KEY_RETURN: u32 = 0xff0d;
pub const KEY_BACKSPACE: u32 = 0xff08;
pub const KEY_UP: u32 = 0xff52;
pub const KEY_DOWN: u32 = 0xff54;
pub const KEY_TAB: u32 = 0xff09;

/// Height of the launcher window showing `result_count` results.
pub open spec fn launcher_height(result_count: int) -> int {
    let visible = if result_count < MAX_VISIBLE { result_count } else { MAX_VISIBLE as int };
    if visible == 0 {
        SEARCH_HEIGHT + BOTTOM_PAD
    } else {
        SEARCH_HEIGHT + SEPARATOR_PAD + visible * RESULT_HEIGHT + BOTTOM_PAD
    }
}

/// Height of the launcher window: the search box, and when there are
/// results, a separator and at most `MAX_VISIBLE` result rows.
pub fn calc_height(result_count: usize) -> (h: u32)
    ensures
        h == launcher_height(result_count as int),
{
    let visible = if result_count < MAX_VISIBLE { result_count } else { MAX_VISIBLE };
    if visible == 0 {
        SEARCH_HEIGHT + BOTTOM_PAD
    } else {
        SEARCH_HEIGHT + SEPARATOR_PAD + visible as u32 * RESULT_HEIGHT + BOTTOM_PAD
    }
}

/// A control character (general category Cc), as `char::is_control` tells.
pub open spec fn is_control(c: char) -> bool {
    c <= '\u{1f}' || ('\u{7f}' <= c && c <= '\u{9f}')
}

/// The results `r` of searching `apps` for `query`: every application in
/// order for an empty query, otherwise the matches ranked by score.
pub open spec fn search_results(apps: Seq<AppEntry>, query: Seq<char>, r: Seq<usize>) -> bool {
    if query.len() == 0 {
        r == Seq::new(apps.len(), |i: int| i as usize)
    } else {
        ranked(r, name_scores(apps, query))
    }
}

/// What the program should do after a key.
pub enum KeyAction {
    /// Nothing changed.
    Nothing,
    /// The selection moved: redraw.
    Redraw,
    /// The query and the results changed: resize to `calc_height` of the
    /// new result count and redraw.
    Refiltered,
    /// Run this command and exit.
    Launch(String),
    /// Exit without launching.
    Exit,
}

/// The launcher's state.
pub struct Launcher {
    pub all_apps: Vec<AppEntry>,
    pub query: String,
    /// Position of the selected result in `filtered`.
    pub selected: usize,
    /// Position in `filtered` of the first result shown.
    pub scroll_offset: usize,
    /// Positions in `all_apps` of the results, best first.
    pub filtered: Vec<usize>,
    pub should_exit: bool,
}

/// The scroll offset after moving the selection to `selected`: unchanged
/// while the selection stays within the visible rows, otherwise just far
/// enough to show it.
pub open spec fn scrolled_to(scroll: int, selected: int) -> int {
    if selected < scroll {
        selected
    } else if selected >= scroll + MAX_VISIBLE {
        selected - MAX_VISIBLE + 1
    } else {
        scroll
    }
}

/// The command of the selected result.
pub open spec fn selected_command(l: Launcher) -> Seq<char> {
    l.all_apps@[l.filtered@[l.selected as int] as int].command@
}

/// The query, the results, the selection and the scroll are unchanged.
pub open spec fn same_search(a: Launcher, b: Launcher) -> bool {
    &&& b.all_apps == a.all_apps
    &&& b.query == a.query
    &&& b.filtered == a.filtered
    &&& b.selected == a.selected
    &&& b.scroll_offset == a.scroll_offset
}

/// `b` is `a` after the search was run again for `b`'s query: the first
/// result is selected and the list is at its top.
pub open spec fn searched_again(a: Launcher, b: Launcher) -> bool {
    &&& b.all_apps == a.all_apps
    &&& search_results(b.all_apps@, b.query@, b.filtered@)
    &&& b.selected == 0
    &&& b.scroll_offset == 0
    &&& b.should_exit == a.should_exit
}

/// `b` is `a` with the selection moved to `sel`, scrolled to show it.
pub open spec fn moved_to(a: Launcher, b: Launcher, sel: int) -> bool {
    &&& b.all_apps == a.all_apps
    &&& b.query == a.query
    &&& b.filtered == a.filtered
    &&& b.should_exit == a.should_exit
    &&& b.selected == sel
    &&& b.scroll_offset == scrolled_to(a.scroll_offset as int, sel)
}

/// A query with its last character deleted, if it has one.
pub open spec fn without_last(q: Seq<char>) -> Seq<char> {
    if q.len() == 0 {
        q
    } else {
        q.drop_last()
    }
}

/// Text a key types that goes into the query: not empty, and without
/// control characters.
pub open spec fn typed_text(t: Seq<char>) -> bool {
    t.len() > 0 && forall|i: int| 0 <= i < t.len() ==> !is_control(#[trigger] t[i])
}

/// The keys with a meaning of their own.
pub open spec fn is_command_key(keysym: u32) -> bool {
    keysym == KEY_ESCAPE || keysym == KEY_RETURN || keysym == KEY_BACKSPACE || keysym == KEY_UP
        || keysym == KEY_DOWN || keysym == KEY_TAB
}

impl Launcher {
    /// Results point into the application list, the selection into the
    /// results (or is 0 when there are none), and the selection is not
    /// above the first visible row.
    pub open spec fn wf(self) -> bool {
        &&& forall|k: int| 0 <= k < self.filtered.len() ==> #[trigger] self.filtered[k] < self.all_apps.len()
        &&& (self.filtered.len() == 0 ==> self.selected == 0)
        &&& (self.filtered.len() > 0 ==> self.selected < self.filtered.len())
        &&& self.scroll_offset <= self.selected
    }

    /// A launcher over `apps` with an empty query: every application is a
    /// result and the first is selected.
    pub fn new(apps: Vec<AppEntry>) -> (r: Self)
        ensures
            r.wf(),
            r.all_apps@ == apps@,
            r.query@ == Seq::<char>::empty(),
            r.filtered@ == Seq::new(apps.len() as nat, |i: int| i as usize),
            r.selected == 0,
            r.scroll_offset == 0,
            !r.should_exit,
    {
        let mut filtered: Vec<usize> = Vec::new();
        let mut i: usize = 0;
        while i < apps.len()
            invariant
                i <= apps.len(),
                filtered@ == Seq::new(i as nat, |k: int| k as usize),
            decreases apps.len() - i,
        {
            filtered.push(i);
            i = i + 1;
            assert(filtered@ =~= Seq::new(i as nat, |k: int| k as usize));
        }
        Launcher {
            all_apps: apps,
            query: String::new(),
            selected: 0,
            scroll_offset: 0,
            filtered,
            should_exit: false,
        }
    }

    /// Search again for the query; the selection is kept when it still
    /// points at a result (the last one otherwise), and the list scrolls to
    /// its top.
    pub fn update_filter(&mut self)
        ensures
            final(self).wf(),
            final(self).all_apps == old(self).all_apps,
            final(self).query == old(self).query,
            final(self).should_exit == old(self).should_exit,
            search_results(final(self).all_apps@, final(self).query@, final(self).filtered@),
            final(self).selected == if final(self).filtered.len() == 0 {
                0
            } else if old(self).selected < final(self).filtered.len() {
                old(self).selected as int
            } else {
                final(self).filtered.len() - 1
            },
            final(self).scroll_offset == 0,
    {
        self.filtered = fuzzy_search(self.all_apps.as_slice(), self.query.as_str());
        if self.filtered.len() > 0 {
            if self.selected > self.filtered.len() - 1 {
                self.selected = self.filtered.len() - 1;
            }
        } else {
            self.selected = 0;
        }
        self.scroll_offset = 0;
        assert forall|k: int| 0 <= k < self.filtered.len() implies #[trigger] self.filtered[k] < self.all_apps.len() by {
            if self.query@.len() > 0 {
                assert(name_scores(self.all_apps@, self.query@).len() == self.all_apps.len());
            }
        }
    }

    /// Scroll so that the selected result is visible.
    pub fn ensure_selection_visible(&mut self)
        ensures
            final(self).scroll_offset == scrolled_to(old(self).scroll_offset as int, old(self).selected as int),
            final(self).selected == old(self).selected,
            final(self).filtered == old(self).filtered,
            final(self).all_apps == old(self).all_apps,
            final(self).query == old(self).query,
            final(self).should_exit == old(self).should_exit,
    {
        if self.selected < self.scroll_offset {
            self.scroll_offset = self.selected;
        } else if self.selected - self.scroll_offset >= MAX_VISIBLE {
            self.scroll_offset = self.selected - MAX_VISIBLE + 1;
        }
    }

    /// The command of the selected application, if there is a result;
    /// launching it ends the launcher.
    pub fn launch_selected(&mut self) -> (r: Option<String>)
        requires
            old(self).wf(),
        ensures
            final(self).wf(),
            old(self).filtered.len() == 0 ==> r is None && *final(self) == *old(self),
            old(self).filtered.len() > 0 ==> {
                &&& r matches Some(c) && c@ == selected_command(*old(self))
                &&& final(self).should_exit
                &&& same_search(*old(self), *final(self))
            },
    {
        if self.filtered.len() == 0 {
            return None;
        }
        let idx = self.filtered[self.selected];
        let command = self.all_apps[idx].command.clone();
        self.should_exit = true;
        Some(command)
    }

    /// React to a key: `keysym` is its XKB key symbol and `text` the text
    /// it types, if any.
    ///
    /// Escape exits; Return launches the selected application; Backspace
    /// deletes the last character of the query; Up and Down (or Tab) move
    /// the selection within the results; any other key that types text
    /// without control characters appends it to the query. Editing the
    /// query searches again and selects the first result.
    pub fn press_key(&mut self, keysym: u32, text: Option<&str>) -> (action: KeyAction)
        requires
            old(self).wf(),
        ensures
            final(self).wf(),
            final(self).all_apps == old(self).all_apps,
            keysym == KEY_ESCAPE ==> {
                &&& action is Exit
                &&& final(self).should_exit
                &&& same_search(*old(self), *final(self))
            },
            keysym == KEY_RETURN ==> if old(self).filtered.len() == 0 {
                action is Nothing && *final(self) == *old(self)
            } else {
                &&& action matches KeyAction::Launch(c) && c@ == selected_command(*old(self))
                &&& final(self).should_exit
                &&& same_search(*old(self), *final(self))
            },
            keysym == KEY_BACKSPACE ==> {
                &&& action is Refiltered
                &&& final(self).query@ == without_last(old(self).query@)
                &&& searched_again(*old(self), *final(self))
            },
            keysym == KEY_UP ==> if old(self).selected > 0 {
                &&& action is Redraw
                &&& moved_to(*old(self), *final(self), old(self).selected - 1)
            } else {
                action is Nothing && *final(self) == *old(self)
            },
            (keysym == KEY_DOWN || keysym == KEY_TAB) ==> if old(self).selected + 1 < old(self).filtered.len() {
                &&& action is Redraw
                &&& moved_to(*old(self), *final(self), old(self).selected + 1)
            } else {
                action is Nothing && *final(self) == *old(self)
            },
            !is_command_key(keysym) ==> match text {
                Some(t) => if typed_text(t@) {
                    &&& action is Refiltered
                    &&& final(self).query@ == old(self).query@ + t@
                    &&& searched_again(*old(self), *final(self))
                } else {
                    action is Nothing && *final(self) == *old(self)
                },
                None => action is Nothing && *final(self) == *old(self),
            },
    {
        if keysym == KEY_ESCAPE {
            self.should_exit = true;
            KeyAction::Exit
        } else if keysym == KEY_RETURN {
            match self.launch_selected() {
                Some(c) => KeyAction::Launch(c),
                None => KeyAction::Nothing,
            }
        } else if keysym == KEY_BACKSPACE {
            let v = chars_of(self.query.as_str());
            if v.len() > 0 {
                let mut w: Vec<char> = Vec::new();
                let mut i: usize = 0;
                while i + 1 < v.len()
                    invariant
                        v.len() > 0,
                        i < v.len(),
                        w@ == v@.subrange(0, i as int),
                    decreases v.len() - i,
                {
                    w.push(v[i]);
                    i = i + 1;
                }
                assert(w@ =~= v@.drop_last());
                self.query = string_from_chars(&w);
            }
            self.selected = 0;
            self.scroll_offset = 0;
            self.update_filter();
            KeyAction::Refiltered
        } else if keysym == KEY_UP {
            if self.selected > 0 {
                self.selected = self.selected - 1;
                self.ensure_selection_visible();
                KeyAction::Redraw
            } else {
                KeyAction::Nothing
            }
        } else if keysym == KEY_DOWN || keysym == KEY_TAB {
            if self.filtered.len() > 0 && self.selected + 1 < self.filtered.len() {
                self.selected = self.selected + 1;
                self.ensure_selection_visible();
                KeyAction::Redraw
            } else {
                KeyAction::Nothing
            }
        } else {
            match text {
                Some(t) => {
                    let tv = chars_of(t);
                    let mut ok = tv.len() > 0;
                    let mut i: usize = 0;
                    while i < tv.len()
                        invariant
                            i <= tv.len(),
                            tv@ == t@,
                            ok == (tv.len() > 0 && forall|k: int| 0 <= k < i ==> !is_control(#[trigger] tv@[k])),
                        decreases tv.len() - i,
                    {
                        let c = tv[i];
                        if c <= '\u{1f}' || ('\u{7f}' <= c && c <= '\u{9f}') {
                            ok = false;
                        }
                        i = i + 1;
                    }
                    if ok {
                        let mut q = chars_of(self.query.as_str());
                        let mut j: usize = 0;
                        let ghost start = q@;
                        while j < tv.len()
                            invariant
                                j <= tv.len(),
                                q@ == start + tv@.subrange(0, j as int),
                            decreases tv.len() - j,
                        {
                            q.push(tv[j]);
                            j = j + 1;
                        }
                        assert(tv@.subrange(0, tv.len() as int) =~= tv@);
                        self.query = string_from_chars(&q);
                        self.selected = 0;
                        self.scroll_offset = 0;
                        self.update_filter();
                        KeyAction::Refiltered
                    } else {
                        KeyAction::Nothing
                    }
                },
                None => KeyAction::Nothing,
            }
        }
    }

    /// The results to draw: positions `start..end` of `filtered`, and the
    /// row of the selection among them.
    pub fn visible_results(&self) -> (r: (usize, usize, usize))
        requires
            self.wf(),
        ensures
            r.0 == self.scroll_offset,
            r.1 == if self.scroll_offset + MAX_VISIBLE < self.filtered.len() {
                self.scroll_offset + MAX_VISIBLE
            } else {
                self.filtered.len() as int
            },
            r.2 == self.selected - self.scroll_offset,
    {
        let start = self.scroll_offset;
        let end = if self.filtered.len() - start > MAX_VISIBLE {
            start + MAX_VISIBLE
        } else {
            self.filtered.len()
        };
        (start, end, self.selected - start)
    }
}

/// Backspace takes back the text a key typed, one character at a time:
/// after typing one character, Backspace restores the query.
pub proof fn lemma_backspace_undoes_typing(query: Seq<char>, c: char)
    ensures
        without_last(query + seq![c]) == query,
{
    assert((query + seq![c]).drop_last() =~= query);
}

/// A typed text of several characters is taken back by as many
/// Backspaces.
pub proof fn lemma_backspaces_undo_text(query: Seq<char>, t: Seq<char>)
    ensures
        repeat_without_last(query + t, t.len()) == query,
    decreases t.len(),
{
    if t.len() > 0 {
        assert((query + t).drop_last() =~= query + t.drop_last());
        lemma_backspaces_undo_text(query, t.drop_last());
    } else {
        assert(query + t =~= query);
    }
}

/// The query after `n` Backspaces.
pub open spec fn repeat_without_last(q: Seq<char>, n: nat) -> Seq<char>
    decreases n,
{
    if n == 0 {
        q
    } else {
        repeat_without_last(without_last(q), (n - 1) as nat)
    }
}

} // verus!
