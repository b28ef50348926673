//! State of a select (dropdown) element: open or closed, the option
//! highlighted for keyboard navigation, and type-ahead search.
use vstd::prelude::*;
use crate::text::{contains_seq, lowercase, occurs_in, starts_with_seq, string_push, to_lower};
use vstd::arithmetic::div_mod::{lemma_fundamental_div_mod, lemma_mod_multiples_vanish, lemma_small_mod};

verus! {

/// One option of a select dropdown.
#[derive(Debug, Clone, PartialEq)]
pub struct SelectOption {
    /// The value returned when this option is chosen.
    pub value: String,
    /// Text shown in the dropdown.
    pub label: String,
    /// Whether the option can be chosen.
    pub disabled: bool,
}

/// A group of options under a header label.
#[derive(Debug, Clone, PartialEq)]
pub struct SelectGroup {
    pub label: String,
    pub options: Vec<SelectOption>,
}

/// State of a select element.
#[derive(Debug, Clone)]
pub struct SelectState {
    /// Whether the dropdown is open.
    pub open: bool,
    /// Index of the highlighted option.
    pub highlighted: Option<usize>,
    /// Type-ahead search text.
    pub search_text: String,
}

impl SelectOption {
    pub fn new(value: &str, label: &str) -> (r: Self)
        ensures
            r.value@ == value@,
            r.label@ == label@,
            !r.disabled,
    {
        SelectOption { value: value.to_owned(), label: label.to_owned(), disabled: false }
    }

    /// The same option, disabled.
    pub fn disabled(self) -> (r: Self)
        ensures
            r.value == self.value,
            r.label == self.label,
            r.disabled,
    {
        let mut s = self;
        s.disabled = true;
        s
    }
}

impl SelectGroup {
    pub fn new(label: &str, options: Vec<SelectOption>) -> (r: Self)
        ensures
            r.label@ == label@,
            r.options == options,
    {
        SelectGroup { label: label.to_owned(), options }
    }
}

/// Offset, counted from `k`, of the first enabled option met when walking
/// forward from `start` with wrap-around.
pub open spec fn probe_forward(opts: Seq<SelectOption>, start: int, k: int) -> Option<int>
    decreases opts.len() - k,
{
    if k < 0 || k >= opts.len() {
        None
    } else if !opts[(start + k) % (opts.len() as int)].disabled {
        Some(k)
    } else {
        probe_forward(opts, start, k + 1)
    }
}

/// Offset, counted from `k`, of the first enabled option met when walking
/// backward from `start` with wrap-around.
pub open spec fn probe_backward(opts: Seq<SelectOption>, start: int, k: int) -> Option<int>
    decreases opts.len() - k,
{
    if k < 0 || k >= opts.len() {
        None
    } else if !opts[(start + opts.len() - k) % (opts.len() as int)].disabled {
        Some(k)
    } else {
        probe_backward(opts, start, k + 1)
    }
}

/// Where forward navigation starts: after the highlighted option, else at 0.
pub open spec fn forward_start(h: Option<usize>) -> int {
    match h {
        Some(i) => i + 1,
        None => 0,
    }
}

/// Where backward navigation starts: before the highlighted option (the
/// last option before index 0), else at the last option.
pub open spec fn backward_start(h: Option<usize>, count: int) -> int {
    match h {
        Some(i) => if i == 0 {
            count - 1
        } else {
            i - 1
        },
        None => count - 1,
    }
}

/// Highlight after moving forward: the first enabled option at or after the
/// start, wrapping around; unchanged when there is none.
pub open spec fn next_highlight(opts: Seq<SelectOption>, h: Option<usize>) -> Option<usize> {
    if opts.len() == 0 {
        h
    } else {
        match probe_forward(opts, forward_start(h), 0) {
            Some(k) => Some(((forward_start(h) + k) % (opts.len() as int)) as usize),
            None => h,
        }
    }
}

/// Highlight after moving backward, symmetric to `next_highlight`.
pub open spec fn prev_highlight(opts: Seq<SelectOption>, h: Option<usize>) -> Option<usize> {
    if opts.len() == 0 {
        h
    } else {
        let s = backward_start(h, opts.len() as int);
        match probe_backward(opts, s, 0) {
            Some(k) => Some(((s + opts.len() - k) % (opts.len() as int)) as usize),
            None => h,
        }
    }
}

/// Index of the first enabled option from `i` on.
pub open spec fn first_enabled_from(opts: Seq<SelectOption>, i: int) -> Option<int>
    decreases opts.len() - i,
{
    if i < 0 || i >= opts.len() {
        None
    } else if !opts[i].disabled {
        Some(i)
    } else {
        first_enabled_from(opts, i + 1)
    }
}

/// Index of the last enabled option strictly before `i`.
pub open spec fn last_enabled_before(opts: Seq<SelectOption>, i: int) -> Option<int>
    decreases i,
{
    if i <= 0 || i > opts.len() {
        None
    } else if !opts[i - 1].disabled {
        Some(i - 1)
    } else {
        last_enabled_before(opts, i - 1)
    }
}

/// Index of the first enabled option, from `i` on, whose lower-cased label
/// starts with `query`.
pub open spec fn first_match_from(opts: Seq<SelectOption>, query: Seq<char>, i: int) -> Option<
    int,
>
    decreases opts.len() - i,
{
    if i < 0 || i >= opts.len() {
        None
    } else if !opts[i].disabled && lowercase(opts[i].label@).len() >= query.len() && lowercase(
        opts[i].label@,
    ).subrange(0, query.len() as int) == query {
        Some(i)
    } else {
        first_match_from(opts, query, i + 1)
    }
}

/// Indices, in order, of the options from `i` on whose lower-cased label
/// contains `query`.
pub open spec fn matching_from(opts: Seq<SelectOption>, query: Seq<char>, i: int) -> Seq<usize>
    decreases opts.len() - i,
{
    if i < 0 || i >= opts.len() {
        Seq::empty()
    } else if occurs_in(lowercase(opts[i].label@), query) {
        seq![i as usize] + matching_from(opts, query, i + 1)
    } else {
        matching_from(opts, query, i + 1)
    }
}

/// What `filtered_indices` returns: every index when the search text is
/// empty, else those whose lower-cased label contains the lower-cased search.
pub open spec fn filtered(opts: Seq<SelectOption>, search: Seq<char>) -> Seq<usize> {
    if search.len() == 0 {
        Seq::new(opts.len(), |i: int| i as usize)
    } else {
        matching_from(opts, lowercase(search), 0)
    }
}

proof fn lemma_probe_forward_bounds(opts: Seq<SelectOption>, start: int, k: int)
    ensures
        probe_forward(opts, start, k) matches Some(j) ==> k <= j < opts.len(),
    decreases opts.len() - k,
{
    if 0 <= k < opts.len() {
        lemma_probe_forward_bounds(opts, start, k + 1);
    }
}

impl SelectState {
    pub fn new() -> (r: Self)
        ensures
            !r.open,
            r.highlighted is None,
            r.search_text@.len() == 0,
    {
        SelectState { open: false, highlighted: None, search_text: String::new() }
    }

    /// Toggle the dropdown; closing it clears the search.
    pub fn toggle(&mut self)
        ensures
            final(self).open == !old(self).open,
            final(self).highlighted == old(self).highlighted,
            final(self).search_text@ == if final(self).open {
                old(self).search_text@
            } else {
                Seq::<char>::empty()
            },
    {
        self.open = !self.open;
        if !self.open {
            self.search_text = String::new();
        }
    }

    /// Open the dropdown.
    pub fn open(&mut self)
        ensures
            final(self).open,
            final(self).highlighted == old(self).highlighted,
            final(self).search_text == old(self).search_text,
    {
        self.open = true;
    }

    /// Close the dropdown and clear the search.
    pub fn close(&mut self)
        ensures
            !final(self).open,
            final(self).highlighted == old(self).highlighted,
            final(self).search_text@.len() == 0,
    {
        self.open = false;
        self.search_text = String::new();
    }

    /// Highlight the next enabled option, wrapping around.
    pub fn highlight_next(&mut self, options: &[SelectOption])
        requires
            old(self).highlighted matches Some(i) ==> i < usize::MAX,
            options.len() > 0 ==> forward_start(old(self).highlighted) + (match probe_forward(
                options@,
                forward_start(old(self).highlighted),
                0,
            ) {
                Some(k) => k,
                None => options.len() - 1,
            }) <= usize::MAX,
        ensures
            final(self).highlighted == next_highlight(options@, old(self).highlighted),
            final(self).open == old(self).open,
            final(self).search_text == old(self).search_text,
    {
        let count = options.len();
        if count == 0 {
            return;
        }
        let start = match self.highlighted {
            Some(i) => i + 1,
            None => 0,
        };
        let ghost h0 = self.highlighted;
        let mut offset: usize = 0;
        while offset < count
            invariant
                count == options.len(),
                count > 0,
                start == forward_start(h0),
                h0 == old(self).highlighted,
                self.highlighted == h0,
                self.open == old(self).open,
                self.search_text == old(self).search_text,
                offset <= count,
                probe_forward(options@, start as int, 0) == probe_forward(options@, start as int, offset as int),
                start + (match probe_forward(options@, start as int, 0) {
                    Some(k) => k,
                    None => count - 1,
                }) <= usize::MAX,
            decreases count - offset,
        {
            proof {
                lemma_probe_forward_bounds(options@, start as int, offset as int);
            }
            let idx = (start + offset) % count;
            if !options[idx].disabled {
                assert(probe_forward(options@, start as int, offset as int) == Some(offset as int));
                self.highlighted = Some(idx);
                return;
            }
            offset = offset + 1;
        }
    }

    /// Highlight the previous enabled option, wrapping around.
    pub fn highlight_prev(&mut self, options: &[SelectOption])
        requires
            options.len() > 0 ==> backward_start(old(self).highlighted, options.len() as int)
                + options.len() <= usize::MAX,
        ensures
            final(self).highlighted == prev_highlight(options@, old(self).highlighted),
            final(self).open == old(self).open,
            final(self).search_text == old(self).search_text,
    {
        let count = options.len();
        if count == 0 {
            return;
        }
        let start = match self.highlighted {
            Some(i) => if i == 0 {
                count - 1
            } else {
                i - 1
            },
            None => count - 1,
        };
        let ghost h0 = self.highlighted;
        let mut offset: usize = 0;
        while offset < count
            invariant
                count == options.len(),
                count > 0,
                start == backward_start(h0, count as int),
                h0 == old(self).highlighted,
                start + count <= usize::MAX,
                self.highlighted == h0,
                self.open == old(self).open,
                self.search_text == old(self).search_text,
                offset <= count,
                probe_backward(options@, start as int, 0) == probe_backward(options@, start as int, offset as int),
            decreases count - offset,
        {
            let idx = (start + count - offset) % count;
            if !options[idx].disabled {
                assert(probe_backward(options@, start as int, offset as int) == Some(offset as int));
                self.highlighted = Some(idx);
                return;
            }
            offset = offset + 1;
        }
    }

    /// Highlight the first enabled option; unchanged when there is none.
    pub fn highlight_first(&mut self, options: &[SelectOption])
        ensures
            final(self).highlighted == match first_enabled_from(options@, 0) {
                Some(i) => Some(i as usize),
                None => old(self).highlighted,
            },
            final(self).open == old(self).open,
            final(self).search_text == old(self).search_text,
    {
        let mut i: usize = 0;
        while i < options.len()
            invariant
                i <= options.len(),
                first_enabled_from(options@, 0) == first_enabled_from(options@, i as int),
                self.highlighted == old(self).highlighted,
                self.open == old(self).open,
                self.search_text == old(self).search_text,
            decreases options.len() - i,
        {
            if !options[i].disabled {
                self.highlighted = Some(i);
                return;
            }
            i = i + 1;
        }
    }

    /// Highlight the last enabled option; unchanged when there is none.
    pub fn highlight_last(&mut self, options: &[SelectOption])
        ensures
            final(self).highlighted == match last_enabled_before(options@, options.len() as int) {
                Some(i) => Some(i as usize),
                None => old(self).highlighted,
            },
            final(self).open == old(self).open,
            final(self).search_text == old(self).search_text,
    {
        let mut i: usize = options.len();
        while i > 0
            invariant
                i <= options.len(),
                last_enabled_before(options@, options.len() as int) == last_enabled_before(
                    options@,
                    i as int,
                ),
                self.highlighted == old(self).highlighted,
                self.open == old(self).open,
                self.search_text == old(self).search_text,
            decreases i,
        {
            if !options[i - 1].disabled {
                self.highlighted = Some(i - 1);
                return;
            }
            i = i - 1;
        }
    }

    /// Type-ahead: append a character to the search, then highlight the
    /// first enabled option whose label starts with it (ignoring case).
    pub fn type_ahead(&mut self, ch: char, options: &[SelectOption])
        ensures
            final(self).search_text@ == old(self).search_text@.push(ch),
            final(self).highlighted == match first_match_from(
                options@,
                lowercase(old(self).search_text@.push(ch)),
                0,
            ) {
                Some(i) => Some(i as usize),
                None => old(self).highlighted,
            },
            final(self).open == old(self).open,
    {
        string_push(&mut self.search_text, ch);
        self.highlight_first_match(options);
    }

    /// Clear the type-ahead search.
    pub fn clear_search(&mut self)
        ensures
            final(self).search_text@.len() == 0,
            final(self).highlighted == old(self).highlighted,
            final(self).open == old(self).open,
    {
        self.search_text = String::new();
    }

    fn highlight_first_match(&mut self, options: &[SelectOption])
        ensures
            final(self).highlighted == match first_match_from(
                options@,
                lowercase(old(self).search_text@),
                0,
            ) {
                Some(i) => Some(i as usize),
                None => old(self).highlighted,
            },
            final(self).open == old(self).open,
            final(self).search_text == old(self).search_text,
    {
        let query = to_lower(self.search_text.as_str());
        let mut i: usize = 0;
        while i < options.len()
            invariant
                i <= options.len(),
                query@ == lowercase(old(self).search_text@),
                first_match_from(options@, query@, 0) == first_match_from(options@, query@, i as int),
                self.highlighted == old(self).highlighted,
                self.open == old(self).open,
                self.search_text == old(self).search_text,
            decreases options.len() - i,
        {
            if !options[i].disabled {
                let label = to_lower(options[i].label.as_str());
                if starts_with_seq(&label, &query) {
                    self.highlighted = Some(i);
                    return;
                }
            }
            i = i + 1;
        }
    }

    /// Indices of the options whose label contains the search text
    /// (ignoring case); all indices when the search is empty.
    pub fn filtered_indices(&self, options: &[SelectOption]) -> (r: Vec<usize>)
        ensures
            r@ == filtered(options@, self.search_text@),
    {
        let mut out: Vec<usize> = Vec::new();
        if self.search_text.as_str().is_empty() {
            let mut i: usize = 0;
            while i < options.len()
                invariant
                    i <= options.len(),
                    out@ == Seq::new(i as nat, |k: int| k as usize),
                decreases options.len() - i,
            {
                out.push(i);
                i = i + 1;
                assert(out@ =~= Seq::new(i as nat, |k: int| k as usize));
            }
            return out;
        }
        let query = to_lower(self.search_text.as_str());
        let mut i: usize = 0;
        while i < options.len()
            invariant
                i <= options.len(),
                query@ == lowercase(self.search_text@),
                out@ + matching_from(options@, query@, i as int) == matching_from(options@, query@, 0),
            decreases options.len() - i,
        {
            let label = to_lower(options[i].label.as_str());
            if contains_seq(&label, &query) {
                out.push(i);
                assert(out@ + matching_from(options@, query@, i + 1) =~= matching_from(options@, query@, 0));
            }
            i = i + 1;
        }
        assert(matching_from(options@, query@, i as int) =~= Seq::<usize>::empty());
        assert(out@ + Seq::<usize>::empty() =~= out@);
        out
    }
}

impl Default for SelectState {
    fn default() -> (r: Self)
        ensures
            !r.open,
            r.highlighted is None,
            r.search_text@.len() == 0,
    {
        Self::new()
    }
}

// ---------------------------------------------------------------------------
// Laws of keyboard navigation
// ---------------------------------------------------------------------------

proof fn lemma_probe_forward_found(opts: Seq<SelectOption>, start: int, k: int)
    requires
        0 <= k,
    ensures
        probe_forward(opts, start, k) matches Some(j) ==> !opts[(start + j) % (opts.len() as int)].disabled,
        probe_forward(opts, start, k) is None ==> forall|j: int|
            k <= j < opts.len() ==> #[trigger] opts[(start + j) % (opts.len() as int)].disabled,
    decreases opts.len() - k,
{
    if k < opts.len() {
        lemma_probe_forward_found(opts, start, k + 1);
    }
}

proof fn lemma_probe_backward_found(opts: Seq<SelectOption>, start: int, k: int)
    requires
        0 <= k,
    ensures
        probe_backward(opts, start, k) matches Some(j) ==> k <= j < opts.len()
            && !opts[(start + opts.len() - j) % (opts.len() as int)].disabled,
        probe_backward(opts, start, k) is None ==> forall|j: int|
            k <= j < opts.len() ==> #[trigger] opts[(start + opts.len() - j) % (opts.len() as int)].disabled,
    decreases opts.len() - k,
{
    if k < opts.len() {
        lemma_probe_backward_found(opts, start, k + 1);
    }
}

/// Some offset from `start` reaches position `e`, going forward.
proof fn lemma_forward_offset(start: int, e: int, n: int) -> (j: int)
    requires
        0 < n,
        0 <= e < n,
    ensures
        0 <= j < n,
        (start + j) % n == e,
{
    let j = (e - start) % n;
    lemma_fundamental_div_mod(e - start, n);
    let q = (e - start) / n;
    assert(start + j == n * (-q) + e) by (nonlinear_arith)
        requires
            e - start == n * q + j,
    ;
    lemma_mod_multiples_vanish(-q, e, n);
    lemma_small_mod(e as nat, n as nat);
    j
}

/// Some offset from `start` reaches position `e`, going backward.
proof fn lemma_backward_offset(start: int, e: int, n: int) -> (j: int)
    requires
        0 < n,
        0 <= e < n,
    ensures
        0 <= j < n,
        (start + n - j) % n == e,
{
    let j = (start - e) % n;
    lemma_fundamental_div_mod(start - e, n);
    let q = (start - e) / n;
    assert(start + n - j == n * (q + 1) + e) by (nonlinear_arith)
        requires
            start - e == n * q + j,
    ;
    lemma_mod_multiples_vanish(q + 1, e, n);
    lemma_small_mod(e as nat, n as nat);
    j
}

/// How an option of an open dropdown is drawn.
#[derive(Debug, Clone, Copy, PartialEq, Eq, Structural)]
pub enum OptionLook {
    /// Greyed out: the option cannot be chosen.
    Disabled,
    /// The chosen option: accent color, heavier text and a check mark.
    Chosen,
    /// Any other option.
    Plain,
}

/// The text on a closed select: the chosen option's label, or the
/// placeholder when nothing (or an index past the options) is chosen.
/// The flag says whether the placeholder is shown.
pub fn trigger_text(options: &Vec<SelectOption>, selected: Option<usize>, placeholder: &str) -> (r: (String, bool))
    ensures
        match selected {
            Some(i) if i < options.len() => r.0@ == options@[i as int].label@ && !r.1,
            _ => r.0@ == placeholder@ && r.1,
        },
{
    match selected {
        Some(i) => if i < options.len() {
            (options[i].label.clone(), false)
        } else {
            (placeholder.to_owned(), true)
        },
        None => (placeholder.to_owned(), true),
    }
}

/// The look of option `i` in an open dropdown: a disabled option is greyed
/// out even when chosen.
pub fn option_look(option: &SelectOption, i: usize, selected: Option<usize>) -> (r: OptionLook)
    ensures
        r == if option.disabled {
            OptionLook::Disabled
        } else if selected == Some(i) {
            OptionLook::Chosen
        } else {
            OptionLook::Plain
        },
{
    if option.disabled {
        OptionLook::Disabled
    } else if selected == Some(i) {
        OptionLook::Chosen
    } else {
        OptionLook::Plain
    }
}

/// Moving the highlight forward lands on an enabled option whenever the
/// list has one.
pub proof fn lemma_next_highlight_enabled(opts: Seq<SelectOption>, h: Option<usize>, e: int)
    requires
        opts.len() <= usize::MAX,
        0 <= e < opts.len(),
        !opts[e].disabled,
    ensures
        next_highlight(opts, h) matches Some(i) && i < opts.len() && !opts[i as int].disabled,
{
    let n = opts.len() as int;
    let start = forward_start(h);
    lemma_probe_forward_found(opts, start, 0);
    lemma_probe_forward_bounds(opts, start, 0);
    if probe_forward(opts, start, 0) is None {
        let j = lemma_forward_offset(start, e, n);
        assert(opts[(start + j) % n].disabled);
    }
}

/// The offset found walking forward is the first of an enabled option:
/// every option passed before it is disabled.
proof fn lemma_probe_forward_first(opts: Seq<SelectOption>, start: int, k: int)
    requires
        0 <= k,
    ensures
        probe_forward(opts, start, k) matches Some(j) ==> forall|m: int|
            k <= m < j ==> #[trigger] opts[(start + m) % (opts.len() as int)].disabled,
    decreases opts.len() - k,
{
    if k < opts.len() {
        lemma_probe_forward_first(opts, start, k + 1);
    }
}

/// Moving the highlight forward, when some option is enabled, lands on the
/// first enabled option in cyclic order, starting just after the
/// highlighted option (at the first option when none is highlighted).
pub proof fn lemma_next_highlight_first_in_cyclic_order(opts: Seq<SelectOption>, h: Option<usize>, e: int)
    requires
        opts.len() <= usize::MAX,
        0 <= e < opts.len(),
        !opts[e].disabled,
    ensures
        ({
            let n = opts.len() as int;
            let s = forward_start(h);
            exists|k: int|
                0 <= k < n && next_highlight(opts, h) == Some(((s + k) % n) as usize) && !(#[trigger] opts[(s + k) % n]).disabled
                    && forall|m: int| 0 <= m < k ==> #[trigger] opts[(s + m) % n].disabled
        }),
{
    let n = opts.len() as int;
    let s = forward_start(h);
    lemma_next_highlight_enabled(opts, h, e);
    lemma_probe_forward_found(opts, s, 0);
    lemma_probe_forward_bounds(opts, s, 0);
    lemma_probe_forward_first(opts, s, 0);
    if probe_forward(opts, s, 0) is None {
        let j = lemma_forward_offset(s, e, n);
        assert(opts[(s + j) % n].disabled);
    }
    let k = probe_forward(opts, s, 0)->0;
    assert(0 <= k < n && next_highlight(opts, h) == Some(((s + k) % n) as usize));
    assert(!opts[(s + k) % n].disabled);
    assert(forall|m: int| 0 <= m < k ==> #[trigger] opts[(s + m) % n].disabled);
}

/// Moving the highlight backward lands on an enabled option whenever the
/// list has one.
pub proof fn lemma_prev_highlight_enabled(opts: Seq<SelectOption>, h: Option<usize>, e: int)
    requires
        opts.len() <= usize::MAX,
        0 <= e < opts.len(),
        !opts[e].disabled,
    ensures
        prev_highlight(opts, h) matches Some(i) && i < opts.len() && !opts[i as int].disabled,
{
    let n = opts.len() as int;
    let start = backward_start(h, n);
    lemma_probe_backward_found(opts, start, 0);
    if probe_backward(opts, start, 0) is None {
        let j = lemma_backward_offset(start, e, n);
        assert(opts[(start + n - j) % n].disabled);
    }
}

/// With every option disabled, moving the highlight either way leaves it
/// where it was.
pub proof fn lemma_highlight_stays_when_all_disabled(opts: Seq<SelectOption>, h: Option<usize>)
    requires
        forall|i: int| 0 <= i < opts.len() ==> #[trigger] opts[i].disabled,
    ensures
        next_highlight(opts, h) == h,
        prev_highlight(opts, h) == h,
{
    if opts.len() > 0 {
        let n = opts.len() as int;
        let fs = forward_start(h);
        let bs = backward_start(h, n);
        lemma_probe_forward_found(opts, fs, 0);
        lemma_probe_backward_found(opts, bs, 0);
        lemma_probe_forward_bounds(opts, fs, 0);
        if let Some(j) = probe_forward(opts, fs, 0) {
            assert(0 <= (fs + j) % n < n);
            assert(opts[(fs + j) % n].disabled);
        }
        if let Some(j) = probe_backward(opts, bs, 0) {
            assert(0 <= (bs + n - j) % n < n);
            assert(opts[(bs + n - j) % n].disabled);
        }
    }
}

} // verus!
