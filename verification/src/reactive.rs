//! Reactive values: a value with an identity that records, when it is set,
//! that the view must render again; and the queue of view mutations that
//! event handlers leave for the next render.
//!
//! The identities come from an `IdSource` and the record of changed values
//! is a `DirtySet`; the program keeps one of each for the whole user
//! interface.
//!
//! A `RenderContext` collects what a render asks of the surfaces: a new
//! size for the main surface, popups to open or close, and the element
//! trees of the popups.
use vstd::prelude::*;
use crate::text::string_views;

verus! {

/// Identity of a reactive value.
#[derive(Debug, Clone, Copy, PartialEq, Eq, Hash, Structural)]
pub struct ReactiveId(pub u64);

/// The source of reactive identities: a counter that starts at 1.
pub struct IdSource {
    next: u64,
}

impl IdSource {
    /// The identity the next call of `next_reactive_id` gives.
    pub closed spec fn upcoming(self) -> u64 {
        self.next
    }

    pub fn new() -> (r: Self)
        ensures
            r.upcoming() == 1,
    {
        IdSource { next: 1 }
    }
}

/// A fresh identity: the counter's value, after which the counter moves on
/// by one (wrapping around, as an atomic counter does).
pub fn next_reactive_id(ids: &mut IdSource) -> (r: ReactiveId)
    ensures
        r.0 == old(ids).upcoming(),
        final(ids).upcoming() == (if old(ids).upcoming() == u64::MAX {
            0
        } else {
            old(ids).upcoming() + 1
        }),
{
    let id = ReactiveId(ids.next);
    ids.next = ids.next.wrapping_add(1);
    id
}

/// The identities of the reactive values set since the set was last taken.
pub struct DirtySet {
    ids: Vec<ReactiveId>,
}

impl DirtySet {
    pub closed spec fn members(self) -> Set<ReactiveId> {
        Set::new(|x: ReactiveId| self.ids@.contains(x))
    }

    pub fn new() -> (r: Self)
        ensures
            r.members() == Set::<ReactiveId>::empty(),
    {
        let r = DirtySet { ids: Vec::new() };
        assert(r.members() =~= Set::<ReactiveId>::empty());
        r
    }

    /// Record that value `id` changed.
    pub fn insert(&mut self, id: ReactiveId)
        ensures
            final(self).members() == old(self).members().insert(id),
    {
        let mut i: usize = 0;
        while i < self.ids.len()
            invariant
                i <= self.ids.len(),
                forall|k: int| 0 <= k < i ==> self.ids@[k] != id,
            decreases self.ids.len() - i,
        {
            if self.ids[i] == id {
                assert(self.ids@.contains(id));
                assert(self.members() =~= old(self).members().insert(id));
                return;
            }
            i = i + 1;
        }
        self.ids.push(id);
        assert forall|x: ReactiveId| #[trigger] self.ids@.contains(x) == (old(self).ids@.contains(x) || x == id) by {
            if old(self).ids@.contains(x) {
                let k = choose|k: int| 0 <= k < old(self).ids@.len() && old(self).ids@[k] == x;
                assert(self.ids@[k] == x);
            }
            if self.ids@.contains(x) && x != id {
                let k = choose|k: int| 0 <= k < self.ids@.len() && self.ids@[k] == x;
                assert(k < old(self).ids@.len());
                assert(old(self).ids@[k] == x);
            }
            if x == id {
                assert(self.ids@[self.ids@.len() - 1] == id);
            }
        }
        assert(self.members() =~= old(self).members().insert(id));
    }
}

/// Whether some reactive value was set since the set was last taken; the
/// set is emptied.
pub fn take_dirty(dirty: &mut DirtySet) -> (r: bool)
    ensures
        r == (old(dirty).members() != Set::<ReactiveId>::empty()),
        final(dirty).members() == Set::<ReactiveId>::empty(),
{
    let was = is_dirty(dirty);
    dirty.ids = Vec::new();
    assert(dirty.members() =~= Set::<ReactiveId>::empty());
    was
}

/// Whether some reactive value was set since the set was last taken.
pub fn is_dirty(dirty: &DirtySet) -> (r: bool)
    ensures
        r == (dirty.members() != Set::<ReactiveId>::empty()),
{
    if dirty.ids.len() > 0 {
        assert(dirty.members().contains(dirty.ids@[0]));
        true
    } else {
        assert(dirty.members() =~= Set::<ReactiveId>::empty());
        false
    }
}

/// A value that asks for a render when it changes.
pub struct Reactive<T> {
    value: T,
    id: ReactiveId,
}

impl<T> Reactive<T> {
    /// The current value.
    pub closed spec fn current(self) -> T {
        self.value
    }

    /// The value's identity.
    pub closed spec fn identity(self) -> ReactiveId {
        self.id
    }

    /// A reactive value with a fresh identity from `ids`.
    pub fn new(value: T, ids: &mut IdSource) -> (r: Self)
        ensures
            r.current() == value,
            r.identity().0 == old(ids).upcoming(),
            final(ids).upcoming() == (if old(ids).upcoming() == u64::MAX {
                0
            } else {
                old(ids).upcoming() + 1
            }),
    {
        Reactive { value, id: next_reactive_id(ids) }
    }

    /// The value, read outside a render.
    pub fn get_untracked(&self) -> (r: &T)
        ensures
            *r == self.current(),
    {
        &self.value
    }

    /// Replace the value and record in `dirty` that it changed.
    pub fn set(&mut self, value: T, dirty: &mut DirtySet)
        ensures
            final(self).current() == value,
            final(self).identity() == old(self).identity(),
            final(dirty).members() == old(dirty).members().insert(old(self).identity()),
    {
        self.value = value;
        dirty.insert(self.id);
    }

    pub fn id(&self) -> (r: ReactiveId)
        ensures
            r == self.identity(),
    {
        self.id
    }
}

/// The view mutations queued by event handlers, applied in order before
/// the next render.
pub struct MutationQueue<M> {
    queue: Vec<M>,
}

impl<M> MutationQueue<M> {
    /// The queued mutations, oldest first.
    pub closed spec fn pending(self) -> Seq<M> {
        self.queue@
    }

    pub fn new() -> (r: Self)
        ensures
            r.pending() == Seq::<M>::empty(),
    {
        MutationQueue { queue: Vec::new() }
    }

    /// Queue a mutation after those already queued.
    pub fn push(&mut self, f: M)
        ensures
            final(self).pending() == old(self).pending().push(f),
    {
        self.queue.push(f);
    }

    /// Take every queued mutation, oldest first, leaving the queue empty.
    pub fn drain(&mut self) -> (r: Vec<M>)
        ensures
            r@ == old(self).pending(),
            final(self).pending() == Seq::<M>::empty(),
    {
        let mut out: Vec<M> = Vec::new();
        std::mem::swap(&mut out, &mut self.queue);
        out
    }

    pub fn is_empty(&self) -> (r: bool)
        ensures
            r == (self.pending().len() == 0),
    {
        self.queue.len() == 0
    }
}

/// Setting a reactive value leaves the set of changed values non-empty
/// and holding that value's identity, so the next render happens; taking
/// the set then empties it.
pub proof fn lemma_set_marks_dirty(before: Set<ReactiveId>, id: ReactiveId)
    ensures
        before.insert(id).contains(id),
        before.insert(id) != Set::<ReactiveId>::empty(),
{
    assert(before.insert(id).contains(id));
    assert(!Set::<ReactiveId>::empty().contains(id));
}

/// Mutations come out of the queue in the order they were queued: pushing
/// `fs` one by one onto a queue holding `q` and draining gives `q` then `fs`.
pub proof fn lemma_queue_is_fifo<M>(q: Seq<M>, fs: Seq<M>)
    ensures
        pushed_all(q, fs) == q + fs,
    decreases fs.len(),
{
    if fs.len() > 0 {
        lemma_queue_is_fifo(q, fs.drop_last());
        assert(q + fs.drop_last().push(fs.last()) =~= q + fs);
        assert(fs.drop_last().push(fs.last()) =~= fs);
    } else {
        assert(q + fs =~= q);
    }
}

/// The queue after pushing each of `fs` in turn onto `q`.
pub open spec fn pushed_all<M>(q: Seq<M>, fs: Seq<M>) -> Seq<M>
    decreases fs.len(),
{
    if fs.len() == 0 {
        q
    } else {
        pushed_all(q, fs.drop_last()).push(fs.last())
    }
}

/// A request to open or close a popup surface, made during a render.
#[derive(Debug)]
pub enum PopupRequest<C> {
    Open { key: String, config: C },
    Close { key: String },
}

/// The element tree of each key of a list of (key, element) entries: the
/// last entry of a key counts.
pub open spec fn keyed_map<E>(s: Seq<(String, E)>) -> Map<Seq<char>, E>
    decreases s.len(),
{
    if s.len() == 0 {
        Map::empty()
    } else {
        keyed_map(s.drop_last()).insert(s.last().0@, s.last().1)
    }
}

/// No key occurs twice.
pub open spec fn keys_unique<E>(s: Seq<(String, E)>) -> bool {
    forall|i: int, j: int| 0 <= i < s.len() && 0 <= j < s.len() && i != j ==> #[trigger] s[i].0@ != #[trigger] s[j].0@
}

proof fn lemma_keyed_map_update<E>(s: Seq<(String, E)>, i: int, x: (String, E))
    requires
        keys_unique(s),
        0 <= i < s.len(),
        x.0@ == s[i].0@,
    ensures
        keyed_map(s.update(i, x)) == keyed_map(s).insert(x.0@, x.1),
    decreases s.len(),
{
    let u = s.update(i, x);
    if i == s.len() - 1 {
        assert(u.drop_last() =~= s.drop_last());
        assert(keyed_map(u) =~= keyed_map(s).insert(x.0@, x.1));
    } else {
        let d = s.drop_last();
        assert(u.drop_last() =~= d.update(i, x));
        assert(keys_unique(d)) by {
            assert forall|a: int, b: int| 0 <= a < d.len() && 0 <= b < d.len() && a != b implies #[trigger] d[a].0@
                != #[trigger] d[b].0@ by {
                assert(d[a] == s[a] && d[b] == s[b]);
            }
        }
        lemma_keyed_map_update(d, i, x);
        assert(s.last().0@ != x.0@) by {
            assert(s[s.len() - 1].0@ != s[i].0@);
        }
        assert(u.last() == s.last());
        assert(keyed_map(u) =~= keyed_map(s).insert(x.0@, x.1));
    }
}

proof fn lemma_keyed_map_keys<E>(s: Seq<(String, E)>, k: Seq<char>)
    ensures
        keyed_map(s).dom().contains(k) <==> exists|i: int| 0 <= i < s.len() && #[trigger] s[i].0@ == k,
    decreases s.len(),
{
    if s.len() > 0 {
        let d = s.drop_last();
        lemma_keyed_map_keys(d, k);
        if exists|i: int| 0 <= i < s.len() && #[trigger] s[i].0@ == k {
            let i = choose|i: int| 0 <= i < s.len() && #[trigger] s[i].0@ == k;
            if i < s.len() - 1 {
                assert(d[i].0@ == k);
            }
        }
        if exists|i: int| 0 <= i < d.len() && #[trigger] d[i].0@ == k {
            let i = choose|i: int| 0 <= i < d.len() && #[trigger] d[i].0@ == k;
            assert(s[i].0@ == k);
        }
    }
}

/// What a render asks of the surfaces. `C` is the configuration of a
/// popup surface, `E` an element tree.
pub struct RenderContext<C, E> {
    surface_width: u32,
    surface_height: u32,
    requested_size: Option<(u32, u32)>,
    popup_requests: Vec<PopupRequest<C>>,
    popup_elements: Vec<(String, E)>,
    open_popups: Vec<String>,
}

impl<C, E> RenderContext<C, E> {
    /// Each popup has at most one element tree.
    #[verifier::type_invariant]
    spec fn one_tree_per_popup(self) -> bool {
        keys_unique(self.popup_elements@)
    }

    /// The main surface's size (width, height).
    pub closed spec fn surface(self) -> (u32, u32) {
        (self.surface_width, self.surface_height)
    }

    /// The size asked for during this render, if any.
    pub closed spec fn requested(self) -> Option<(u32, u32)> {
        self.requested_size
    }

    /// The popup requests of this render, in the order made.
    pub closed spec fn requests(self) -> Seq<PopupRequest<C>> {
        self.popup_requests@
    }

    /// The element tree given in this render for each popup key.
    pub closed spec fn elements(self) -> Map<Seq<char>, E> {
        keyed_map(self.popup_elements@)
    }

    /// The keys of the popups open when the render began.
    pub closed spec fn open_keys(self) -> Set<Seq<char>> {
        string_views(self.open_popups@).to_set()
    }

    pub fn new(surface_width: u32, surface_height: u32) -> (r: Self)
        ensures
            r.surface() == (surface_width, surface_height),
            r.requested() is None,
            r.requests().len() == 0,
            r.elements() == Map::<Seq<char>, E>::empty(),
            r.open_keys() == Set::<Seq<char>>::empty(),
    {
        let r = RenderContext {
            surface_width,
            surface_height,
            requested_size: None,
            popup_requests: Vec::new(),
            popup_elements: Vec::new(),
            open_popups: Vec::new(),
        };
        assert(string_views(r.open_popups@).to_set() =~= Set::<Seq<char>>::empty());
        r
    }

    /// Current surface dimensions.
    pub fn surface_size(&self) -> (r: (u32, u32))
        ensures
            r == self.surface(),
    {
        (self.surface_width, self.surface_height)
    }

    /// Ask for the surface to be resized; it takes effect next frame, and
    /// the size reads back at once.
    pub fn set_surface_size(&mut self, width: u32, height: u32)
        ensures
            final(self).surface() == (width, height),
            final(self).requested() == Some((width, height)),
            final(self).requests() == old(self).requests(),
            final(self).elements() == old(self).elements(),
            final(self).open_keys() == old(self).open_keys(),
    {
        proof {
            use_type_invariant(&*self);
        }
        self.surface_width = width;
        self.surface_height = height;
        self.requested_size = Some((width, height));
    }

    /// Take the size asked for during the render, if any.
    pub fn take_requested_size(&mut self) -> (r: Option<(u32, u32)>)
        ensures
            r == old(self).requested(),
            final(self).requested() is None,
            final(self).surface() == old(self).surface(),
            final(self).requests() == old(self).requests(),
            final(self).elements() == old(self).elements(),
            final(self).open_keys() == old(self).open_keys(),
    {
        proof {
            use_type_invariant(&*self);
        }
        let r = self.requested_size;
        self.requested_size = None;
        r
    }

    /// Ask for popup `key` to open with `config`.
    pub fn open_popup(&mut self, key: &str, config: C)
        ensures
            final(self).requests().len() == old(self).requests().len() + 1,
            final(self).requests().drop_last() == old(self).requests(),
            final(self).requests().last() matches PopupRequest::Open { key: k, config: c } && k@ == key@
                && c == config,
            final(self).surface() == old(self).surface(),
            final(self).requested() == old(self).requested(),
            final(self).elements() == old(self).elements(),
            final(self).open_keys() == old(self).open_keys(),
    {
        proof {
            use_type_invariant(&*self);
        }
        let mut reqs: Vec<PopupRequest<C>> = Vec::new();
        std::mem::swap(&mut reqs, &mut self.popup_requests);
        reqs.push(PopupRequest::Open { key: key.to_owned(), config });
        std::mem::swap(&mut reqs, &mut self.popup_requests);
        assert(self.popup_requests@.drop_last() =~= old(self).popup_requests@);
    }

    /// Ask for popup `key` to close (nothing happens if it is not open).
    pub fn close_popup(&mut self, key: &str)
        ensures
            final(self).requests().len() == old(self).requests().len() + 1,
            final(self).requests().drop_last() == old(self).requests(),
            final(self).requests().last() matches PopupRequest::Close { key: k } && k@ == key@,
            final(self).surface() == old(self).surface(),
            final(self).requested() == old(self).requested(),
            final(self).elements() == old(self).elements(),
            final(self).open_keys() == old(self).open_keys(),
    {
        proof {
            use_type_invariant(&*self);
        }
        let mut reqs: Vec<PopupRequest<C>> = Vec::new();
        std::mem::swap(&mut reqs, &mut self.popup_requests);
        reqs.push(PopupRequest::Close { key: key.to_owned() });
        std::mem::swap(&mut reqs, &mut self.popup_requests);
        assert(self.popup_requests@.drop_last() =~= old(self).popup_requests@);
    }

    /// Whether popup `key` was open when the render began.
    pub fn is_popup_open(&self, key: &str) -> (r: bool)
        ensures
            r == self.open_keys().contains(key@),
    {
        let k = key.to_owned();
        let mut i: usize = 0;
        while i < self.open_popups.len()
            invariant
                i <= self.open_popups.len(),
                k@ == key@,
                forall|j: int| 0 <= j < i ==> self.open_popups@[j]@ != key@,
            decreases self.open_popups.len() - i,
        {
            if self.open_popups[i] == k {
                assert(string_views(self.open_popups@)[i as int] == key@);
                return true;
            }
            i = i + 1;
        }
        proof {
            if string_views(self.open_popups@).to_set().contains(key@) {
                let j = choose|j: int| 0 <= j < self.open_popups@.len() && string_views(self.open_popups@)[j] == key@;
                assert(self.open_popups@[j]@ == key@);
            }
        }
        false
    }

    /// Give the element tree of popup `key`, replacing any given before in
    /// this render.
    pub fn render_popup(&mut self, key: &str, element: E)
        ensures
            final(self).elements() == old(self).elements().insert(key@, element),
            final(self).surface() == old(self).surface(),
            final(self).requested() == old(self).requested(),
            final(self).requests() == old(self).requests(),
            final(self).open_keys() == old(self).open_keys(),
    {
        proof {
            use_type_invariant(&*self);
        }
        let mut entries: Vec<(String, E)> = Vec::new();
        std::mem::swap(&mut entries, &mut self.popup_elements);
        let k = key.to_owned();
        let mut i: usize = 0;
        let mut found = false;
        while i < entries.len() && !found
            invariant
                i <= entries.len(),
                k@ == key@,
                entries@ == old(self).popup_elements@,
                found ==> i < entries.len() && entries@[i as int].0@ == key@,
                forall|j: int| 0 <= j < i ==> (#[trigger] entries@[j]).0@ != key@,
            decreases entries.len() - i + if found { 0int } else { 1int },
        {
            if entries[i].0 == k {
                found = true;
            } else {
                i = i + 1;
            }
        }
        let ghost before = entries@;
        if found {
            entries.set(i, (k, element));
            proof {
                lemma_keyed_map_update(before, i as int, entries@[i as int]);
                assert(entries@ == before.update(i as int, entries@[i as int]));
                assert forall|a: int, b: int| 0 <= a < entries@.len() && 0 <= b < entries@.len() && a != b implies #[trigger] entries@[a].0@
                    != #[trigger] entries@[b].0@ by {
                    if a != i && b != i {
                        assert(entries@[a] == before[a] && entries@[b] == before[b]);
                    } else if a == i {
                        assert(entries@[b] == before[b]);
                        assert(before[b].0@ != before[a].0@);
                    } else {
                        assert(entries@[a] == before[a]);
                        assert(before[a].0@ != before[b].0@);
                    }
                }
            }
        } else {
            entries.push((k, element));
            proof {
                assert(entries@.drop_last() =~= before);
                assert forall|a: int, b: int| 0 <= a < entries@.len() && 0 <= b < entries@.len() && a != b implies #[trigger] entries@[a].0@
                    != #[trigger] entries@[b].0@ by {
                    if a < before.len() && b < before.len() {
                        assert(entries@[a] == before[a] && entries@[b] == before[b]);
                    } else if a < before.len() {
                        assert(entries@[a] == before[a]);
                    } else {
                        assert(entries@[b] == before[b]);
                    }
                }
            }
        }
        std::mem::swap(&mut entries, &mut self.popup_elements);
    }

    /// Record which popups are open before the render begins.
    pub fn set_open_popups(&mut self, keys: Vec<String>)
        ensures
            final(self).open_keys() == string_views(keys@).to_set(),
            final(self).surface() == old(self).surface(),
            final(self).requested() == old(self).requested(),
            final(self).requests() == old(self).requests(),
            final(self).elements() == old(self).elements(),
    {
        proof {
            use_type_invariant(&*self);
        }
        self.open_popups = keys;
    }

    /// Take the popup requests of the render, in the order made.
    pub fn take_popup_requests(&mut self) -> (r: Vec<PopupRequest<C>>)
        ensures
            r@ == old(self).requests(),
            final(self).requests().len() == 0,
            final(self).surface() == old(self).surface(),
            final(self).requested() == old(self).requested(),
            final(self).elements() == old(self).elements(),
            final(self).open_keys() == old(self).open_keys(),
    {
        proof {
            use_type_invariant(&*self);
        }
        let mut out: Vec<PopupRequest<C>> = Vec::new();
        std::mem::swap(&mut out, &mut self.popup_requests);
        out
    }

    /// Take the popup element trees of the render: one (key, tree) entry
    /// per popup, no key twice.
    pub fn take_popup_elements(&mut self) -> (r: Vec<(String, E)>)
        ensures
            keys_unique(r@),
            keyed_map(r@) == old(self).elements(),
            final(self).elements() == Map::<Seq<char>, E>::empty(),
            final(self).surface() == old(self).surface(),
            final(self).requested() == old(self).requested(),
            final(self).requests() == old(self).requests(),
            final(self).open_keys() == old(self).open_keys(),
    {
        proof {
            use_type_invariant(&*self);
        }
        let mut out: Vec<(String, E)> = Vec::new();
        std::mem::swap(&mut out, &mut self.popup_elements);
        out
    }
}

/// The popups of the taken entries are exactly those given a tree in the
/// render, each once.
pub proof fn lemma_taken_keys<E>(s: Seq<(String, E)>, k: Seq<char>)
    requires
        keys_unique(s),
    ensures
        keyed_map(s).dom().contains(k) <==> exists|i: int| 0 <= i < s.len() && #[trigger] s[i].0@ == k,
{
    lemma_keyed_map_keys(s, k);
}

} // verus!
