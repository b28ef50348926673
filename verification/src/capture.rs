//! Pointer capture: a pointer captured by an element sends its events to
//! that element, wherever the pointer is.
use vstd::prelude::*;
use std::collections::HashMap;

verus! {

broadcast use vstd::std_specs::hash::group_hash_axioms;

/// The element that captured each pointer, by pointer id.
pub struct PointerCaptures {
    captures: HashMap<u32, usize>,
}

impl PointerCaptures {
    /// Which element (pre-order index) captured which pointer.
    pub closed spec fn captured(self) -> Map<u32, usize> {
        self.captures@
    }

    pub fn new() -> (r: Self)
        ensures
            r.captured() == Map::<u32, usize>::empty(),
    {
        PointerCaptures { captures: HashMap::new() }
    }

    /// Element `element_idx` captures pointer `pointer_id`, replacing any
    /// earlier capture of that pointer.
    pub fn set_pointer_capture(&mut self, pointer_id: u32, element_idx: usize)
        ensures
            final(self).captured() == old(self).captured().insert(pointer_id, element_idx),
    {
        self.captures.insert(pointer_id, element_idx);
    }

    /// Pointer `pointer_id` is no longer captured.
    pub fn release_pointer_capture(&mut self, pointer_id: u32)
        ensures
            final(self).captured() == old(self).captured().remove(pointer_id),
    {
        self.captures.remove(&pointer_id);
    }

    /// Whether element `element_idx` holds the capture of pointer `pointer_id`.
    pub fn has_pointer_capture(&self, pointer_id: u32, element_idx: usize) -> (r: bool)
        ensures
            r == (self.captured().contains_key(pointer_id) && self.captured()[pointer_id] == element_idx),
    {
        match self.captures.get(&pointer_id) {
            Some(e) => *e == element_idx,
            None => false,
        }
    }

    /// The element that receives the events of pointer `pointer_id` when it
    /// is over element `hit_element`: the capturing element, if any.
    pub fn resolve_target(&self, pointer_id: u32, hit_element: usize) -> (r: usize)
        ensures
            r == if self.captured().contains_key(pointer_id) {
                self.captured()[pointer_id]
            } else {
                hit_element
            },
    {
        match self.captures.get(&pointer_id) {
            Some(e) => *e,
            None => hit_element,
        }
    }
}

/// Capturing and then releasing a pointer leaves the other pointers'
/// captures as they were, and the released pointer goes back to the
/// element under it.
pub proof fn lemma_capture_then_release(m: Map<u32, usize>, pointer_id: u32, element_idx: usize)
    ensures
        m.insert(pointer_id, element_idx).remove(pointer_id) == m.remove(pointer_id),
        !m.insert(pointer_id, element_idx).remove(pointer_id).contains_key(pointer_id),
        m.insert(pointer_id, element_idx)[pointer_id] == element_idx,
{
    assert(m.insert(pointer_id, element_idx).remove(pointer_id) =~= m.remove(pointer_id));
}

} // verus!
