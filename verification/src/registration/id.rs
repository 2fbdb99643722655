//! Identification: allocator-scoped identifiers with free-list reuse.
//!
//! An [`IDSystem`] issues identifiers that are unique among the identifiers
//! of that allocator which are still live (issued and not yet freed).  A
//! freed value may be reissued later; the ghost `live` set records exactly
//! the values that are currently held, and `take` always returns a value
//! outside it.

use vstd::prelude::*;

verus! {

/// An identifier: a value scoped to the allocator that issued it.
///
/// Identifiers from different allocators never compare equal, because the
/// allocator tag is part of the identity.  Ordering is only meaningful
/// within one allocator; see [`ID::is_before`].
#[derive(Clone, Copy, Debug, PartialEq, Eq, Structural, Hash)]
pub struct ID {
    pub value: usize,
    pub system: usize,
}

impl ID {
    /// The numeric value of this identifier.
    pub fn get_value(&self) -> (v: usize)
        ensures
            v == self.value,
    {
        self.value
    }

    /// The tag of the allocator that issued this identifier.
    pub fn get_system(&self) -> (t: usize)
        ensures
            t == self.system,
    {
        self.system
    }

    /// The numeric value, as a spec-level projection.
    pub open spec fn spec_value(self) -> usize {
        self.value
    }

    /// The allocator tag, as a spec-level projection.
    pub open spec fn spec_system(self) -> usize {
        self.system
    }

    /// Ordering between identifiers of one allocator.  Comparing
    /// identifiers of two different allocators is a caller error and is
    /// excluded by the precondition.
    pub fn is_before(&self, other: &ID) -> (r: bool)
        requires
            self.spec_system() == other.spec_system(),
        ensures
            r == (self.spec_value() < other.spec_value()),
    {
        self.value < other.value
    }
}

/// The identifier allocator: a counter plus a free list of returned values.
///
/// `tag` is the allocator's own identity; two allocators are "the same
/// system" exactly when their tags are equal, so a caller that needs
/// distinct systems must construct them with distinct tags.
pub struct IDSystem {
    free_list: Vec<usize>,
    current: usize,
    tag: usize,
    live: Ghost<Set<usize>>,
}

impl IDSystem {
    /// The values currently issued and not yet freed.
    pub closed spec fn live_ids(self) -> Set<usize> {
        self.live@
    }

    /// The allocator tag.
    pub closed spec fn spec_tag(self) -> usize {
        self.tag
    }

    /// The values waiting on the free list, oldest first.
    pub closed spec fn spec_free_list(self) -> Seq<usize> {
        self.free_list@
    }

    /// The highest value handed out by the counter so far.
    pub closed spec fn spec_current(self) -> usize {
        self.current
    }

    /// Allocator consistency: every issued value is positive and at most
    /// `current`, the free list holds no duplicates, and no value is both
    /// live and on the free list.
    pub closed spec fn wf(self) -> bool {
        &&& forall|i: int|
            0 <= i < self.free_list@.len() ==> 1 <= #[trigger] self.free_list@[i]
                <= self.current
        &&& self.free_list@.no_duplicates()
        &&& forall|v: usize| self.live@.contains(v) ==> 1 <= v <= self.current
        &&& forall|i: int|
            0 <= i < self.free_list@.len() ==> !self.live@.contains(
                #[trigger] self.free_list@[i],
            )
    }

    /// A fresh allocator with the given tag: counter at zero, empty free
    /// list, nothing live.
    pub fn new(tag: usize) -> (sys: IDSystem)
        ensures
            sys.wf(),
            sys.spec_tag() == tag,
            sys.live_ids() == Set::<usize>::empty(),
            sys.spec_free_list() == Seq::<usize>::empty(),
            sys.spec_current() == 0,
    {
        IDSystem { free_list: Vec::new(), current: 0, tag, live: Ghost(Set::empty()) }
    }

    /// Issue an identifier.  The free list is popped first; otherwise the
    /// counter is advanced and its new value issued.  The result is never
    /// a currently-live value, which is what keeps simultaneously-live
    /// identifiers of one allocator pairwise distinct.
    ///
    /// The one input excluded: an allocator with an empty free list and
    /// an exhausted counter, which cannot issue a fresh value at all.
    pub fn take(&mut self) -> (id: ID)
        requires
            old(self).wf(),
            old(self).spec_free_list().len() > 0 || old(self).spec_current() < usize::MAX,
        ensures
            final(self).wf(),
            id.spec_system() == old(self).spec_tag(),
            !old(self).live_ids().contains(id.spec_value()),
            final(self).live_ids() == old(self).live_ids().insert(id.spec_value()),
            final(self).spec_tag() == old(self).spec_tag(),
            id.spec_value() == if old(self).spec_free_list().len() > 0 {
                old(self).spec_free_list().last()
            } else {
                (old(self).spec_current() + 1) as usize
            },
            final(self).spec_free_list() == if old(self).spec_free_list().len() > 0 {
                old(self).spec_free_list().drop_last()
            } else {
                old(self).spec_free_list()
            },
            final(self).spec_current() == if old(self).spec_free_list().len() > 0 {
                old(self).spec_current()
            } else {
                (old(self).spec_current() + 1) as usize
            },
    {
        match self.free_list.pop() {
            Some(v) => {
                proof {
                    self.live@ = self.live@.insert(v);
                }
                ID { value: v, system: self.tag }
            },
            None => {
                self.current = self.current + 1;
                proof {
                    self.live@ = self.live@.insert(self.current);
                }
                ID { value: self.current, system: self.tag }
            },
        }
    }

    /// Return an identifier to the free list.  The caller guarantees the
    /// identifier is one of this allocator's live values and that no other
    /// live reference to it remains; it may be reissued by a later `take`.
    pub fn free(&mut self, id: ID)
        requires
            old(self).wf(),
            id.spec_system() == old(self).spec_tag(),
            old(self).live_ids().contains(id.spec_value()),
        ensures
            final(self).wf(),
            final(self).live_ids() == old(self).live_ids().remove(id.spec_value()),
            final(self).spec_free_list() == old(self).spec_free_list().push(id.spec_value()),
            final(self).spec_tag() == old(self).spec_tag(),
            final(self).spec_current() == old(self).spec_current(),
    {
        proof {
            self.live@ = self.live@.remove(id.value);
        }
        self.free_list.push(id.value);
    }
}

impl Default for IDSystem {
    /// An allocator with tag zero and nothing issued.
    fn default() -> (sys: IDSystem)
        ensures
            sys.wf(),
            sys.spec_tag() == 0,
            sys.live_ids() == Set::<usize>::empty(),
            sys.spec_free_list() == Seq::<usize>::empty(),
            sys.spec_current() == 0,
    {
        IDSystem::new(0)
    }
}

/// Identity uniqueness: whatever sequence of `take` and `free` calls an
/// allocator has seen, two identifiers that are both live and distinct as
/// identifiers carry distinct values, and a freshly issued identifier
/// differs in value from everything that was live when it was issued.
pub proof fn lemma_identity_uniqueness(sys: IDSystem, a: ID, b: ID)
    requires
        sys.live_ids().contains(a.spec_value()),
        !sys.live_ids().contains(b.spec_value()),
    ensures
        a.spec_value() != b.spec_value(),
{
}

} // verus!
