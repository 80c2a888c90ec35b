//! Guest file-descriptor table.
//!
//! Guest descriptors are virtual: the guest can never reference a host resource
//! that was not deliberately exposed.

use vstd::prelude::*;

use std::collections::HashMap;

verus! {

/// What a guest descriptor refers to. Files and directories are known by the
/// handle under which the host keeps them open.
#[derive(Clone, Copy, Debug, PartialEq, Eq, Structural)]
pub enum FdObject {
    Stdout,
    Stderr,
    Stdin,
    /// A regular file opened inside the sandbox.
    File(u64),
    /// A directory.
    Dir(u64),
}

/// Per-process descriptor table with lowest-available allocation.
pub struct FdTable {
    pub slots: HashMap<i32, FdObject>,
}

impl View for FdTable {
    type V = Map<i32, FdObject>;

    open spec fn view(&self) -> Map<i32, FdObject> {
        self.slots@
    }
}

/// The table a process starts with.
pub open spec fn standard_streams() -> Map<i32, FdObject> {
    Map::<i32, FdObject>::empty().insert(0, FdObject::Stdin).insert(1, FdObject::Stdout).insert(
        2,
        FdObject::Stderr,
    )
}

/// Whether `fd` is the lowest free descriptor that is not a standard stream.
pub open spec fn is_lowest_free(t: Map<i32, FdObject>, fd: int) -> bool {
    &&& 3 <= fd <= i32::MAX
    &&& !t.contains_key(fd as i32)
    &&& forall|k: i32| 3 <= k < fd ==> #[trigger] t.contains_key(k)
}

/// The lowest free descriptor, if one is left.
pub open spec fn lowest_free(t: Map<i32, FdObject>) -> Option<i32> {
    if exists|fd: i32| #[trigger] is_lowest_free(t, fd as int) {
        Some(choose|fd: i32| #[trigger] is_lowest_free(t, fd as int))
    } else {
        None
    }
}

/// There is only one lowest free descriptor.
pub proof fn lemma_lowest_free(t: Map<i32, FdObject>, fd: i32)
    requires
        is_lowest_free(t, fd as int),
    ensures
        lowest_free(t) == Some(fd),
{
    let other = choose|k: i32| #[trigger] is_lowest_free(t, k as int);
    assert(is_lowest_free(t, other as int));
    if other < fd {
        assert(t.contains_key(other));
    } else if fd < other {
        assert(t.contains_key(fd));
    }
}

/// The table after closing `fd`; standard streams stay open.
pub open spec fn closed(t: Map<i32, FdObject>, fd: i32) -> Map<i32, FdObject> {
    if 0 <= fd <= 2 {
        t
    } else {
        t.remove(fd)
    }
}

impl Default for FdTable {
    fn default() -> (r: FdTable)
        ensures
            r@ == standard_streams(),
    {
        broadcast use vstd::std_specs::hash::group_hash_axioms;

        let mut slots: HashMap<i32, FdObject> = HashMap::new();
        slots.insert(0, FdObject::Stdin);
        slots.insert(1, FdObject::Stdout);
        slots.insert(2, FdObject::Stderr);
        assert(slots@ =~= standard_streams());
        FdTable { slots }
    }
}

impl FdTable {
    /// The lowest free descriptor above the standard streams.
    pub fn lowest_free(&self) -> (r: Option<i32>)
        ensures
            r == lowest_free(self@),
    {
        broadcast use vstd::std_specs::hash::group_hash_axioms;

        let mut fd: i32 = 3;
        loop
            invariant
                3 <= fd,
                forall|k: i32| 3 <= k < fd ==> #[trigger] self@.contains_key(k),
            decreases i32::MAX - fd,
        {
            if !self.slots.contains_key(&fd) {
                proof {
                    lemma_lowest_free(self@, fd);
                }
                return Some(fd);
            }
            if fd == i32::MAX {
                proof {
                    assert forall|k: i32| !#[trigger] is_lowest_free(self@, k as int) by {
                        if 3 <= k < fd {
                            assert(self@.contains_key(k));
                        }
                    }
                }
                return None;
            }
            fd += 1;
        }
    }

    /// Insert `obj` at the lowest free descriptor and return it.
    pub fn insert(&mut self, obj: FdObject) -> (r: i32)
        requires
            lowest_free(old(self)@) is Some,
        ensures
            lowest_free(old(self)@) == Some(r),
            final(self)@ == old(self)@.insert(r, obj),
    {
        broadcast use vstd::std_specs::hash::group_hash_axioms;

        match self.lowest_free() {
            Some(fd) => {
                self.slots.insert(fd, obj);
                fd
            },
            None => 3,
        }
    }

    /// The object behind a descriptor.
    pub fn get(&self, fd: i32) -> (r: Option<FdObject>)
        ensures
            r == (if self@.contains_key(fd) {
                Some(self@[fd])
            } else {
                None
            }),
    {
        broadcast use vstd::std_specs::hash::group_hash_axioms;

        match self.slots.get(&fd) {
            Some(o) => Some(*o),
            None => None,
        }
    }

    /// The object behind a descriptor, to be changed in place.
    pub fn get_mut(&mut self, fd: i32) -> (r: Option<&mut FdObject>)
        ensures
            match r {
                Some(o) => old(self)@.contains_key(fd) && *o == old(self)@[fd] && final(self)@
                    == old(self)@.insert(fd, *final(o)),
                None => !old(self)@.contains_key(fd) && final(self)@ == old(self)@,
            },
    {
        broadcast use vstd::std_specs::hash::group_hash_axioms;

        match self.slots.entry(fd) {
            std::collections::hash_map::Entry::Occupied(e) => Some(e.into_mut()),
            std::collections::hash_map::Entry::Vacant(_) => None,
        }
    }

    /// Whether a descriptor is open.
    pub fn contains(&self, fd: i32) -> (r: bool)
        ensures
            r == self@.contains_key(fd),
    {
        broadcast use vstd::std_specs::hash::group_hash_axioms;

        self.slots.contains_key(&fd)
    }

    /// Close a descriptor; `true` if it was open. Closing a standard stream is
    /// silently ignored.
    pub fn close(&mut self, fd: i32) -> (r: bool)
        ensures
            r == (0 <= fd <= 2 || old(self)@.contains_key(fd)),
            final(self)@ == closed(old(self)@, fd),
    {
        broadcast use vstd::std_specs::hash::group_hash_axioms;

        if 0 <= fd && fd <= 2 {
            return true;
        }
        self.slots.remove(&fd).is_some()
    }
}

// ---- laws -------------------------------------------------------------------

/// A new descriptor was free, is none of the standard streams, and every lower
/// one is in use; the other descriptors stay what they were.
pub proof fn descriptors_are_fresh(t: Map<i32, FdObject>, obj: FdObject, other: i32)
    ensures
        lowest_free(t) matches Some(fd) ==> {
            &&& fd >= 3
            &&& !t.contains_key(fd)
            &&& forall|k: i32| 3 <= k < fd ==> #[trigger] t.contains_key(k)
            &&& other != fd ==> (t.insert(fd, obj).contains_key(other) == t.contains_key(other)
                && t.insert(fd, obj)[other] == t[other])
        },
{
    if exists|fd: i32| #[trigger] is_lowest_free(t, fd as int) {
        let fd = choose|fd: i32| #[trigger] is_lowest_free(t, fd as int);
        assert(is_lowest_free(t, fd as int));
    }
}

/// A descriptor that was just opened and is closed again is the next one to be
/// handed out.
pub proof fn closed_descriptors_are_reused(t: Map<i32, FdObject>, obj: FdObject)
    ensures
        lowest_free(t) matches Some(fd) ==> lowest_free(closed(t.insert(fd, obj), fd)) == Some(fd),
{
    if exists|fd: i32| #[trigger] is_lowest_free(t, fd as int) {
        let fd = choose|fd: i32| #[trigger] is_lowest_free(t, fd as int);
        assert(is_lowest_free(t, fd as int));
        let after = closed(t.insert(fd, obj), fd);
        assert forall|k: i32| 3 <= k < fd implies #[trigger] after.contains_key(k) by {
            assert(t.contains_key(k));
        }
        lemma_lowest_free(after, fd);
    }
}

} // verus!
