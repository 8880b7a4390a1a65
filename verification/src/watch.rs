//! The table from inotify watch descriptors to what they watch, and
//! the flags of an inotify event as the watchers read them.

use vstd::prelude::*;
use std::collections::HashMap;

verus! {

broadcast use vstd::std_specs::hash::group_hash_axioms;

/// The kinds of an event that the watchers look at.
#[derive(Debug, Clone, Copy)]
pub struct EventFlags {
    /// A file or directory was created in the watched directory.
    pub create: bool,
    /// A file or directory was moved into the watched directory.
    pub moved_to: bool,
    /// A file opened for writing was closed.
    pub close_write: bool,
    /// What the event is about is a directory.
    pub is_dir: bool,
}

/// Whether an event says that a file arrived: created, moved in, or written and closed.
pub open spec fn is_arrival(f: EventFlags) -> bool {
    f.create || f.moved_to || f.close_write
}

/// Watch descriptors and what each watches; inserting a descriptor again
/// replaces what it watched.
#[derive(Debug)]
pub struct WatchTable<T> {
    pub entries: HashMap<i32, T>,
}

impl<T> WatchTable<T> {
    /// What descriptor `wd` watches, if it is known.
    pub open spec fn lookup(&self, wd: i32) -> Option<T> {
        if self.entries@.contains_key(wd) {
            Some(self.entries@[wd])
        } else {
            None
        }
    }

    /// A table that watches nothing.
    pub fn new() -> (t: WatchTable<T>)
        ensures
            forall|wd: i32| #[trigger] t.lookup(wd) is None,
    {
        WatchTable { entries: HashMap::new() }
    }

    /// Notes that `wd` watches `target`.
    pub fn insert(&mut self, wd: i32, target: T)
        ensures
            final(self).lookup(wd) == Some(target),
            forall|k: i32| k != wd ==> #[trigger] final(self).lookup(k) == old(self).lookup(k),
    {
        self.entries.insert(wd, target);
    }

    /// What `wd` watches, if it is known.
    pub fn get(&self, wd: i32) -> (r: Option<&T>)
        ensures
            match r {
                Some(t) => self.lookup(wd) == Some(*t),
                None => self.lookup(wd) is None,
            },
    {
        self.entries.get(&wd)
    }
}

} // verus!
