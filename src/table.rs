//! The path-keyed map of entries, kept in a `hashbrown::HashMap`.

use vstd::prelude::*;
use crate::perms::Permissions;

verus! {

/// A directory: its owner and mode, and how many entries sit directly in it.
#[derive(Clone, Copy, Debug, PartialEq, Eq, Structural)]
pub struct Dir {
    pub perms: Permissions,
    pub children_count: u32,
}

/// A regular file: its owner and mode.
#[derive(Clone, Copy, Debug, PartialEq, Eq, Structural)]
pub struct File {
    pub perms: Permissions,
}

#[derive(Clone, Copy, Debug, PartialEq, Eq, Structural)]
pub enum Entry {
    File(File),
    Dir(Dir),
}

/// The entries of a file system, keyed by canonical path.
#[verifier::external_body]
pub struct EntryTable {
    map: hashbrown::HashMap<String, Entry>,
}

/// What an `EntryTable` holds: the entry stored under each path.
pub uninterp spec fn table_entries(t: EntryTable) -> Map<Seq<char>, Entry>;

pub open spec fn no_entries() -> Map<Seq<char>, Entry> {
    Map::empty()
}

impl EntryTable {
    /// Relies on `hashbrown::HashMap::new`: the map starts empty.
    #[verifier::external_body]
    pub(crate) fn new() -> (r: EntryTable)
        ensures
            table_entries(r) == no_entries(),
    {
        EntryTable { map: hashbrown::HashMap::new() }
    }

    /// Relies on `hashbrown::HashMap::get`: the value stored under `k`, if any.
    #[verifier::external_body]
    pub(crate) fn get(&self, k: &String) -> (r: Option<Entry>)
        ensures
            r == (if table_entries(*self).contains_key(k@) {
                Some(table_entries(*self)[k@])
            } else {
                None
            }),
    {
        self.map.get(k).copied()
    }

    /// Relies on `hashbrown::HashMap::insert`: `v` is stored under `k`, in
    /// place of what was stored there.
    #[verifier::external_body]
    pub(crate) fn insert(&mut self, k: String, v: Entry)
        ensures
            table_entries(*final(self)) == table_entries(*old(self)).insert(k@, v),
    {
        self.map.insert(k, v);
    }

    /// Relies on `hashbrown::HashMap::remove`: the value under `k` leaves the
    /// map and is returned.
    #[verifier::external_body]
    pub(crate) fn remove(&mut self, k: &String) -> (r: Option<Entry>)
        ensures
            table_entries(*final(self)) == table_entries(*old(self)).remove(k@),
            r == (if table_entries(*old(self)).contains_key(k@) {
                Some(table_entries(*old(self))[k@])
            } else {
                None
            }),
    {
        self.map.remove(k)
    }

    /// Relies on `hashbrown::HashMap::len`: the number of keys stored.
    #[verifier::external_body]
    pub(crate) fn len(&self) -> (r: usize)
        ensures
            r == table_entries(*self).dom().len(),
    {
        self.map.len()
    }
}

} // verus!
