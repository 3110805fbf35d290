//! The table that gives entry hashes their plaintext paths.

use crate::path::{placeholder, placeholder_path};
use std::collections::HashMap;
use vstd::prelude::*;

verus! {

/// A table from the 64-bit hash of an entry to its known path. It is filled once and
/// then only read.
pub struct PathResolver {
    table: HashMap<u64, String>,
}

/// The path that an entry with `hash` is shown under, given the known paths `known`:
/// its known path, or its placeholder path where it has none.
pub open spec fn resolved_path(known: Map<u64, Seq<char>>, hash: u64) -> Seq<char> {
    if known.contains_key(hash) {
        known[hash]
    } else {
        placeholder_path(hash)
    }
}

/// The table that recording the pairs `entries` in order gives.
pub open spec fn table_of_entries(entries: Seq<(u64, String)>) -> Map<u64, Seq<char>>
    decreases entries.len(),
{
    if entries.len() == 0 {
        Map::empty()
    } else {
        table_of_entries(entries.drop_last()).insert(entries.last().0, entries.last().1@)
    }
}

impl View for PathResolver {
    type V = Map<u64, Seq<char>>;

    closed spec fn view(&self) -> Map<u64, Seq<char>> {
        Map::new(|h: u64| self.table@.contains_key(h), |h: u64| self.table@[h]@)
    }
}

impl PathResolver {
    /// A table that knows no path.
    pub fn new() -> (r: PathResolver)
        ensures
            r@ == Map::<u64, Seq<char>>::empty(),
    {
        let r = PathResolver { table: HashMap::new() };
        assert(r@ =~= Map::<u64, Seq<char>>::empty());
        r
    }

    /// Records `path` as the path of `hash`, in place of what was known of it.
    pub fn insert(&mut self, hash: u64, path: String)
        ensures
            final(self)@ == old(self)@.insert(hash, path@),
    {
        self.table.insert(hash, path);
        assert(self@ =~= old(self)@.insert(hash, path@));
    }

    /// A table of the given pairs of hash and path; of two pairs with one hash the later
    /// stands.
    pub fn from_entries(entries: Vec<(u64, String)>) -> (r: PathResolver)
        ensures
            r@ == table_of_entries(entries@),
    {
        let mut r = PathResolver::new();
        let ghost all = entries@;
        for pair in it: entries
            invariant
                it.seq() == all,
                r@ == table_of_entries(all.subrange(0, it.index() as int)),
        {
            let (hash, path) = pair;
            assert(all.subrange(0, it.index() + 1).drop_last() == all.subrange(
                0,
                it.index() as int,
            ));
            r.insert(hash, path);
        }
        assert(all.subrange(0, all.len() as int) == all);
        r
    }

    /// The known path of `hash`, if there is one.
    pub fn resolve(&self, hash: u64) -> (r: Option<&String>)
        ensures
            match r {
                Some(p) => self@.contains_key(hash) && self@[hash] == p@,
                None => !self@.contains_key(hash),
            },
    {
        self.table.get(&hash)
    }

    /// The path that an entry with `hash` is shown under: its known path, or its
    /// placeholder path.
    pub fn path_of(&self, hash: u64) -> (r: String)
        ensures
            r@ == resolved_path(self@, hash),
    {
        match self.resolve(hash) {
            Some(p) => p.clone(),
            None => placeholder(hash),
        }
    }
}

} // verus!
