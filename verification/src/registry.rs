//! The registry of the archives that are mounted: an ordered collection of entries,
//! each with an identity of its own. Every operation takes the registry as a whole, so
//! whoever shares it between callers guards it with one lock.

use crate::archive::{parse_outcome, ArchiveContainer, ParseError};
use crate::ident::{
    id_position, lemma_id_position, lemma_probe_steps, lemma_probing_ends, next_id, probe,
    random_id, MountIdentity, TreeNodeId,
};
use crate::layout::layout;
use crate::path::{file_name, file_name_of};
use crate::resolver::PathResolver;
use crate::tree::{
    apply_selections, items_of, lemma_apply_selections_len, NotFound, VirtualTree,
    WadItemSelectionUpdate,
};
use vstd::prelude::*;

verus! {

/// Why an archive was not mounted.
#[derive(Clone, Copy, Debug, PartialEq, Eq, Structural)]
pub enum MountError {
    /// The bytes of the archive could not be parsed.
    ParseFailed(ParseError),
    /// The bytes of the archive could not be read.
    IOFailed,
}

/// One mounted archive: its identity, its display name, the archive and its tree.
pub struct MountEntry {
    id: MountIdentity,
    name: String,
    archive: ArchiveContainer,
    tree: VirtualTree,
}

impl MountEntry {
    /// The identity of the mount.
    pub closed spec fn identity(&self) -> u128 {
        self.id
    }

    /// The name the mount is shown under.
    pub closed spec fn display_name(&self) -> Seq<char> {
        self.name@
    }

    /// The archive of the mount.
    pub closed spec fn container(&self) -> ArchiveContainer {
        self.archive
    }

    /// The tree of the mount.
    pub closed spec fn directory(&self) -> VirtualTree {
        self.tree
    }

    /// Whether the entry is well formed: its archive and its tree are, and its name is
    /// the file name in the path of the archive.
    pub open spec fn wf(&self) -> bool {
        &&& self.container().wf()
        &&& self.directory().wf()
        &&& self.display_name() == file_name_of(self.directory().source_path())
    }

    /// The identity of the mount.
    pub fn id(&self) -> (r: MountIdentity)
        ensures
            r == self.identity(),
    {
        self.id
    }

    /// The name the mount is shown under.
    pub fn name(&self) -> (r: &String)
        ensures
            r@ == self.display_name(),
    {
        &self.name
    }

    /// The archive of the mount.
    pub fn archive(&self) -> (r: &ArchiveContainer)
        ensures
            *r == self.container(),
    {
        &self.archive
    }

    /// The tree of the mount.
    pub fn tree(&self) -> (r: &VirtualTree)
        ensures
            *r == self.directory(),
    {
        &self.tree
    }

    /// Whether `self` is `before` but for the selection flags of its tree.
    pub open spec fn same_but_selection(&self, before: MountEntry) -> bool {
        &&& self.identity() == before.identity()
        &&& self.display_name() == before.display_name()
        &&& self.container() == before.container()
        &&& self.directory().root_ids() == before.directory().root_ids()
        &&& self.directory().source_path() == before.directory().source_path()
        &&& self.directory().arena().len() == before.directory().arena().len()
    }

    /// Sets the selection flag of the node `node` of the tree. Nothing else of the
    /// mount changes.
    pub fn set_selected(&mut self, node: TreeNodeId, flag: bool) -> (r: Result<(), NotFound>)
        requires
            old(self).wf(),
        ensures
            final(self).wf(),
            final(self).same_but_selection(*old(self)),
            match r {
                Ok(_) => {
                    let tree = old(self).directory();
                    &&& tree.contains(node)
                    &&& tree.position(node) < tree.arena().len()
                    &&& final(self).directory().arena() == tree.arena().update(
                        tree.position(node),
                        tree.arena()[tree.position(node)].with_selected(flag),
                    )
                },
                Err(e) => {
                    &&& !old(self).directory().contains(node)
                    &&& e == (NotFound::UnknownNode { id: node })
                    &&& final(self).directory().arena() == old(self).directory().arena()
                },
            },
    {
        self.tree.set_selected(node, flag)
    }

    /// Applies the wishes `updates` to the tree in order; those for nodes that the tree
    /// does not have are passed over. Nothing else of the mount changes.
    pub fn apply_selections(&mut self, updates: &Vec<WadItemSelectionUpdate>)
        requires
            old(self).wf(),
        ensures
            final(self).wf(),
            final(self).same_but_selection(*old(self)),
            final(self).directory().arena() == apply_selections(
                old(self).directory().arena(),
                updates@,
            ),
    {
        proof {
            lemma_apply_selections_len(self.tree.arena(), updates@);
        }
        self.tree.apply_selections(updates);
    }
}

/// The identities of `entries`, in order.
pub open spec fn identities(entries: Seq<MountEntry>) -> Seq<u128> {
    Seq::new(entries.len(), |i: int| entries[i].identity())
}

/// `entries` with the entry at `source` moved to `dest`, the entries between them
/// shifted by one; unchanged where one of the two is no position of `entries`.
pub open spec fn moved(entries: Seq<MountEntry>, source: int, dest: int) -> Seq<MountEntry> {
    if 0 <= source < entries.len() && 0 <= dest < entries.len() {
        entries.remove(source).insert(dest, entries[source])
    } else {
        entries
    }
}

/// What is shown of a mount in a listing.
pub struct MountInfo {
    /// The identity of the mount.
    pub id: MountIdentity,
    /// The name the mount is shown under: the file name of the archive.
    pub name: String,
    /// The path the archive was mounted from.
    pub path: String,
}

/// Whether `entry` is the mount of the archive bytes `source` under the path
/// `display_path`, built with the known paths `known`: it holds the archive, and a tree
/// of the shape that the chunk table and the known paths give, with nothing selected.
pub open spec fn mounts(
    entry: MountEntry,
    source: Seq<u8>,
    display_path: Seq<char>,
    known: Map<u64, Seq<char>>,
) -> bool {
    &&& parse_outcome(source) is Ok
    &&& entry.wf()
    &&& entry.container().bytes() == source
    &&& entry.directory().source_path() == display_path
    &&& entry.directory().unselected()
    &&& entry.directory().entries() == layout(items_of(parse_outcome(source)->Ok_0, known))
}

/// The archives that are mounted, in display order.
pub struct MountRegistry {
    entries: Vec<MountEntry>,
}

impl MountRegistry {
    /// The entries, in display order.
    pub closed spec fn mounted(&self) -> Seq<MountEntry> {
        self.entries@
    }

    /// Whether the registry is well formed: every entry is, and no two entries share
    /// an identity.
    pub open spec fn wf(&self) -> bool {
        &&& forall|i: int| 0 <= i < self.mounted().len() ==> (#[trigger] self.mounted()[i]).wf()
        &&& forall|i: int, j: int|
            0 <= i < j < self.mounted().len() ==> (#[trigger] self.mounted()[i]).identity() != (
            #[trigger] self.mounted()[j]).identity()
    }

    /// The position of the mount with the identity `id`, or -1.
    pub open spec fn position(&self, id: u128) -> int {
        id_position(identities(self.mounted()), id)
    }

    /// Whether an archive is mounted under `id`.
    pub open spec fn contains(&self, id: u128) -> bool {
        self.position(id) >= 0
    }

    /// A registry without mounts.
    pub fn new() -> (r: MountRegistry)
        ensures
            r.wf(),
            r.mounted().len() == 0,
    {
        MountRegistry { entries: Vec::new() }
    }

    /// The number of mounts.
    pub fn len(&self) -> (n: usize)
        ensures
            n == self.mounted().len(),
    {
        self.entries.len()
    }

    /// The position of the mount with the identity `id`.
    fn slot(&self, id: u128) -> (r: Option<usize>)
        ensures
            match r {
                Some(pos) => pos == self.position(id) && pos < self.mounted().len()
                    && self.mounted()[pos as int].identity() == id,
                None => !self.contains(id),
            },
    {
        let ghost ids = identities(self.mounted());
        let mut k: usize = self.entries.len();
        assert(ids.subrange(0, k as int) =~= ids);
        while k > 0
            invariant
                k <= self.mounted().len(),
                ids == identities(self.mounted()),
                id_position(ids, id) == id_position(ids.subrange(0, k as int), id),
            decreases k,
        {
            k = k - 1;
            assert(ids.subrange(0, k + 1).drop_last() =~= ids.subrange(0, k as int));
            if self.entries[k].id == id {
                return Some(k);
            }
        }
        None
    }

    /// An identity that no mount has: a random one, or where that is taken, the first
    /// free one after it.
    fn fresh_id(&self) -> (id: u128)
        ensures
            !self.contains(id),
    {
        let start = random_id();
        let count = self.entries.len();
        let ghost ids = identities(self.mounted());
        let ghost used = ids.to_set();
        let mut id = start;
        let ghost mut k: nat = 0;
        proof {
            lemma_probe_steps(start, 0);
            ids.lemma_cardinality_of_set();
            vstd::seq_lib::seq_to_set_is_finite(ids);
        }
        while self.slot(id).is_some()
            invariant
                ids == identities(self.mounted()),
                used == ids.to_set(),
                used.finite(),
                used.len() <= count,
                id == probe(start, k),
                k <= count,
                forall|j: nat| j < k ==> used.contains(#[trigger] probe(start, j)),
            decreases count - k,
        {
            proof {
                lemma_id_position(ids, id);
                assert(ids.contains(id));
                lemma_probing_ends(used, start, k + 1);
                lemma_probe_steps(start, k);
                k = k + 1;
            }
            id = next_id(id);
        }
        id
    }

    /// Mounts the archive with the bytes `source`, read from `display_path`: parses it,
    /// builds its tree with the paths that `resolver` knows, and adds it at the end under
    /// a fresh identity. Where the bytes are no archive, nothing is added.
    pub fn mount(&mut self, source: Vec<u8>, display_path: String, resolver: &PathResolver) -> (r:
        Result<MountIdentity, MountError>)
        requires
            old(self).wf(),
        ensures
            final(self).wf(),
            match r {
                Ok(id) => {
                    &&& !old(self).contains(id)
                    &&& final(self).mounted().len() == old(self).mounted().len() + 1
                    &&& final(self).mounted().drop_last() == old(self).mounted()
                    &&& final(self).mounted().last().identity() == id
                    &&& mounts(final(self).mounted().last(), source@, display_path@, resolver@)
                },
                Err(e) => {
                    &&& parse_outcome(source@) is Err
                    &&& e == MountError::ParseFailed(parse_outcome(source@)->Err_0)
                    &&& final(self).mounted() == old(self).mounted()
                },
            },
    {
        match ArchiveContainer::parse(source) {
            Err(e) => Err(MountError::ParseFailed(e)),
            Ok(archive) => {
                let tree = VirtualTree::build(archive.chunks(), resolver, display_path);
                let name = file_name(tree.wad_path().as_str());
                let id = self.fresh_id();
                let entry = MountEntry { id, name, archive, tree };
                proof {
                    lemma_id_position(identities(self.mounted()), id);
                }
                self.entries.push(entry);
                assert(self.mounted().drop_last() =~= old(self).mounted());
                assert forall|i: int, j: int| 0 <= i < j < self.mounted().len() implies (
                #[trigger] self.mounted()[i]).identity() != (#[trigger] self.mounted()[j]).identity() by {
                    if j == self.mounted().len() - 1 {
                        assert(identities(old(self).mounted())[i] == old(self).mounted()[i].identity());
                    }
                }
                Ok(id)
            },
        }
    }

    /// Mounts what was read from `display_path`: the bytes of an archive, or nothing
    /// where reading failed.
    pub fn mount_read(
        &mut self,
        read: Option<Vec<u8>>,
        display_path: String,
        resolver: &PathResolver,
    ) -> (r: Result<MountIdentity, MountError>)
        requires
            old(self).wf(),
        ensures
            final(self).wf(),
            match r {
                Ok(id) => {
                    &&& read is Some
                    &&& !old(self).contains(id)
                    &&& final(self).mounted().len() == old(self).mounted().len() + 1
                    &&& final(self).mounted().drop_last() == old(self).mounted()
                    &&& final(self).mounted().last().identity() == id
                    &&& mounts(final(self).mounted().last(), read->0@, display_path@, resolver@)
                },
                Err(e) => {
                    &&& final(self).mounted() == old(self).mounted()
                    &&& match read {
                        None => e == MountError::IOFailed,
                        Some(source) => parse_outcome(source@) is Err && e
                            == MountError::ParseFailed(parse_outcome(source@)->Err_0),
                    }
                },
            },
    {
        match read {
            None => Err(MountError::IOFailed),
            Some(source) => self.mount(source, display_path, resolver),
        }
    }

    /// Removes the mount with the identity `id`, if there is one, and says whether
    /// there was.
    pub fn unmount(&mut self, id: MountIdentity) -> (removed: bool)
        requires
            old(self).wf(),
        ensures
            final(self).wf(),
            removed == old(self).contains(id),
            final(self).mounted() == if old(self).contains(id) {
                old(self).mounted().remove(old(self).position(id))
            } else {
                old(self).mounted()
            },
            !final(self).contains(id),
    {
        match self.slot(id) {
            None => false,
            Some(pos) => {
                self.entries.remove(pos);
                proof {
                    let before = old(self).mounted();
                    let after = self.mounted();
                    assert forall|i: int| 0 <= i < after.len() implies #[trigger] after[i]
                        == before[if i < pos { i } else { i + 1 }] by {}
                    assert forall|i: int| 0 <= i < after.len() implies (#[trigger] after[i]).wf() by {
                        assert(before[if i < pos { i } else { i + 1 }].wf());
                    }
                    lemma_id_position(identities(after), id);
                    if self.contains(id) {
                        let at = self.position(id);
                        assert(identities(after)[at] == after[at].identity());
                        assert(after[at] == before[if at < pos { at } else { at + 1 }]);
                    }
                }
                true
            },
        }
    }

    /// The mount with the identity `id`.
    pub fn get(&self, id: MountIdentity) -> (r: Option<&MountEntry>)
        ensures
            match r {
                Some(entry) => {
                    &&& self.contains(id)
                    &&& self.position(id) < self.mounted().len()
                    &&& *entry == self.mounted()[self.position(id)]
                    &&& entry.identity() == id
                },
                None => !self.contains(id),
            },
    {
        match self.slot(id) {
            None => None,
            Some(pos) => Some(&self.entries[pos]),
        }
    }

    /// The mount with the identity `id`, to change.
    pub fn get_mut(&mut self, id: MountIdentity) -> (r: Option<&mut MountEntry>)
        ensures
            match r {
                Some(entry) => {
                    &&& old(self).contains(id)
                    &&& old(self).position(id) < old(self).mounted().len()
                    &&& entry.identity() == id
                    &&& *entry == old(self).mounted()[old(self).position(id)]
                    &&& final(self).mounted() == old(self).mounted().update(
                        old(self).position(id),
                        *final(entry),
                    )
                },
                None => !old(self).contains(id) && final(self).mounted() == old(self).mounted(),
            },
    {
        match self.slot(id) {
            None => None,
            Some(pos) => Some(&mut self.entries[pos]),
        }
    }

    /// Moves the mount at `source_index` to `dest_index` and shifts the mounts between
    /// the two by one. Where one of the two is no position of the registry, nothing
    /// moves.
    pub fn reorder(&mut self, source_index: usize, dest_index: usize)
        requires
            old(self).wf(),
        ensures
            final(self).wf(),
            final(self).mounted() == moved(
                old(self).mounted(),
                source_index as int,
                dest_index as int,
            ),
    {
        let len = self.entries.len();
        if source_index < len && dest_index < len {
            let entry = self.entries.remove(source_index);
            self.entries.insert(dest_index, entry);
            proof {
                let before = old(self).mounted();
                let after = self.mounted();
                let s = source_index as int;
                let d = dest_index as int;
                let from = |i: int|
                    if i == d {
                        s
                    } else if i < d {
                        if i < s {
                            i
                        } else {
                            i + 1
                        }
                    } else {
                        if i - 1 < s {
                            i - 1
                        } else {
                            i
                        }
                    };
                assert forall|i: int| 0 <= i < after.len() implies #[trigger] after[i] == before[from(
                    i,
                )] && 0 <= from(i) < before.len() by {}
                assert forall|i: int| 0 <= i < after.len() implies (#[trigger] after[i]).wf() by {
                    assert(before[from(i)].wf());
                }
                assert forall|i: int, j: int| 0 <= i < j < after.len() implies (
                #[trigger] after[i]).identity() != (#[trigger] after[j]).identity() by {
                    assert(from(i) != from(j));
                    if from(i) < from(j) {
                        assert(before[from(i)].identity() != before[from(j)].identity());
                    } else {
                        assert(before[from(j)].identity() != before[from(i)].identity());
                    }
                }
            }
        }
    }

    /// The mounts in display order: identity, display name and path of each.
    pub fn list(&self) -> (r: Vec<MountInfo>)
        ensures
            r@.len() == self.mounted().len(),
            forall|i: int|
                0 <= i < r@.len() ==> {
                    let entry = self.mounted()[i];
                    &&& (#[trigger] r@[i]).id == entry.identity()
                    &&& r@[i].name@ == entry.display_name()
                    &&& r@[i].path@ == entry.directory().source_path()
                },
    {
        let mut out: Vec<MountInfo> = Vec::new();
        let mut k: usize = 0;
        while k < self.entries.len()
            invariant
                k <= self.mounted().len(),
                out@.len() == k,
                forall|i: int|
                    0 <= i < k ==> {
                        let entry = self.mounted()[i];
                        &&& (#[trigger] out@[i]).id == entry.identity()
                        &&& out@[i].name@ == entry.display_name()
                        &&& out@[i].path@ == entry.directory().source_path()
                    },
            decreases self.mounted().len() - k,
        {
            let entry = &self.entries[k];
            out.push(
                MountInfo {
                    id: entry.id,
                    name: entry.name.clone(),
                    path: entry.tree.wad_path().clone(),
                },
            );
            k = k + 1;
        }
        out
    }
}

/// Moving a mount loses none and adds none: the registry holds the same entries
/// after as before, as many of them, and each as often.
pub proof fn law_reorder_keeps_mounts(entries: Seq<MountEntry>, source: int, dest: int)
    ensures
        moved(entries, source, dest).len() == entries.len(),
        moved(entries, source, dest).to_multiset() == entries.to_multiset(),
        0 <= source < entries.len() && 0 <= dest < entries.len() ==> moved(entries, source, dest)[dest]
            == entries[source],
{
    if 0 <= source < entries.len() && 0 <= dest < entries.len() {
        let rest = entries.remove(source);
        let after = rest.insert(dest, entries[source]);
        broadcast use vstd::multiset::group_multiset_axioms;

        vstd::seq_lib::to_multiset_insert(rest, dest, entries[source]);
        vstd::seq_lib::to_multiset_remove(entries, source);
        entries.to_multiset_ensures();
        assert(entries.contains(entries[source]));
        assert(after.to_multiset() =~= entries.to_multiset());
    }
}

} // verus!
