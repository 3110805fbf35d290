//! The virtual directory tree of one mounted archive.
//!
//! The nodes live in one arena, in the order in which they were made, and refer to one
//! another by identity. The shape of the tree is that of [`crate::layout`]; the tree
//! adds identities, names and selection flags to it.

use crate::archive::ChunkDescriptor;
use crate::ident::{
    id_position, lemma_id_position, lemma_id_position_push, lemma_probe_steps,
    lemma_probing_ends, next_id, probe, random_id, TreeNodeId,
};
use crate::layout::{
    added_by, chain_to, dir_entry, dir_position, file_entry, has_dir, is_dir_at,
    law_layout_directories, layout, lemma_dir_position, lemma_dir_position_push,
    lemma_positions_under, lemma_positions_under_push, missing_dirs, needed_dir, parent_position,
    positions_under, Entry, Item,
};
use crate::path::{
    depth, dir_prefixes, last_segment, lemma_depth, lemma_dir_prefixes, lemma_segment_start,
    parent_path, segment_start, SEPARATOR,
};
use crate::resolver::{resolved_path, PathResolver};
use std::collections::HashMap;
use vstd::hash_map::StringHashMap;
use vstd::prelude::*;

verus! {

/// What a node is: a file that stands for a chunk, or a directory with its children.
pub enum NodeKind {
    File { chunk: ChunkDescriptor },
    Directory { children: Vec<TreeNodeId> },
}

/// A node of a virtual tree.
pub struct TreeNode {
    /// The identity of the node, unlike that of any other node of its tree.
    pub id: TreeNodeId,
    /// The last segment of the path.
    pub name: String,
    /// The full path of the node.
    pub path: String,
    /// The identity of the directory that holds the node, or `None` at the top level.
    pub parent: Option<TreeNodeId>,
    /// Whether the node is marked for extraction.
    pub selected: bool,
    /// File or directory.
    pub kind: NodeKind,
}

impl TreeNode {
    /// The place of the node in the layout of its tree.
    pub open spec fn entry(&self) -> Entry {
        Entry {
            path: self.path@,
            chunk: match self.kind {
                NodeKind::File { chunk } => Some(chunk),
                NodeKind::Directory { .. } => None,
            },
        }
    }

    /// The identities of the children of a directory, in order; empty for a file.
    pub open spec fn child_ids(&self) -> Seq<u128> {
        match self.kind {
            NodeKind::File { .. } => Seq::empty(),
            NodeKind::Directory { children } => children@,
        }
    }

    /// The node with its selection flag set to `flag`.
    pub open spec fn with_selected(self, flag: bool) -> TreeNode {
        TreeNode { selected: flag, ..self }
    }

    /// The identity of the node.
    pub fn id(&self) -> (r: TreeNodeId)
        ensures
            r == self.id,
    {
        self.id
    }

    /// The name of the node: the last segment of its path.
    pub fn name(&self) -> (r: &String)
        ensures
            *r == self.name,
    {
        &self.name
    }

    /// The full path of the node.
    pub fn path(&self) -> (r: &String)
        ensures
            *r == self.path,
    {
        &self.path
    }

    /// The identity of the directory that holds the node.
    pub fn parent_id(&self) -> (r: Option<TreeNodeId>)
        ensures
            r == self.parent,
    {
        self.parent
    }

    /// Whether the node is marked for extraction.
    pub fn is_selected(&self) -> (r: bool)
        ensures
            r == self.selected,
    {
        self.selected
    }

    /// Whether the node is a directory.
    pub fn is_directory(&self) -> (r: bool)
        ensures
            r == (self.kind is Directory),
    {
        match &self.kind {
            NodeKind::Directory { .. } => true,
            NodeKind::File { .. } => false,
        }
    }

    /// The chunk that a file stands for; `None` for a directory.
    pub fn chunk(&self) -> (r: Option<ChunkDescriptor>)
        ensures
            r == self.entry().chunk,
    {
        match &self.kind {
            NodeKind::File { chunk } => Some(*chunk),
            NodeKind::Directory { .. } => None,
        }
    }
}

/// Why a query found nothing to answer with.
#[derive(Clone, Copy, Debug, PartialEq, Eq, Structural)]
pub enum NotFound {
    /// No archive is mounted under the identity.
    UnknownMount { id: u128 },
    /// The tree has no node with the identity.
    UnknownNode { id: u128 },
    /// The node was asked for its children and is a file.
    ParentIsFile { id: u128 },
}

/// One wish for the selection flag of a node.
pub struct WadItemSelectionUpdate {
    /// The identity of the node.
    pub item_id: TreeNodeId,
    /// The flag that the node is to have.
    pub is_selected: bool,
}

/// The identities of the nodes of `arena`, in arena order.
pub open spec fn ids_of(arena: Seq<TreeNode>) -> Seq<u128> {
    Seq::new(arena.len(), |i: int| arena[i].id)
}

/// The layout of the nodes of `arena`.
pub open spec fn entries_of(arena: Seq<TreeNode>) -> Seq<Entry> {
    Seq::new(arena.len(), |i: int| arena[i].entry())
}

/// The identities at the given positions.
pub open spec fn ids_at(ids: Seq<u128>, positions: Seq<int>) -> Seq<u128> {
    Seq::new(positions.len(), |k: int| ids[positions[k]])
}

/// The nodes at the given positions.
pub open spec fn nodes_at(arena: Seq<TreeNode>, positions: Seq<int>) -> Seq<TreeNode> {
    Seq::new(positions.len(), |k: int| arena[positions[k]])
}

/// The nodes that the references `refs` point to.
pub open spec fn targets(refs: Seq<&TreeNode>) -> Seq<TreeNode> {
    Seq::new(refs.len(), |k: int| *refs[k])
}

/// The chunks of the selected files of `arena`, in arena order.
pub open spec fn selected_chunks_of(arena: Seq<TreeNode>) -> Seq<ChunkDescriptor>
    decreases arena.len(),
{
    if arena.len() == 0 {
        Seq::empty()
    } else {
        match arena.last().kind {
            NodeKind::File { chunk } if arena.last().selected => selected_chunks_of(
                arena.drop_last(),
            ).push(chunk),
            _ => selected_chunks_of(arena.drop_last()),
        }
    }
}

/// The arena after the wishes `updates` were applied in order. A wish for an identity
/// that no node has changes nothing.
pub open spec fn apply_selections(arena: Seq<TreeNode>, updates: Seq<WadItemSelectionUpdate>) -> Seq<
    TreeNode,
>
    decreases updates.len(),
{
    if updates.len() == 0 {
        arena
    } else {
        let before = apply_selections(arena, updates.drop_last());
        let wish = updates.last();
        let pos = id_position(ids_of(before), wish.item_id);
        if pos >= 0 {
            before.update(pos, before[pos].with_selected(wish.is_selected))
        } else {
            before
        }
    }
}

/// The items that the chunks `chunks` are laid out as, given the known paths `known`.
pub open spec fn items_of(chunks: Seq<ChunkDescriptor>, known: Map<u64, Seq<char>>) -> Seq<Item> {
    Seq::new(
        chunks.len(),
        |k: int| Item { path: resolved_path(known, chunks[k].hash), chunk: chunks[k] },
    )
}

/// What holds of the node at position `i` of a well-formed tree with the identities
/// `ids` and the layout `entries`: its identity is its own, its name is the last
/// segment of its path, no other directory has its path, its parent is the directory at
/// the parent path, which was made before it, and its children are the nodes under
/// its path, in arena order.
pub open spec fn node_ok(ids: Seq<u128>, entries: Seq<Entry>, node: TreeNode, i: int) -> bool {
    &&& id_position(ids, node.id) == i
    &&& node.name@ == last_segment(node.path@)
    &&& node.kind is Directory ==> dir_position(entries, node.path@) == i
    &&& match parent_path(node.path@) {
        None => node.parent is None,
        Some(q) => 0 <= dir_position(entries, q) < i && node.parent == Some(
            ids[dir_position(entries, q)],
        ),
    }
    &&& node.kind is Directory ==> node.child_ids() == ids_at(
        ids,
        positions_under(entries, Some(node.path@)),
    )
}

/// Whether `arena` with the top-level list `roots` is a well-formed tree.
pub open spec fn arena_ok(arena: Seq<TreeNode>, roots: Seq<u128>) -> bool {
    &&& forall|i: int|
        0 <= i < arena.len() ==> node_ok(ids_of(arena), entries_of(arena), #[trigger] arena[i], i)
    &&& roots == ids_at(ids_of(arena), positions_under(entries_of(arena), None))
}

/// Whether `after` is the node `before` with `extra` added to its children, and
/// nothing else changed.
pub open spec fn kept(before: TreeNode, after: TreeNode, extra: Seq<u128>) -> bool {
    &&& after.id == before.id
    &&& after.name == before.name
    &&& after.path == before.path
    &&& after.parent == before.parent
    &&& after.selected == before.selected
    &&& after.entry() == before.entry()
    &&& after.kind is Directory <==> before.kind is Directory
    &&& after.child_ids() =~= before.child_ids() + extra
}

/// The position in `arena` of the directory that `node` belongs under, or -1.
pub open spec fn slot_above(arena: Seq<TreeNode>, node: TreeNode) -> int {
    match parent_path(node.path@) {
        None => -1,
        Some(q) => dir_position(entries_of(arena), q),
    }
}

/// Whether `node` can be added to `arena`: its identity is new, its name fits its path,
/// a directory brings no children and a path that no directory has yet, and the
/// directory above it is there and named as its parent.
pub open spec fn fits(arena: Seq<TreeNode>, node: TreeNode) -> bool {
    &&& id_position(ids_of(arena), node.id) < 0
    &&& node.name@ == last_segment(node.path@)
    &&& node.kind is Directory ==> node.child_ids().len() == 0 && !has_dir(
        entries_of(arena),
        node.path@,
    )
    &&& match parent_path(node.path@) {
        None => node.parent is None,
        Some(q) => has_dir(entries_of(arena), q) && node.parent == Some(
            arena[dir_position(entries_of(arena), q)].id,
        ),
    }
}

/// Whether `after` is `arena` with `node` added at its end and listed as a child of
/// the directory above it.
pub open spec fn grown(arena: Seq<TreeNode>, after: Seq<TreeNode>, node: TreeNode) -> bool {
    &&& after.len() == arena.len() + 1
    &&& after.last() == node
    &&& forall|i: int|
        0 <= i < arena.len() ==> kept(
            arena[i],
            #[trigger] after[i],
            if i == slot_above(arena, node) {
                seq![node.id]
            } else {
                Seq::empty()
            },
        )
}

/// The top-level list after `node` was added.
pub open spec fn roots_with(roots: Seq<u128>, node: TreeNode) -> Seq<u128> {
    if parent_path(node.path@) is None {
        roots.push(node.id)
    } else {
        roots
    }
}

/// Adding a node that fits keeps a tree well formed.
pub proof fn lemma_grown(arena: Seq<TreeNode>, roots: Seq<u128>, after: Seq<TreeNode>, node: TreeNode)
    requires
        arena_ok(arena, roots),
        fits(arena, node),
        grown(arena, after, node),
    ensures
        arena_ok(after, roots_with(roots, node)),
        ids_of(after) == ids_of(arena).push(node.id),
        entries_of(after) == entries_of(arena).push(node.entry()),
{
    let ids = ids_of(arena);
    let es = entries_of(arena);
    let ids2 = ids_of(after);
    let es2 = entries_of(after);
    let n = arena.len() as int;
    let e = node.entry();
    let d = slot_above(arena, node);
    assert(ids2 =~= ids.push(node.id));
    assert(es2 =~= es.push(e));
    lemma_segment_start(node.path@);
    lemma_id_position(ids, node.id);
    lemma_dir_position(es, node.path@);
    if parent_path(node.path@) is Some {
        lemma_dir_position(es, parent_path(node.path@)->0);
    }
    assert forall|i: int| 0 <= i < after.len() implies node_ok(ids2, es2, #[trigger] after[i], i) by {
        let m = after[i];
        lemma_id_position_push(ids, node.id, m.id);
        lemma_dir_position_push(es, e, m.path@);
        lemma_positions_under_push(es, e, Some(m.path@));
        lemma_positions_under(es, Some(m.path@));
        if i < n {
            let o = arena[i];
            assert(node_ok(ids, es, o, i));
            assert(ids[i] == o.id);
            lemma_id_position(ids, o.id);
            match parent_path(o.path@) {
                None => {},
                Some(q) => {
                    lemma_dir_position_push(es, e, q);
                    lemma_dir_position(es, q);
                },
            }
            if o.kind is Directory {
                let under = positions_under(es, Some(o.path@));
                let under2 = positions_under(es2, Some(o.path@));
                if parent_path(node.path@) == Some(o.path@) {
                    assert(d == i);
                    assert(m.child_ids() =~= ids_at(ids2, under2));
                } else {
                    assert(d != i) by {
                        if d == i {
                            lemma_dir_position(es, parent_path(node.path@)->0);
                        }
                    }
                    assert(m.child_ids() =~= o.child_ids());
                    assert(m.child_ids() =~= ids_at(ids2, under2));
                }
            }
        } else {
            assert(m == node);
            match parent_path(node.path@) {
                None => {},
                Some(q) => {
                    lemma_dir_position_push(es, e, q);
                    assert(ids[d] == arena[d].id);
                },
            }
            if node.kind is Directory {
                let under = positions_under(es, Some(node.path@));
                if under.len() > 0 {
                    let j = under[0];
                    assert(node_ok(ids, es, arena[j], j));
                    assert(es[j] == arena[j].entry());
                }
                assert(m.child_ids() =~= ids_at(ids2, positions_under(es2, Some(node.path@))));
            }
        }
    }
    lemma_positions_under_push(es, e, None);
    lemma_positions_under(es, None);
    assert(roots_with(roots, node) =~= ids_at(ids2, positions_under(es2, None)));
}

/// Wishes change flags only: the arena keeps its length, and every node its identity,
/// its place in the layout and its children.
pub proof fn lemma_apply_selections_len(arena: Seq<TreeNode>, updates: Seq<WadItemSelectionUpdate>)
    ensures
        apply_selections(arena, updates).len() == arena.len(),
        ids_of(apply_selections(arena, updates)) == ids_of(arena),
        entries_of(apply_selections(arena, updates)) == entries_of(arena),
    decreases updates.len(),
{
    if updates.len() > 0 {
        let before = apply_selections(arena, updates.drop_last());
        lemma_apply_selections_len(arena, updates.drop_last());
        lemma_id_position(ids_of(before), updates.last().item_id);
        assert(ids_of(apply_selections(arena, updates)) =~= ids_of(before));
        assert(entries_of(apply_selections(arena, updates)) =~= entries_of(before));
    }
}

/// The virtual tree of one archive: an arena of nodes, the list of the top-level nodes,
/// and the path of the archive it was built from.
pub struct VirtualTree {
    nodes: Vec<TreeNode>,
    roots: Vec<TreeNodeId>,
    wad_path: String,
    index: HashMap<TreeNodeId, usize>,
    dirs: StringHashMap<usize>,
}

impl VirtualTree {
    /// The nodes, in the order in which they were made.
    pub closed spec fn arena(&self) -> Seq<TreeNode> {
        self.nodes@
    }

    /// The identities of the top-level nodes, in order.
    pub closed spec fn root_ids(&self) -> Seq<u128> {
        self.roots@
    }

    /// The path of the archive that the tree was built from.
    pub closed spec fn source_path(&self) -> Seq<char> {
        self.wad_path@
    }

    /// Whether the lookup tables of the tree agree with its arena.
    pub closed spec fn indexed(&self) -> bool {
        &&& forall|id: u128| #[trigger]
            self.index@.contains_key(id) <==> id_position(ids_of(self.nodes@), id) >= 0
        &&& forall|id: u128| #[trigger]
            self.index@.contains_key(id) ==> self.index@[id] == id_position(ids_of(self.nodes@), id)
        &&& forall|q: Seq<char>| #[trigger]
            self.dirs@.contains_key(q) <==> has_dir(entries_of(self.nodes@), q)
        &&& forall|q: Seq<char>| #[trigger]
            self.dirs@.contains_key(q) ==> self.dirs@[q] == dir_position(entries_of(self.nodes@), q)
    }

    /// Whether the tree is well formed.
    pub open spec fn wf(&self) -> bool {
        arena_ok(self.arena(), self.root_ids()) && self.indexed()
    }

    /// The layout of the tree.
    pub open spec fn entries(&self) -> Seq<Entry> {
        entries_of(self.arena())
    }

    /// The position of the node with the identity `id` in the arena, or -1.
    pub open spec fn position(&self, id: u128) -> int {
        id_position(ids_of(self.arena()), id)
    }

    /// Whether the tree has a node with the identity `id`.
    pub open spec fn contains(&self, id: u128) -> bool {
        self.position(id) >= 0
    }

    /// Whether no node of the tree is selected.
    pub open spec fn unselected(&self) -> bool {
        forall|i: int| 0 <= i < self.arena().len() ==> !(#[trigger] self.arena()[i]).selected
    }

    /// A tree without nodes for the archive at `wad_path`.
    pub fn empty(wad_path: String) -> (tree: VirtualTree)
        ensures
            tree.wf(),
            tree.arena().len() == 0,
            tree.source_path() == wad_path@,
    {
        let tree = VirtualTree {
            nodes: Vec::new(),
            roots: Vec::new(),
            wad_path,
            index: HashMap::new(),
            dirs: StringHashMap::new(),
        };
        assert(tree.roots@ =~= ids_at(
            ids_of(tree.nodes@),
            positions_under(entries_of(tree.nodes@), None),
        ));
        tree
    }

    /// An identity that no node of the tree has: a random one, or where that is taken,
    /// the first free one after it.
    fn fresh_id(&self) -> (id: u128)
        requires
            self.wf(),
        ensures
            !self.contains(id),
    {
        let start = random_id();
        let count = self.index.len();
        let mut id = start;
        let ghost mut k: nat = 0;
        proof {
            lemma_probe_steps(start, 0);
        }
        while self.index.contains_key(&id)
            invariant
                self.indexed(),
                self.index@.dom().finite(),
                self.index@.dom().len() == count,
                id == probe(start, k),
                k <= count,
                forall|j: nat| j < k ==> self.index@.dom().contains(#[trigger] probe(start, j)),
            decreases count - k,
        {
            proof {
                lemma_probing_ends(self.index@.dom(), start, k + 1);
                lemma_probe_steps(start, k);
                k = k + 1;
            }
            id = next_id(id);
        }
        id
    }

    /// Adds `node` at the end of the arena and lists it under the directory at
    /// `above`, or at the top level.
    fn push_node(&mut self, node: TreeNode, above: Option<usize>)
        requires
            old(self).wf(),
            fits(old(self).arena(), node),
            match above {
                Some(d) => d == slot_above(old(self).arena(), node),
                None => parent_path(node.path@) is None,
            },
        ensures
            final(self).wf(),
            grown(old(self).arena(), final(self).arena(), node),
            final(self).entries() == old(self).entries().push(node.entry()),
            final(self).root_ids() == roots_with(old(self).root_ids(), node),
            final(self).source_path() == old(self).source_path(),
    {
        let pos = self.nodes.len();
        let id = node.id;
        let ghost es = entries_of(self.nodes@);
        let ghost ids = ids_of(self.nodes@);
        proof {
            lemma_segment_start(node.path@);
            if parent_path(node.path@) is Some {
                lemma_dir_position(es, parent_path(node.path@)->0);
            }
        }
        match above {
            None => {
                self.roots.push(id);
            },
            Some(d) => {
                assert(node_ok(ids, es, self.nodes@[d as int], d as int));
                assert(self.nodes@[d as int].entry() == es[d as int]);
                match &mut self.nodes[d].kind {
                    NodeKind::Directory { children } => {
                        children.push(id);
                    },
                    NodeKind::File { .. } => {},
                }
            },
        }
        if let NodeKind::Directory { .. } = &node.kind {
            self.dirs.insert(node.path.clone(), pos);
        }
        self.index.insert(id, pos);
        self.nodes.push(node);
        proof {
            assert(grown(old(self).arena(), self.nodes@, node));
            lemma_grown(old(self).arena(), old(self).root_ids(), self.nodes@, node);
            assert forall|x: u128| #[trigger]
                self.index@.contains_key(x) <==> id_position(ids_of(self.nodes@), x) >= 0 by {
                lemma_id_position_push(ids, id, x);
            }
            assert forall|x: u128| #[trigger]
                self.index@.contains_key(x) implies self.index@[x] == id_position(
                ids_of(self.nodes@),
                x,
            ) by {
                lemma_id_position_push(ids, id, x);
            }
            assert forall|q: Seq<char>| #[trigger]
                self.dirs@.contains_key(q) <==> has_dir(entries_of(self.nodes@), q) by {
                lemma_dir_position_push(es, node.entry(), q);
            }
            assert forall|q: Seq<char>| #[trigger]
                self.dirs@.contains_key(q) implies self.dirs@[q] == dir_position(
                entries_of(self.nodes@),
                q,
            ) by {
                lemma_dir_position_push(es, node.entry(), q);
            }
        }
    }

    /// Adds the file of `chunk` at `path`, and before it the directories above it that
    /// the tree does not have yet.
    fn insert(&mut self, path: String, chunk: ChunkDescriptor)
        requires
            old(self).wf(),
            old(self).unselected(),
        ensures
            final(self).wf(),
            final(self).unselected(),
            final(self).entries() == old(self).entries() + added_by(
                old(self).entries(),
                Item { path: path@, chunk },
            ),
            final(self).source_path() == old(self).source_path(),
    {
        let n = path.unicode_len();
        let ghost p = path@;
        let ghost before = self.entries();
        let mut above: Option<usize> = None;
        let mut seg: usize = 0;
        let mut i: usize = 0;
        assert(p.subrange(0, 0) =~= Seq::<char>::empty());
        assert(self.entries() =~= before + missing_dirs(before, dir_prefixes(p.subrange(0, 0))));
        for c in it: path.chars()
            invariant
                n == p.len(),
                p == path@,
                it.seq() == p,
                i == it.index(),
                self.wf(),
                self.unselected(),
                self.source_path() == old(self).source_path(),
                self.entries() == before + missing_dirs(
                    before,
                    dir_prefixes(p.subrange(0, i as int)),
                ),
                seg == segment_start(p.subrange(0, i as int)),
                seg <= i,
                match above {
                    None => seg == 0,
                    Some(d) => seg > 0 && has_dir(self.entries(), p.subrange(0, seg - 1)) && d
                        == dir_position(self.entries(), p.subrange(0, seg - 1)),
                },
                forall|q: Seq<char>|
                    q.len() >= i ==> #[trigger] dir_position(self.entries(), q) == dir_position(
                        before,
                        q,
                    ),
        {
            let ghost sub = p.subrange(0, i as int);
            let ghost sub1 = p.subrange(0, i + 1);
            let ghost cur = self.entries();
            assert(sub1.drop_last() =~= sub);
            assert(sub1.last() == c);
            if c == SEPARATOR {
                let prefix = path.substring_char(0, i);
                assert(prefix@ == sub);
                assert(dir_position(cur, sub) == dir_position(before, sub));
                proof {
                    let above_sub = dir_prefixes(sub);
                    assert(dir_prefixes(sub1) == above_sub.push(sub));
                    assert(above_sub.push(sub).drop_last() =~= above_sub);
                    assert(missing_dirs(before, dir_prefixes(sub1)) == if has_dir(before, sub) {
                        missing_dirs(before, above_sub)
                    } else {
                        missing_dirs(before, above_sub).push(dir_entry(sub))
                    });
                }
                match self.dirs.get(prefix) {
                    Some(d) => {
                        above = Some(*d);
                    },
                    None => {
                        let id = self.fresh_id();
                        let parent = match above {
                            None => None,
                            Some(d) => {
                                proof {
                                    lemma_dir_position(cur, p.subrange(0, seg - 1));
                                }
                                Some(self.nodes[d].id)
                            },
                        };
                        let node = TreeNode {
                            id,
                            name: path.substring_char(seg, i).to_owned(),
                            path: prefix.to_owned(),
                            parent,
                            selected: false,
                            kind: NodeKind::Directory { children: Vec::new() },
                        };
                        let pos = self.nodes.len();
                        proof {
                            assert(sub.subrange(seg as int, i as int) =~= p.subrange(
                                seg as int,
                                i as int,
                            ));
                            if seg > 0 {
                                assert(sub.subrange(0, seg - 1) =~= p.subrange(0, seg - 1));
                            }
                        }
                        self.push_node(node, above);
                        above = Some(pos);
                        proof {
                            let e = dir_entry(sub);
                            assert(node.entry() == e);
                            lemma_dir_position_push(cur, e, sub);
                            assert((before + missing_dirs(before, dir_prefixes(sub))).push(e)
                                =~= before + missing_dirs(before, dir_prefixes(sub)).push(e));
                            assert forall|q: Seq<char>| q.len() >= i + 1 implies #[trigger] dir_position(
                                self.entries(),
                                q,
                            ) == dir_position(before, q) by {
                                lemma_dir_position_push(cur, e, q);
                            }
                        }
                    },
                }
                seg = i + 1;
                assert(p.subrange(0, seg - 1) =~= sub);
            }
            i = i + 1;
        }
        assert(p.subrange(0, n as int) =~= p);
        let ghost cur = self.entries();
        let parent = match above {
            None => None,
            Some(d) => {
                proof {
                    lemma_dir_position(cur, p.subrange(0, seg - 1));
                }
                Some(self.nodes[d].id)
            },
        };
        let id = self.fresh_id();
        let name = path.substring_char(seg, n).to_owned();
        let node = TreeNode {
            id,
            name,
            path,
            parent,
            selected: false,
            kind: NodeKind::File { chunk },
        };
        self.push_node(node, above);
        proof {
            let item = Item { path: p, chunk };
            assert(node.entry() == file_entry(item));
            assert((before + missing_dirs(before, dir_prefixes(p))).push(file_entry(item))
                =~= before + added_by(before, item));
        }
    }

    /// Builds the tree of the chunks `chunks` of the archive at `wad_path`. Each chunk is
    /// shown under the path that `resolver` knows for its hash, or under its placeholder
    /// path. Nothing is selected in the new tree.
    pub fn build(chunks: &Vec<ChunkDescriptor>, resolver: &PathResolver, wad_path: String) -> (tree:
        VirtualTree)
        ensures
            tree.wf(),
            tree.unselected(),
            tree.entries() == layout(items_of(chunks@, resolver@)),
            tree.source_path() == wad_path@,
    {
        let mut tree = VirtualTree::empty(wad_path);
        let ghost items = items_of(chunks@, resolver@);
        let mut k: usize = 0;
        assert(tree.entries() =~= layout(items.subrange(0, 0)));
        while k < chunks.len()
            invariant
                k <= chunks@.len(),
                items == items_of(chunks@, resolver@),
                tree.wf(),
                tree.unselected(),
                tree.source_path() == wad_path@,
                tree.entries() == layout(items.subrange(0, k as int)),
            decreases chunks@.len() - k,
        {
            let chunk = chunks[k];
            let path = resolver.path_of(chunk.hash);
            assert(items.subrange(0, k + 1).drop_last() =~= items.subrange(0, k as int));
            assert(items.subrange(0, k + 1).last() == Item { path: path@, chunk });
            tree.insert(path, chunk);
            k = k + 1;
        }
        assert(items.subrange(0, k as int) =~= items);
        tree
    }

    /// The number of nodes.
    pub fn len(&self) -> (n: usize)
        ensures
            n == self.arena().len(),
    {
        self.nodes.len()
    }

    /// The path of the archive that the tree was built from.
    pub fn wad_path(&self) -> (p: &String)
        ensures
            p@ == self.source_path(),
    {
        &self.wad_path
    }

    /// The position of the node with the identity `id`.
    fn slot(&self, id: u128) -> (r: Option<usize>)
        requires
            self.wf(),
        ensures
            match r {
                Some(pos) => self.contains(id) && pos == self.position(id) && pos
                    < self.arena().len() && self.arena()[pos as int].id == id,
                None => !self.contains(id),
            },
    {
        proof {
            lemma_id_position(ids_of(self.nodes@), id);
        }
        match self.index.get(&id) {
            Some(pos) => Some(*pos),
            None => None,
        }
    }

    /// The node with the identity `id`.
    pub fn get(&self, id: TreeNodeId) -> (r: Option<&TreeNode>)
        requires
            self.wf(),
        ensures
            match r {
                Some(node) => {
                    &&& self.contains(id)
                    &&& self.position(id) < self.arena().len()
                    &&& *node == self.arena()[self.position(id)]
                    &&& node.id == id
                },
                None => !self.contains(id),
            },
    {
        match self.slot(id) {
            Some(pos) => Some(&self.nodes[pos]),
            None => None,
        }
    }

    /// The nodes with the identities `ids`, which are those at `positions`.
    fn gather(&self, ids: &Vec<u128>, Ghost(positions): Ghost<Seq<int>>) -> (r: Vec<&TreeNode>)
        requires
            self.wf(),
            ids@ == ids_at(ids_of(self.arena()), positions),
            forall|k: int| 0 <= k < positions.len() ==> 0 <= #[trigger] positions[k] < self.arena().len(),
        ensures
            targets(r@) == nodes_at(self.arena(), positions),
    {
        let mut out: Vec<&TreeNode> = Vec::new();
        let mut k: usize = 0;
        while k < ids.len()
            invariant
                self.wf(),
                k <= ids@.len(),
                ids@ == ids_at(ids_of(self.arena()), positions),
                forall|k: int|
                    0 <= k < positions.len() ==> 0 <= #[trigger] positions[k] < self.arena().len(),
                out@.len() == k,
                forall|j: int| 0 <= j < k ==> *out@[j] == self.arena()[positions[j]],
            decreases ids@.len() - k,
        {
            let ghost at = positions[k as int];
            assert(node_ok(ids_of(self.arena()), self.entries(), self.arena()[at], at));
            assert(ids@[k as int] == self.arena()[at].id);
            match self.slot(ids[k]) {
                Some(pos) => {
                    out.push(&self.nodes[pos]);
                },
                None => {},
            }
            k = k + 1;
        }
        assert(targets(out@) =~= nodes_at(self.arena(), positions));
        out
    }

    /// The top-level nodes, in the order in which they were first seen.
    pub fn roots(&self) -> (r: Vec<&TreeNode>)
        requires
            self.wf(),
        ensures
            targets(r@) == nodes_at(self.arena(), positions_under(self.entries(), None)),
    {
        proof {
            lemma_positions_under(self.entries(), None);
        }
        self.gather(&self.roots, Ghost(positions_under(self.entries(), None)))
    }

    /// The children of the directory with the identity `parent_id`, in the order in
    /// which they were first seen.
    pub fn children_of(&self, parent_id: TreeNodeId) -> (r: Result<Vec<&TreeNode>, NotFound>)
        requires
            self.wf(),
        ensures
            match r {
                Ok(nodes) => {
                    let parent = self.arena()[self.position(parent_id)];
                    &&& self.contains(parent_id)
                    &&& parent.kind is Directory
                    &&& targets(nodes@) == nodes_at(
                        self.arena(),
                        positions_under(self.entries(), Some(parent.path@)),
                    )
                },
                Err(e) => if self.contains(parent_id) {
                    self.arena()[self.position(parent_id)].kind is File && e
                        == (NotFound::ParentIsFile { id: parent_id })
                } else {
                    e == (NotFound::UnknownNode { id: parent_id })
                },
            },
    {
        match self.slot(parent_id) {
            None => Err(NotFound::UnknownNode { id: parent_id }),
            Some(pos) => {
                let parent = &self.nodes[pos];
                assert(node_ok(ids_of(self.arena()), self.entries(), self.arena()[pos as int], pos as int));
                match &parent.kind {
                    NodeKind::File { .. } => Err(NotFound::ParentIsFile { id: parent_id }),
                    NodeKind::Directory { children } => {
                        proof {
                            lemma_positions_under(self.entries(), Some(parent.path@));
                        }
                        Ok(
                            self.gather(
                                children,
                                Ghost(positions_under(self.entries(), Some(parent.path@))),
                            ),
                        )
                    },
                }
            },
        }
    }

    /// The position of the directory above the node at `pos`.
    fn slot_above_of(&self, pos: usize) -> (r: Option<usize>)
        requires
            self.wf(),
            pos < self.arena().len(),
        ensures
            match r {
                Some(d) => d == parent_position(self.entries(), pos as int) && d < pos,
                None => parent_position(self.entries(), pos as int) == -1,
            },
    {
        let ghost ids = ids_of(self.arena());
        assert(node_ok(ids, self.entries(), self.arena()[pos as int], pos as int));
        assert(self.entries()[pos as int].path == self.arena()[pos as int].path@);
        match self.nodes[pos].parent {
            None => {
                proof {
                    if parent_path(self.arena()[pos as int].path@) is Some {
                        assert(false);
                    }
                }
                None
            },
            Some(parent_id) => {
                let ghost d = parent_position(self.entries(), pos as int);
                assert(node_ok(ids, self.entries(), self.arena()[d], d));
                assert(ids[d] == self.arena()[d].id);
                self.slot(parent_id)
            },
        }
    }

    /// The nodes on the way from the top level down to the node with the identity `id`,
    /// that node included.
    pub fn ancestors_of(&self, id: TreeNodeId) -> (r: Result<Vec<&TreeNode>, NotFound>)
        requires
            self.wf(),
        ensures
            match r {
                Ok(nodes) => self.contains(id) && targets(nodes@) == nodes_at(
                    self.arena(),
                    chain_to(self.entries(), self.position(id)),
                ),
                Err(e) => !self.contains(id) && e == (NotFound::UnknownNode { id }),
            },
    {
        let start = match self.slot(id) {
            None => {
                return Err(NotFound::UnknownNode { id });
            },
            Some(pos) => pos,
        };
        let ghost es = self.entries();
        let mut below: Vec<usize> = Vec::new();
        let ghost mut tail: Seq<int> = Seq::empty();
        let mut cur = start;
        let mut next = self.slot_above_of(cur);
        assert(chain_to(es, start as int) =~= chain_to(es, cur as int) + tail);
        while next.is_some()
            invariant
                self.wf(),
                es == self.entries(),
                cur < self.arena().len(),
                match next {
                    Some(d) => d == parent_position(es, cur as int) && d < cur,
                    None => parent_position(es, cur as int) == -1,
                },
                chain_to(es, start as int) == chain_to(es, cur as int) + tail,
                below@.len() == tail.len(),
                forall|k: int| 0 <= k < tail.len() ==> below@[k] == tail[tail.len() - 1 - k],
                forall|k: int| 0 <= k < tail.len() ==> 0 <= #[trigger] tail[k] < self.arena().len(),
            decreases cur,
        {
            let d = next.unwrap();
            below.push(cur);
            proof {
                assert(chain_to(es, cur as int) == chain_to(es, d as int).push(cur as int));
                assert(chain_to(es, d as int).push(cur as int) + tail =~= chain_to(es, d as int) + (
                seq![cur as int] + tail));
                tail = seq![cur as int] + tail;
            }
            cur = d;
            next = self.slot_above_of(cur);
        }
        assert(chain_to(es, cur as int) == seq![cur as int]);
        let ghost chain = chain_to(es, start as int);
        let mut out: Vec<&TreeNode> = Vec::new();
        out.push(&self.nodes[cur]);
        let mut left: usize = below.len();
        while left > 0
            invariant
                left <= below@.len(),
                below@.len() == tail.len(),
                chain == seq![cur as int] + tail,
                cur < self.arena().len(),
                forall|k: int| 0 <= k < tail.len() ==> below@[k] == tail[tail.len() - 1 - k],
                forall|k: int| 0 <= k < tail.len() ==> 0 <= #[trigger] tail[k] < self.arena().len(),
                out@.len() == 1 + tail.len() - left,
                forall|j: int| 0 <= j < out@.len() ==> *out@[j] == self.arena()[chain[j]],
            decreases left,
        {
            left = left - 1;
            let pos = below[left];
            assert(pos == tail[tail.len() - 1 - left]);
            out.push(&self.nodes[pos]);
        }
        assert(targets(out@) =~= nodes_at(self.arena(), chain));
        Ok(out)
    }

    /// Sets the selection flag of the node with the identity `id`. No other node
    /// changes: selecting a directory selects nothing under it.
    pub fn set_selected(&mut self, id: TreeNodeId, flag: bool) -> (r: Result<(), NotFound>)
        requires
            old(self).wf(),
        ensures
            final(self).wf(),
            final(self).root_ids() == old(self).root_ids(),
            final(self).source_path() == old(self).source_path(),
            match r {
                Ok(_) => {
                    &&& old(self).contains(id)
                    &&& old(self).position(id) < old(self).arena().len()
                    &&& final(self).arena() == old(self).arena().update(
                        old(self).position(id),
                        old(self).arena()[old(self).position(id)].with_selected(flag),
                    )
                },
                Err(e) => !old(self).contains(id) && e == (NotFound::UnknownNode { id })
                    && final(self).arena() == old(self).arena(),
            },
    {
        match self.slot(id) {
            None => Err(NotFound::UnknownNode { id }),
            Some(pos) => {
                self.nodes[pos].selected = flag;
                proof {
                    let before = old(self).arena();
                    let after = self.nodes@;
                    assert(after =~= before.update(pos as int, before[pos as int].with_selected(flag)));
                    assert(ids_of(after) =~= ids_of(before));
                    assert(entries_of(after) =~= entries_of(before));
                    assert forall|i: int| 0 <= i < after.len() implies node_ok(
                        ids_of(after),
                        entries_of(after),
                        #[trigger] after[i],
                        i,
                    ) by {
                        assert(node_ok(ids_of(before), entries_of(before), before[i], i));
                    }
                }
                Ok(())
            },
        }
    }

    /// The chunks of the files that are selected, in arena order.
    pub fn selected_chunks(&self) -> (r: Vec<ChunkDescriptor>)
        ensures
            r@ == selected_chunks_of(self.arena()),
    {
        let mut out: Vec<ChunkDescriptor> = Vec::new();
        let mut k: usize = 0;
        assert(self.arena().subrange(0, 0) =~= Seq::<TreeNode>::empty());
        while k < self.nodes.len()
            invariant
                k <= self.arena().len(),
                out@ == selected_chunks_of(self.arena().subrange(0, k as int)),
            decreases self.arena().len() - k,
        {
            assert(self.arena().subrange(0, k + 1).drop_last() =~= self.arena().subrange(0, k as int));
            assert(self.arena().subrange(0, k + 1).last() == self.arena()[k as int]);
            let node = &self.nodes[k];
            match &node.kind {
                NodeKind::File { chunk } => {
                    if node.selected {
                        out.push(*chunk);
                    }
                },
                NodeKind::Directory { .. } => {},
            }
            k = k + 1;
        }
        assert(self.arena().subrange(0, k as int) =~= self.arena());
        out
    }

    /// Applies the wishes `updates` in order; those for identities that the tree does
    /// not have are passed over.
    pub fn apply_selections(&mut self, updates: &Vec<WadItemSelectionUpdate>)
        requires
            old(self).wf(),
        ensures
            final(self).wf(),
            final(self).arena() == apply_selections(old(self).arena(), updates@),
            final(self).root_ids() == old(self).root_ids(),
            final(self).source_path() == old(self).source_path(),
    {
        let mut k: usize = 0;
        assert(updates@.subrange(0, 0) =~= Seq::<WadItemSelectionUpdate>::empty());
        while k < updates.len()
            invariant
                k <= updates@.len(),
                self.wf(),
                self.arena() == apply_selections(old(self).arena(), updates@.subrange(0, k as int)),
                self.root_ids() == old(self).root_ids(),
                self.source_path() == old(self).source_path(),
            decreases updates@.len() - k,
        {
            assert(updates@.subrange(0, k + 1).drop_last() =~= updates@.subrange(0, k as int));
            assert(updates@.subrange(0, k + 1).last() == updates@[k as int]);
            let wish = &updates[k];
            let _ = self.set_selected(wish.item_id, wish.is_selected);
            k = k + 1;
        }
        assert(updates@.subrange(0, k as int) =~= updates@);
    }
}

/// A well-formed tree has one directory for a path, and no second one.
pub proof fn law_one_directory_per_path(arena: Seq<TreeNode>, roots: Seq<u128>, i: int, j: int)
    requires
        arena_ok(arena, roots),
        0 <= i < arena.len(),
        0 <= j < arena.len(),
        arena[i].kind is Directory,
        arena[j].kind is Directory,
        arena[i].path@ == arena[j].path@,
    ensures
        i == j,
{
    assert(node_ok(ids_of(arena), entries_of(arena), arena[i], i));
    assert(node_ok(ids_of(arena), entries_of(arena), arena[j], j));
}

/// In a well-formed tree every directory above a node is there: for each separator of
/// the path of the node, the tree has a directory at what stands before it.
pub proof fn law_directories_above(arena: Seq<TreeNode>, roots: Seq<u128>, i: int, k: int)
    requires
        arena_ok(arena, roots),
        0 <= i < arena.len(),
        0 <= k < dir_prefixes(arena[i].path@).len(),
    ensures
        has_dir(entries_of(arena), dir_prefixes(arena[i].path@)[k]),
    decreases i,
{
    let es = entries_of(arena);
    let p = arena[i].path@;
    assert(node_ok(ids_of(arena), es, arena[i], i));
    lemma_dir_prefixes(p);
    let q = parent_path(p)->0;
    let d = dir_position(es, q);
    if k < dir_prefixes(p).len() - 1 {
        lemma_dir_position(es, q);
        assert(es[d] == arena[d].entry());
        assert(dir_prefixes(p).drop_last()[k] == dir_prefixes(p)[k]);
        law_directories_above(arena, roots, d, k);
    }
}

/// A built tree has exactly one directory for each path that one of its chunks lies
/// under, and no other directory.
pub proof fn law_one_directory_per_prefix(
    tree: VirtualTree,
    chunks: Seq<ChunkDescriptor>,
    known: Map<u64, Seq<char>>,
    path: Seq<char>,
)
    requires
        tree.wf(),
        tree.entries() == layout(items_of(chunks, known)),
    ensures
        needed_dir(items_of(chunks, known), path) <==> exists|i: int|
            0 <= i < tree.arena().len() && (#[trigger] tree.arena()[i]).kind is Directory
                && tree.arena()[i].path@ == path,
        forall|i: int, j: int|
            0 <= i < tree.arena().len() && 0 <= j < tree.arena().len() && (
            #[trigger] tree.arena()[i]).kind is Directory && (#[trigger] tree.arena()[j]).kind is Directory
                && tree.arena()[i].path@ == path && tree.arena()[j].path@ == path ==> i == j,
{
    let arena = tree.arena();
    let es = tree.entries();
    law_layout_directories(items_of(chunks, known), path);
    lemma_dir_position(es, path);
    if has_dir(es, path) {
        let d = dir_position(es, path);
        assert(es[d] == arena[d].entry());
        assert(arena[d].kind is Directory && arena[d].path@ == path);
    }
    if exists|i: int|
        0 <= i < arena.len() && (#[trigger] arena[i]).kind is Directory && arena[i].path@ == path {
        let i = choose|i: int|
            0 <= i < arena.len() && (#[trigger] arena[i]).kind is Directory && arena[i].path@ == path;
        assert(es[i] == arena[i].entry());
        assert(is_dir_at(es[i], path));
    }
    assert forall|i: int, j: int|
        0 <= i < arena.len() && 0 <= j < arena.len() && (#[trigger] arena[i]).kind is Directory && (
        #[trigger] arena[j]).kind is Directory && arena[i].path@ == path && arena[j].path@
            == path implies i == j by {
        law_one_directory_per_path(arena, tree.root_ids(), i, j);
    }
}

/// Two trees built from the same chunks and the same known paths have the same shape:
/// as many nodes, with the same names, paths and kinds in the same order, under the
/// same parents, and the same order at the top level. Only the identities differ.
pub proof fn law_rebuild_same_shape(
    first: VirtualTree,
    second: VirtualTree,
    chunks: Seq<ChunkDescriptor>,
    known: Map<u64, Seq<char>>,
)
    requires
        first.wf(),
        second.wf(),
        first.entries() == layout(items_of(chunks, known)),
        second.entries() == layout(items_of(chunks, known)),
    ensures
        first.arena().len() == second.arena().len(),
        forall|i: int|
            0 <= i < first.arena().len() ==> {
                let a = #[trigger] first.arena()[i];
                let b = second.arena()[i];
                &&& a.name@ == b.name@
                &&& a.path@ == b.path@
                &&& a.entry() == b.entry()
                &&& a.kind is Directory <==> b.kind is Directory
                &&& a.parent is None <==> b.parent is None
                &&& a.parent is Some ==> first.position(a.parent->0) == second.position(
                    b.parent->0,
                )
                &&& a.child_ids().len() == b.child_ids().len()
            },
        first.root_ids().len() == second.root_ids().len(),
        forall|k: int|
            0 <= k < first.root_ids().len() ==> first.position(#[trigger] first.root_ids()[k])
                == second.position(second.root_ids()[k]),
{
    let es = first.entries();
    let a = first.arena();
    let b = second.arena();
    assert(a.len() == es.len());
    assert(b.len() == es.len());
    assert forall|i: int| 0 <= i < a.len() implies {
        let x = #[trigger] a[i];
        let y = b[i];
        &&& x.name@ == y.name@
        &&& x.path@ == y.path@
        &&& x.entry() == y.entry()
        &&& x.kind is Directory <==> y.kind is Directory
        &&& x.parent is None <==> y.parent is None
        &&& x.parent is Some ==> first.position(x.parent->0) == second.position(y.parent->0)
        &&& x.child_ids().len() == y.child_ids().len()
    } by {
        assert(node_ok(ids_of(a), es, a[i], i));
        assert(node_ok(ids_of(b), es, b[i], i));
        assert(a[i].entry() == es[i]);
        assert(b[i].entry() == es[i]);
        if parent_path(es[i].path) is Some {
            let d = dir_position(es, parent_path(es[i].path)->0);
            assert(node_ok(ids_of(a), es, a[d], d));
            assert(node_ok(ids_of(b), es, b[d], d));
        }
    }
    let top = positions_under(es, None);
    lemma_positions_under(es, None);
    assert forall|k: int| 0 <= k < first.root_ids().len() implies first.position(
        #[trigger] first.root_ids()[k],
    ) == second.position(second.root_ids()[k]) by {
        assert(node_ok(ids_of(a), es, a[top[k]], top[k]));
        assert(node_ok(ids_of(b), es, b[top[k]], top[k]));
    }
}

/// The way down to a node and the listing of children agree. In a well-formed tree the
/// chain of a node starts at a top-level node, which has no parent, ends at the node,
/// has as many links as the path of the node has segments, and each link but the last
/// is a directory whose children hold the next link.
pub proof fn law_ancestor_chain(arena: Seq<TreeNode>, roots: Seq<u128>, i: int)
    requires
        arena_ok(arena, roots),
        0 <= i < arena.len(),
    ensures
        ({
            let es = entries_of(arena);
            let chain = chain_to(es, i);
            &&& chain.len() == depth(arena[i].path@)
            &&& chain.last() == i
            &&& forall|k: int| 0 <= k < chain.len() ==> 0 <= #[trigger] chain[k] < arena.len()
            &&& arena[chain[0]].parent is None
            &&& positions_under(es, None).contains(chain[0])
            &&& roots.contains(arena[chain[0]].id)
            &&& forall|k: int|
                0 <= k < chain.len() - 1 ==> {
                    let above = arena[#[trigger] chain[k]];
                    let below = arena[chain[k + 1]];
                    &&& above.kind is Directory
                    &&& below.parent == Some(above.id)
                    &&& positions_under(es, Some(above.path@)).contains(chain[k + 1])
                    &&& above.child_ids().contains(below.id)
                }
        }),
    decreases i,
{
    let es = entries_of(arena);
    let ids = ids_of(arena);
    let chain = chain_to(es, i);
    let p = arena[i].path@;
    assert(node_ok(ids, es, arena[i], i));
    assert(es[i] == arena[i].entry());
    lemma_depth(p);
    match parent_path(p) {
        None => {
            let top = positions_under(es, None);
            lemma_positions_under(es, None);
            let k = choose|k: int| 0 <= k < top.len() && top[k] == i;
            assert(roots[k] == arena[i].id);
        },
        Some(q) => {
            let d = dir_position(es, q);
            lemma_dir_position(es, q);
            assert(es[d] == arena[d].entry());
            law_ancestor_chain(arena, roots, d);
            let upper = chain_to(es, d);
            assert(chain == upper.push(i));
            assert(node_ok(ids, es, arena[d], d));
            let under = positions_under(es, Some(q));
            lemma_positions_under(es, Some(q));
            let at = choose|k: int| 0 <= k < under.len() && under[k] == i;
            assert(arena[d].child_ids()[at] == arena[i].id);
            assert forall|k: int| 0 <= k < chain.len() - 1 implies {
                let above = arena[#[trigger] chain[k]];
                let below = arena[chain[k + 1]];
                &&& above.kind is Directory
                &&& below.parent == Some(above.id)
                &&& positions_under(es, Some(above.path@)).contains(chain[k + 1])
                &&& above.child_ids().contains(below.id)
            } by {
                if k < upper.len() - 1 {
                    assert(chain[k] == upper[k]);
                    assert(chain[k + 1] == upper[k + 1]);
                }
            }
        },
    }
}

/// Selection is local. Setting the flag of the node at `pos` keeps the tree well
/// formed, changes no other node, whether above or below it, and shows in every
/// listing that holds the node.
pub proof fn law_selection_is_local(arena: Seq<TreeNode>, roots: Seq<u128>, pos: int, flag: bool)
    requires
        arena_ok(arena, roots),
        0 <= pos < arena.len(),
    ensures
        ({
            let after = arena.update(pos, arena[pos].with_selected(flag));
            &&& arena_ok(after, roots)
            &&& entries_of(after) == entries_of(arena)
            &&& ids_of(after) == ids_of(arena)
            &&& after[pos].selected == flag
            &&& forall|j: int| 0 <= j < arena.len() && j != pos ==> #[trigger] after[j] == arena[j]
            &&& forall|positions: Seq<int>, k: int|
                0 <= k < positions.len() && positions[k] == pos ==> (#[trigger] nodes_at(
                    after,
                    positions,
                )[k]).selected == flag
        }),
{
    let after = arena.update(pos, arena[pos].with_selected(flag));
    assert(ids_of(after) =~= ids_of(arena));
    assert(entries_of(after) =~= entries_of(arena));
    assert forall|i: int| 0 <= i < after.len() implies node_ok(
        ids_of(after),
        entries_of(after),
        #[trigger] after[i],
        i,
    ) by {
        assert(node_ok(ids_of(arena), entries_of(arena), arena[i], i));
    }
}

} // verus!
