//! The shape of a virtual tree as a mathematical object: which nodes it has, in which
//! order, and which node stands under which.
//!
//! The nodes of a tree are laid out in one sequence, in the order in which they were
//! made. A node is known by its path; the node above it is the directory at the path of
//! its parent. Identities play no part here.

use crate::archive::ChunkDescriptor;
use crate::path::{dir_prefixes, parent_path};
use vstd::prelude::*;

verus! {

/// One entry to lay out: a chunk and the path it is shown under.
pub struct Item {
    pub path: Seq<char>,
    pub chunk: ChunkDescriptor,
}

/// One node of a layout: a file with its chunk, or a directory with none.
pub struct Entry {
    pub path: Seq<char>,
    pub chunk: Option<ChunkDescriptor>,
}

/// The directory entry at `path`.
pub open spec fn dir_entry(path: Seq<char>) -> Entry {
    Entry { path, chunk: None }
}

/// The file entry of `item`.
pub open spec fn file_entry(item: Item) -> Entry {
    Entry { path: item.path, chunk: Some(item.chunk) }
}

/// Whether `e` is the directory at `path`.
pub open spec fn is_dir_at(e: Entry, path: Seq<char>) -> bool {
    e.chunk is None && e.path == path
}

/// The position of the last directory at `path` in `entries`, or -1 where there is none.
pub open spec fn dir_position(entries: Seq<Entry>, path: Seq<char>) -> int
    decreases entries.len(),
{
    if entries.len() == 0 {
        -1
    } else if is_dir_at(entries.last(), path) {
        entries.len() - 1
    } else {
        dir_position(entries.drop_last(), path)
    }
}

/// Whether `entries` has a directory at `path`.
pub open spec fn has_dir(entries: Seq<Entry>, path: Seq<char>) -> bool {
    dir_position(entries, path) >= 0
}

/// Directory entries for those of `prefixes` that `entries` has no directory at, in
/// the order of `prefixes`.
pub open spec fn missing_dirs(entries: Seq<Entry>, prefixes: Seq<Seq<char>>) -> Seq<Entry>
    decreases prefixes.len(),
{
    if prefixes.len() == 0 {
        Seq::empty()
    } else if has_dir(entries, prefixes.last()) {
        missing_dirs(entries, prefixes.drop_last())
    } else {
        missing_dirs(entries, prefixes.drop_last()).push(dir_entry(prefixes.last()))
    }
}

/// What laying out one more item adds to `entries`: the directories above the item
/// that are not there yet, outermost first, then the file itself.
pub open spec fn added_by(entries: Seq<Entry>, item: Item) -> Seq<Entry> {
    missing_dirs(entries, dir_prefixes(item.path)).push(file_entry(item))
}

/// The layout of `items`: the items are taken in order, and each adds the directories
/// above it that no earlier item needed, then its file.
pub open spec fn layout(items: Seq<Item>) -> Seq<Entry>
    decreases items.len(),
{
    if items.len() == 0 {
        Seq::empty()
    } else {
        layout(items.drop_last()) + added_by(layout(items.drop_last()), items.last())
    }
}

/// The positions of the entries of `entries` that stand directly under `parent`, in
/// order; `None` stands for the top level.
pub open spec fn positions_under(entries: Seq<Entry>, parent: Option<Seq<char>>) -> Seq<int>
    decreases entries.len(),
{
    if entries.len() == 0 {
        Seq::empty()
    } else if parent_path(entries.last().path) == parent {
        positions_under(entries.drop_last(), parent).push(entries.len() - 1)
    } else {
        positions_under(entries.drop_last(), parent)
    }
}

/// The position of the directory above the entry at `i`, or -1 at the top level.
pub open spec fn parent_position(entries: Seq<Entry>, i: int) -> int {
    match parent_path(entries[i].path) {
        None => -1,
        Some(q) => dir_position(entries, q),
    }
}

/// The positions on the way from the top level down to the entry at `i`, that entry
/// included.
pub open spec fn chain_to(entries: Seq<Entry>, i: int) -> Seq<int>
    decreases i,
{
    let d = parent_position(entries, i);
    if 0 <= d < i {
        chain_to(entries, d).push(i)
    } else {
        seq![i]
    }
}

/// `dir_position` finds a directory at the path, and the last one.
pub proof fn lemma_dir_position(entries: Seq<Entry>, path: Seq<char>)
    ensures
        -1 <= dir_position(entries, path) < entries.len(),
        has_dir(entries, path) ==> is_dir_at(entries[dir_position(entries, path)], path),
        forall|i: int|
            0 <= i < entries.len() && is_dir_at(#[trigger] entries[i], path) ==> i <= dir_position(
                entries,
                path,
            ),
    decreases entries.len(),
{
    if entries.len() > 0 && !is_dir_at(entries.last(), path) {
        lemma_dir_position(entries.drop_last(), path);
        assert forall|i: int| 0 <= i < entries.len() && is_dir_at(
            #[trigger] entries[i],
            path,
        ) implies i <= dir_position(entries, path) by {
            assert(entries.drop_last()[i] == entries[i]);
        }
    }
}

/// What one more entry does to `dir_position`.
pub proof fn lemma_dir_position_push(entries: Seq<Entry>, e: Entry, path: Seq<char>)
    ensures
        dir_position(entries.push(e), path) == if is_dir_at(e, path) {
            entries.len() as int
        } else {
            dir_position(entries, path)
        },
{
    assert(entries.push(e).drop_last() == entries);
}

/// What one more entry does to `positions_under`.
pub proof fn lemma_positions_under_push(entries: Seq<Entry>, e: Entry, parent: Option<Seq<char>>)
    ensures
        positions_under(entries.push(e), parent) == if parent_path(e.path) == parent {
            positions_under(entries, parent).push(entries.len() as int)
        } else {
            positions_under(entries, parent)
        },
{
    assert(entries.push(e).drop_last() == entries);
}

/// `positions_under` lists exactly the positions whose parent is `parent`, in rising order.
pub proof fn lemma_positions_under(entries: Seq<Entry>, parent: Option<Seq<char>>)
    ensures
        forall|k: int|
            0 <= k < positions_under(entries, parent).len() ==> {
                let i = #[trigger] positions_under(entries, parent)[k];
                0 <= i < entries.len() && parent_path(entries[i].path) == parent
            },
        forall|k: int, l: int|
            0 <= k < l < positions_under(entries, parent).len() ==> positions_under(
                entries,
                parent,
            )[k] < positions_under(entries, parent)[l],
        forall|i: int|
            0 <= i < entries.len() && parent_path((#[trigger] entries[i]).path) == parent
                ==> positions_under(entries, parent).contains(i),
    decreases entries.len(),
{
    if entries.len() > 0 {
        let rest = entries.drop_last();
        lemma_positions_under(rest, parent);
        let here = positions_under(entries, parent);
        let before = positions_under(rest, parent);
        assert forall|k: int| 0 <= k < here.len() implies {
            let i = #[trigger] here[k];
            0 <= i < entries.len() && parent_path(entries[i].path) == parent
        } by {
            if k < before.len() {
                assert(here[k] == before[k]);
                assert(rest[before[k]] == entries[before[k]]);
            }
        }
        assert forall|i: int|
            0 <= i < entries.len() && parent_path((#[trigger] entries[i]).path) == parent implies here.contains(
            i,
        ) by {
            if i < rest.len() {
                assert(rest[i] == entries[i]);
                let k = choose|k: int| 0 <= k < before.len() && before[k] == i;
                assert(here[k] == i);
            } else {
                assert(here[here.len() - 1] == i);
            }
        }
    }
}

/// One more entry adds at most its own path to the paths that have a directory.
pub proof fn lemma_has_dir_push(entries: Seq<Entry>, e: Entry, path: Seq<char>)
    ensures
        has_dir(entries.push(e), path) <==> has_dir(entries, path) || is_dir_at(e, path),
{
    lemma_dir_position_push(entries, e, path);
    lemma_dir_position(entries, path);
}

/// The paths that have a directory in a joined layout are those of its two parts.
pub proof fn lemma_has_dir_add(a: Seq<Entry>, b: Seq<Entry>, path: Seq<char>)
    ensures
        has_dir(a + b, path) <==> has_dir(a, path) || has_dir(b, path),
    decreases b.len(),
{
    if b.len() == 0 {
        assert(a + b =~= a);
    } else {
        lemma_has_dir_add(a, b.drop_last(), path);
        assert(a + b =~= (a + b.drop_last()).push(b.last()));
        assert(b =~= b.drop_last().push(b.last()));
        lemma_has_dir_push(a + b.drop_last(), b.last(), path);
        lemma_has_dir_push(b.drop_last(), b.last(), path);
    }
}

/// The missing directories are those of the prefixes that have no directory yet.
pub proof fn lemma_missing_dirs(entries: Seq<Entry>, prefixes: Seq<Seq<char>>, path: Seq<char>)
    ensures
        has_dir(missing_dirs(entries, prefixes), path) <==> prefixes.contains(path) && !has_dir(
            entries,
            path,
        ),
    decreases prefixes.len(),
{
    if prefixes.len() > 0 {
        let rest = prefixes.drop_last();
        lemma_missing_dirs(entries, rest, path);
        lemma_has_dir_push(missing_dirs(entries, rest), dir_entry(prefixes.last()), path);
        assert(prefixes =~= rest.push(prefixes.last()));
        if rest.contains(path) {
            let k = choose|k: int| 0 <= k < rest.len() && rest[k] == path;
            assert(prefixes[k] == path);
        }
        if prefixes.contains(path) && prefixes.last() != path {
            let k = choose|k: int| 0 <= k < prefixes.len() && prefixes[k] == path;
            assert(rest[k] == path);
        }
    }
}

/// Whether `path` is the path of a directory above one of `items`.
pub open spec fn needed_dir(items: Seq<Item>, path: Seq<char>) -> bool {
    exists|k: int| 0 <= k < items.len() && dir_prefixes((#[trigger] items[k]).path).contains(path)
}

/// A layout has a directory at a path exactly where one of its items lies under that
/// path: none is missing and none is there for nothing.
pub proof fn law_layout_directories(items: Seq<Item>, path: Seq<char>)
    ensures
        has_dir(layout(items), path) <==> needed_dir(items, path),
    decreases items.len(),
{
    if items.len() > 0 {
        let rest = items.drop_last();
        let item = items.last();
        let before = layout(rest);
        let dirs = missing_dirs(before, dir_prefixes(item.path));
        law_layout_directories(rest, path);
        lemma_missing_dirs(before, dir_prefixes(item.path), path);
        lemma_has_dir_push(dirs, file_entry(item), path);
        lemma_has_dir_add(before, added_by(before, item), path);
        if needed_dir(rest, path) {
            let k = choose|k: int|
                0 <= k < rest.len() && dir_prefixes((#[trigger] rest[k]).path).contains(path);
            assert(items[k] == rest[k]);
        }
        if needed_dir(items, path) {
            let k = choose|k: int|
                0 <= k < items.len() && dir_prefixes((#[trigger] items[k]).path).contains(path);
            if k < rest.len() {
                assert(rest[k] == items[k]);
            }
        }
    }
}

/// The directories of a layout do not depend on the order of the items: two sequences
/// with the same items give directories at the same paths.
pub proof fn law_directories_order_free(first: Seq<Item>, second: Seq<Item>, path: Seq<char>)
    requires
        forall|item: Item| first.contains(item) <==> second.contains(item),
    ensures
        has_dir(layout(first), path) <==> has_dir(layout(second), path),
{
    law_layout_directories(first, path);
    law_layout_directories(second, path);
    if needed_dir(first, path) {
        let k = choose|k: int|
            0 <= k < first.len() && dir_prefixes((#[trigger] first[k]).path).contains(path);
        assert(first.contains(first[k]));
        let l = choose|l: int| 0 <= l < second.len() && second[l] == first[k];
        assert(dir_prefixes(second[l].path).contains(path));
    }
    if needed_dir(second, path) {
        let k = choose|k: int|
            0 <= k < second.len() && dir_prefixes((#[trigger] second[k]).path).contains(path);
        assert(second.contains(second[k]));
        let l = choose|l: int| 0 <= l < first.len() && first[l] == second[k];
        assert(dir_prefixes(first[l].path).contains(path));
    }
}

} // verus!
