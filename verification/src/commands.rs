//! The operations that callers reach a registry through: mounting and unmounting,
//! listing, selecting, and starting an extraction. Each takes the registry that it
//! works on; none keeps state of its own.

use crate::archive::parse_outcome;
use crate::extract::{paths_of, ExtractionPipeline, Phase, PipelineView};
use crate::ident::{id_position, parse_id, uuid_value};
use crate::layout::{chain_to, positions_under};
use crate::registry::{identities, moved, mounts, MountEntry, MountError, MountRegistry};
use crate::resolver::PathResolver;
use crate::tree::{
    apply_selections, nodes_at, selected_chunks_of, targets, NodeKind, NotFound, TreeNode,
    WadItemSelectionUpdate,
};
use vstd::prelude::*;

verus! {

/// Why an operation was refused.
#[derive(Clone, Copy, Debug, PartialEq, Eq, Structural)]
pub enum ApiError {
    /// No archive was named and none was picked.
    NoFilesPicked,
    /// The text given for the identity of a mount spells none.
    InvalidWadId,
    /// The text given for the identity of an action spells none.
    InvalidActionId,
    /// A mount or a node was not found, or a file was asked for its children.
    NotFound(NotFound),
    /// An archive could not be mounted.
    Mount(MountError),
}

impl ApiError {
    /// The error in words.
    pub fn message(&self) -> (r: String)
        ensures
            r@ == self.message_text(),
    {
        let text = match self {
            ApiError::NoFilesPicked => "failed to pick files",
            ApiError::InvalidWadId => "failed to parse wad_id",
            ApiError::InvalidActionId => "failed to parse action_id",
            ApiError::NotFound(NotFound::UnknownMount { .. }) => "failed to find wad",
            ApiError::NotFound(NotFound::UnknownNode { .. }) => "failed to find item",
            ApiError::NotFound(NotFound::ParentIsFile { .. }) => "cannot get items of file",
            ApiError::Mount(MountError::ParseFailed(_)) => "failed to mount wad",
            ApiError::Mount(MountError::IOFailed) => "failed to open wad file",
        };
        String::from_str(text)
    }

    /// The words that the error is reported in.
    pub open spec fn message_text(&self) -> Seq<char> {
        match *self {
            ApiError::NoFilesPicked => "failed to pick files"@,
            ApiError::InvalidWadId => "failed to parse wad_id"@,
            ApiError::InvalidActionId => "failed to parse action_id"@,
            ApiError::NotFound(NotFound::UnknownMount { .. }) => "failed to find wad"@,
            ApiError::NotFound(NotFound::UnknownNode { .. }) => "failed to find item"@,
            ApiError::NotFound(NotFound::ParentIsFile { .. }) => "cannot get items of file"@,
            ApiError::Mount(MountError::ParseFailed(_)) => "failed to mount wad"@,
            ApiError::Mount(MountError::IOFailed) => "failed to open wad file"@,
        }
    }
}

/// File or directory.
#[derive(Clone, Copy, Debug, PartialEq, Eq, Structural)]
pub enum WadItemKind {
    File,
    Directory,
}

/// What is shown of a node in a listing.
pub struct WadItemDto {
    pub id: u128,
    pub kind: WadItemKind,
    pub name: String,
    pub path: String,
    pub is_selected: bool,
}

/// What is shown of a node on the way down to another.
pub struct WadItemPathComponentDto {
    pub item_id: u128,
    pub name: String,
    pub path: String,
}

/// What is shown of a mount.
pub struct MountedWadDto {
    pub id: u128,
    pub name: String,
    pub wad_path: String,
}

/// The answer to a request to mount: the identities of the new mounts, in order.
pub struct MountWadResponse {
    pub wad_ids: Vec<u128>,
}

/// The answer to a request for the mounts, in display order.
pub struct MountedWadsResponse {
    pub wads: Vec<MountedWadDto>,
}

/// An archive to mount: where it was read from, and its bytes, or `None` where it could
/// not be read.
pub struct WadSource {
    pub path: String,
    pub bytes: Option<Vec<u8>>,
}

/// An extraction that was started: the identity of the action it reports under, and
/// the pipeline to drive.
pub struct ExtractionJob {
    pub action_id: u128,
    pub pipeline: ExtractionPipeline,
}

/// Whether `dto` shows `node`.
pub open spec fn shows(dto: WadItemDto, node: TreeNode) -> bool {
    &&& dto.id == node.id
    &&& dto.kind == if node.kind is Directory {
        WadItemKind::Directory
    } else {
        WadItemKind::File
    }
    &&& dto.name@ == node.name@
    &&& dto.path@ == node.path@
    &&& dto.is_selected == node.selected
}

/// Whether `dtos` shows `nodes`, one for one.
pub open spec fn show_all(dtos: Seq<WadItemDto>, nodes: Seq<TreeNode>) -> bool {
    &&& dtos.len() == nodes.len()
    &&& forall|k: int| 0 <= k < dtos.len() ==> shows(#[trigger] dtos[k], nodes[k])
}

/// Whether `parts` names `nodes`, one for one.
pub open spec fn names_all(parts: Seq<WadItemPathComponentDto>, nodes: Seq<TreeNode>) -> bool {
    &&& parts.len() == nodes.len()
    &&& forall|k: int|
        0 <= k < parts.len() ==> {
            &&& (#[trigger] parts[k]).item_id == nodes[k].id
            &&& parts[k].name@ == nodes[k].name@
            &&& parts[k].path@ == nodes[k].path@
        }
}

/// Whether `source` can be mounted: it was read, and its bytes are an archive.
pub open spec fn mountable(source: WadSource) -> bool {
    source.bytes is Some && parse_outcome(source.bytes->0@) is Ok
}

/// Why `source` cannot be mounted.
pub open spec fn mount_error_of(source: WadSource) -> MountError {
    match source.bytes {
        None => MountError::IOFailed,
        Some(bytes) => MountError::ParseFailed(parse_outcome(bytes@)->Err_0),
    }
}

fn item_dto(node: &TreeNode) -> (dto: WadItemDto)
    ensures
        shows(dto, *node),
{
    WadItemDto {
        id: node.id,
        kind: match &node.kind {
            NodeKind::File { .. } => WadItemKind::File,
            NodeKind::Directory { .. } => WadItemKind::Directory,
        },
        name: node.name.clone(),
        path: node.path.clone(),
        is_selected: node.selected,
    }
}

fn item_dtos(nodes: &Vec<&TreeNode>) -> (dtos: Vec<WadItemDto>)
    ensures
        show_all(dtos@, targets(nodes@)),
{
    let mut out: Vec<WadItemDto> = Vec::new();
    let mut k: usize = 0;
    while k < nodes.len()
        invariant
            k <= nodes@.len(),
            out@.len() == k,
            forall|j: int| 0 <= j < k ==> shows(#[trigger] out@[j], *nodes@[j]),
        decreases nodes@.len() - k,
    {
        out.push(item_dto(nodes[k]));
        k = k + 1;
    }
    out
}

/// Mounts the archives `sources` in order and answers with the identities of the
/// mounts. The first source that cannot be mounted ends the request with its error;
/// the archives before it stay mounted, those after it are not looked at.
pub fn mount_wads(registry: &mut MountRegistry, sources: Vec<WadSource>, resolver: &PathResolver) -> (r:
    Result<MountWadResponse, ApiError>)
    requires
        old(registry).wf(),
    ensures
        final(registry).wf(),
        ({
            let before = old(registry).mounted();
            let after = final(registry).mounted();
            let added = after.len() - before.len();
            &&& 0 <= added <= sources@.len()
            &&& after.subrange(0, before.len() as int) == before
            &&& forall|k: int|
                0 <= k < added ==> mountable(#[trigger] sources@[k]) && mounts(
                    after[before.len() + k],
                    sources@[k].bytes->0@,
                    sources@[k].path@,
                    resolver@,
                )
            &&& match r {
                Ok(response) => {
                    &&& added == sources@.len()
                    &&& response.wad_ids@.len() == added
                    &&& forall|k: int|
                        0 <= k < added ==> #[trigger] response.wad_ids@[k] == after[before.len()
                            + k].identity()
                },
                Err(e) => {
                    &&& added < sources@.len()
                    &&& !mountable(sources@[added])
                    &&& e == ApiError::Mount(mount_error_of(sources@[added]))
                },
            }
        }),
{
    let mut wad_ids: Vec<u128> = Vec::new();
    let mut failure: Option<ApiError> = None;
    let ghost before = registry.mounted();
    let ghost all = sources@;
    let ghost mut done: int = 0;
    assert(registry.mounted().subrange(0, before.len() as int) =~= before);
    for source in it: sources
        invariant
            it.seq() == all,
            all == sources@,
            before == old(registry).mounted(),
            registry.wf(),
            match failure {
                None => done == it.index(),
                Some(e) => 0 <= done < it.index() && !mountable(all[done]) && e == ApiError::Mount(
                    mount_error_of(all[done]),
                ),
            },
            registry.mounted().len() == before.len() + done,
            registry.mounted().subrange(0, before.len() as int) == before,
            wad_ids@.len() == done,
            forall|k: int|
                0 <= k < done ==> mountable(#[trigger] all[k]) && mounts(
                    registry.mounted()[before.len() + k],
                    all[k].bytes->0@,
                    all[k].path@,
                    resolver@,
                ),
            forall|k: int|
                0 <= k < done ==> #[trigger] wad_ids@[k] == registry.mounted()[before.len()
                    + k].identity(),
    {
        if failure.is_none() {
            let ghost mid = registry.mounted();
            match registry.mount_read(source.bytes, source.path, resolver) {
                Err(e) => {
                    failure = Some(ApiError::Mount(e));
                },
                Ok(id) => {
                    wad_ids.push(id);
                    proof {
                        let after = registry.mounted();
                        assert(after.drop_last() == mid);
                        assert forall|k: int| 0 <= k < after.len() - 1 implies #[trigger] after[k]
                            == mid[k] by {
                            assert(after.drop_last()[k] == after[k]);
                        }
                        assert(after.subrange(0, before.len() as int) =~= before);
                        done = done + 1;
                    }
                },
            }
        }
    }
    match failure {
        Some(e) => Err(e),
        None => Ok(MountWadResponse { wad_ids }),
    }
}

/// The nodes directly under the node `parent_id` of the mount `wad_id`, or the
/// top-level nodes of that mount where no parent is named, in the order in which they
/// were first seen.
pub fn get_wad_parent_items(registry: &MountRegistry, wad_id: u128, parent_id: Option<u128>) -> (r:
    Result<Vec<WadItemDto>, ApiError>)
    requires
        registry.wf(),
    ensures
        match r {
            Ok(items) => {
                let tree = registry.mounted()[registry.position(wad_id)].directory();
                &&& registry.contains(wad_id)
                &&& match parent_id {
                    None => show_all(
                        items@,
                        nodes_at(tree.arena(), positions_under(tree.entries(), None)),
                    ),
                    Some(id) => {
                        let parent = tree.arena()[tree.position(id)];
                        &&& tree.contains(id)
                        &&& parent.kind is Directory
                        &&& show_all(
                            items@,
                            nodes_at(
                                tree.arena(),
                                positions_under(tree.entries(), Some(parent.path@)),
                            ),
                        )
                    },
                }
            },
            Err(e) => if !registry.contains(wad_id) {
                e == ApiError::NotFound(NotFound::UnknownMount { id: wad_id })
            } else {
                let tree = registry.mounted()[registry.position(wad_id)].directory();
                &&& parent_id is Some
                &&& if tree.contains(parent_id->0) {
                    tree.arena()[tree.position(parent_id->0)].kind is File && e
                        == ApiError::NotFound(NotFound::ParentIsFile { id: parent_id->0 })
                } else {
                    e == ApiError::NotFound(NotFound::UnknownNode { id: parent_id->0 })
                }
            },
        },
{
    let entry = match registry.get(wad_id) {
        None => {
            return Err(ApiError::NotFound(NotFound::UnknownMount { id: wad_id }));
        },
        Some(entry) => entry,
    };
    let tree = entry.tree();
    match parent_id {
        None => Ok(item_dtos(&tree.roots())),
        Some(id) => match tree.children_of(id) {
            Ok(nodes) => Ok(item_dtos(&nodes)),
            Err(e) => Err(ApiError::NotFound(e)),
        },
    }
}

/// Applies the wishes `item_selections` to the tree of the mount `wad_id`, in order.
/// A wish for a node that the tree does not have is passed over without an error.
pub fn update_mounted_wad_item_selection(
    registry: &mut MountRegistry,
    wad_id: u128,
    item_selections: Vec<WadItemSelectionUpdate>,
) -> (r: Result<(), ApiError>)
    requires
        old(registry).wf(),
    ensures
        final(registry).wf(),
        match r {
            Ok(_) => {
                let pos = old(registry).position(wad_id);
                let before = old(registry).mounted()[pos];
                let after = final(registry).mounted()[pos];
                &&& old(registry).contains(wad_id)
                &&& final(registry).mounted() == old(registry).mounted().update(pos, after)
                &&& after.identity() == wad_id
                &&& after.display_name() == before.display_name()
                &&& after.container() == before.container()
                &&& after.directory().root_ids() == before.directory().root_ids()
                &&& after.directory().source_path() == before.directory().source_path()
                &&& after.directory().arena() == apply_selections(
                    before.directory().arena(),
                    item_selections@,
                )
            },
            Err(e) => {
                &&& !old(registry).contains(wad_id)
                &&& e == ApiError::NotFound(NotFound::UnknownMount { id: wad_id })
                &&& final(registry).mounted() == old(registry).mounted()
            },
        },
{
    match registry.get_mut(wad_id) {
        None => Err(ApiError::NotFound(NotFound::UnknownMount { id: wad_id })),
        Some(entry) => {
            entry.apply_selections(&item_selections);
            Ok(())
        },
    }
}

/// The mounts in display order.
pub fn get_mounted_wads(registry: &MountRegistry) -> (r: MountedWadsResponse)
    ensures
        r.wads@.len() == registry.mounted().len(),
        forall|i: int|
            0 <= i < r.wads@.len() ==> {
                let entry = registry.mounted()[i];
                &&& (#[trigger] r.wads@[i]).id == entry.identity()
                &&& r.wads@[i].name@ == entry.display_name()
                &&& r.wads@[i].wad_path@ == entry.directory().source_path()
            },
{
    let infos = registry.list();
    let ghost listed = infos@;
    let mut wads: Vec<MountedWadDto> = Vec::new();
    for info in it: infos
        invariant
            it.seq() == listed,
            wads@.len() == it.index(),
            forall|i: int|
                0 <= i < wads@.len() ==> {
                    &&& (#[trigger] wads@[i]).id == listed[i].id
                    &&& wads@[i].name@ == listed[i].name@
                    &&& wads@[i].wad_path@ == listed[i].path@
                },
    {
        wads.push(MountedWadDto { id: info.id, name: info.name, wad_path: info.path });
    }
    MountedWadsResponse { wads }
}

/// What unmounting under the identity `wad_id`, as far as one was spelt, makes of the
/// mounts `before`.
pub open spec fn unmounted(
    before: Seq<MountEntry>,
    after: Seq<MountEntry>,
    wad_id: Option<u128>,
    r: Result<(), ApiError>,
) -> bool {
    match wad_id {
        None => r == Err::<(), ApiError>(ApiError::InvalidWadId) && after == before,
        Some(id) => {
            let pos = id_position(identities(before), id);
            &&& r is Ok
            &&& after == if pos >= 0 {
                before.remove(pos)
            } else {
                before
            }
        },
    }
}

/// Unmounts the mount with the identity `wad_id`; `None` stands for a text that spelt
/// no identity.
pub fn unmount_parsed(registry: &mut MountRegistry, wad_id: Option<u128>) -> (r: Result<
    (),
    ApiError,
>)
    requires
        old(registry).wf(),
    ensures
        final(registry).wf(),
        unmounted(old(registry).mounted(), final(registry).mounted(), wad_id, r),
{
    match wad_id {
        None => Err(ApiError::InvalidWadId),
        Some(id) => {
            let _ = registry.unmount(id);
            Ok(())
        },
    }
}

/// Unmounts the mount whose identity `wad_id` spells. Unmounting what is not mounted
/// is no error.
pub fn unmount_wad(registry: &mut MountRegistry, wad_id: &str) -> (r: Result<(), ApiError>)
    requires
        old(registry).wf(),
    ensures
        final(registry).wf(),
        unmounted(old(registry).mounted(), final(registry).mounted(), uuid_value(wad_id@), r),
{
    unmount_parsed(registry, parse_id(wad_id))
}

/// Whether `job` is the extraction of what is selected in `entry`, reporting under
/// `action`: its pipeline waits for the directories, with nothing written, and is to
/// write the chunks of the selected files of the tree, in arena order, each to the
/// path that `known` gives it.
pub open spec fn extracts(
    job: ExtractionJob,
    entry: MountEntry,
    action: u128,
    known: Map<u64, Seq<char>>,
) -> bool {
    let chunks = selected_chunks_of(entry.directory().arena());
    &&& job.action_id == action
    &&& job.pipeline@.wf()
    &&& job.pipeline@ == (PipelineView {
        bytes: entry.container().bytes(),
        chunks,
        paths: paths_of(chunks, known),
        completed: 0,
        phase: Phase::Directories,
    })
}

/// What starting an extraction gives for the identities `wad_id` and `action_id`, as
/// far as they were spelt.
pub open spec fn extraction_started(
    mounted: Seq<MountEntry>,
    wad_id: Option<u128>,
    action_id: Option<u128>,
    known: Map<u64, Seq<char>>,
    r: Result<ExtractionJob, ApiError>,
) -> bool {
    if action_id is None {
        r is Err && r->Err_0 == ApiError::InvalidActionId
    } else if wad_id is None {
        r is Err && r->Err_0 == ApiError::InvalidWadId
    } else {
        let pos = id_position(identities(mounted), wad_id->0);
        if pos < 0 {
            r is Err && r->Err_0 == ApiError::NotFound(NotFound::UnknownMount { id: wad_id->0 })
        } else {
            r is Ok && extracts(r->Ok_0, mounted[pos], action_id->0, known)
        }
    }
}

/// Starts the extraction of what is selected in the mount `wad_id`, reporting under
/// `action_id`; `None` stands for a text that spelt no identity.
pub fn start_extraction(
    registry: &MountRegistry,
    wad_id: Option<u128>,
    action_id: Option<u128>,
    resolver: &PathResolver,
) -> (r: Result<ExtractionJob, ApiError>)
    requires
        registry.wf(),
    ensures
        extraction_started(registry.mounted(), wad_id, action_id, resolver@, r),
{
    let action = match action_id {
        None => {
            return Err(ApiError::InvalidActionId);
        },
        Some(id) => id,
    };
    let wad = match wad_id {
        None => {
            return Err(ApiError::InvalidWadId);
        },
        Some(id) => id,
    };
    match registry.get(wad) {
        None => Err(ApiError::NotFound(NotFound::UnknownMount { id: wad })),
        Some(entry) => {
            let (decoder, _) = entry.archive().decode();
            let chunks = entry.tree().selected_chunks();
            let pipeline = ExtractionPipeline::new(decoder, chunks, resolver);
            Ok(ExtractionJob { action_id: action, pipeline })
        },
    }
}

/// Starts the extraction of what is selected in the mount whose identity `wad_id`
/// spells; its progress is to be reported under the identity that `action_id` spells.
pub fn extract_mounted_wad(
    registry: &MountRegistry,
    wad_id: &str,
    action_id: &str,
    resolver: &PathResolver,
) -> (r: Result<ExtractionJob, ApiError>)
    requires
        registry.wf(),
    ensures
        extraction_started(
            registry.mounted(),
            uuid_value(wad_id@),
            uuid_value(action_id@),
            resolver@,
            r,
        ),
{
    let action = parse_id(action_id);
    let wad = parse_id(wad_id);
    start_extraction(registry, wad, action, resolver)
}

/// Moves the mount at `source_index` to `dest_index`. Where one of the two is no
/// position of the registry, nothing moves; the answer is `Ok` either way.
pub fn move_mounted_wad(registry: &mut MountRegistry, source_index: usize, dest_index: usize) -> (r:
    Result<(), String>)
    requires
        old(registry).wf(),
    ensures
        final(registry).wf(),
        r is Ok,
        final(registry).mounted() == moved(
            old(registry).mounted(),
            source_index as int,
            dest_index as int,
        ),
{
    registry.reorder(source_index, dest_index);
    Ok(())
}

/// The nodes on the way from the top level of the mount `wad_id` down to the node
/// `item_id`, that node included.
pub fn get_mounted_wad_directory_path_components(
    registry: &MountRegistry,
    wad_id: u128,
    item_id: u128,
) -> (r: Result<Vec<WadItemPathComponentDto>, ApiError>)
    requires
        registry.wf(),
    ensures
        match r {
            Ok(parts) => {
                let tree = registry.mounted()[registry.position(wad_id)].directory();
                &&& registry.contains(wad_id)
                &&& tree.contains(item_id)
                &&& names_all(
                    parts@,
                    nodes_at(tree.arena(), chain_to(tree.entries(), tree.position(item_id))),
                )
            },
            Err(e) => if !registry.contains(wad_id) {
                e == ApiError::NotFound(NotFound::UnknownMount { id: wad_id })
            } else {
                &&& !registry.mounted()[registry.position(wad_id)].directory().contains(item_id)
                &&& e == ApiError::NotFound(NotFound::UnknownNode { id: item_id })
            },
        },
{
    let entry = match registry.get(wad_id) {
        None => {
            return Err(ApiError::NotFound(NotFound::UnknownMount { id: wad_id }));
        },
        Some(entry) => entry,
    };
    match entry.tree().ancestors_of(item_id) {
        Err(e) => Err(ApiError::NotFound(e)),
        Ok(nodes) => {
            let mut parts: Vec<WadItemPathComponentDto> = Vec::new();
            let mut k: usize = 0;
            while k < nodes.len()
                invariant
                    k <= nodes@.len(),
                    parts@.len() == k,
                    forall|j: int|
                        0 <= j < k ==> {
                            &&& (#[trigger] parts@[j]).item_id == nodes@[j].id
                            &&& parts@[j].name@ == nodes@[j].name@
                            &&& parts@[j].path@ == nodes@[j].path@
                        },
                decreases nodes@.len() - k,
            {
                let node = nodes[k];
                parts.push(
                    WadItemPathComponentDto {
                        item_id: node.id,
                        name: node.name.clone(),
                        path: node.path.clone(),
                    },
                );
                k = k + 1;
            }
            Ok(parts)
        },
    }
}

} // verus!
