//! Identities of mounts and tree nodes: 128-bit numbers drawn at random.
//!
//! A drawn number that is already taken is not used: the numbers after it are tried in
//! turn, wrapping round, until a free one is found.

use vstd::prelude::*;
use vstd::set_lib::lemma_len_subset;

verus! {

/// Identity of a node in a virtual tree.
pub type TreeNodeId = u128;

/// Identity of a mounted archive.
pub type MountIdentity = u128;

/// The number of 128-bit identities.
pub open spec fn id_space() -> int {
    u128::MAX + 1
}

/// The identity `k` steps after `start`, wrapping round once; `k` is below the number
/// of identities.
pub open spec fn probe(start: u128, k: nat) -> u128 {
    if start + k <= u128::MAX {
        (start + k) as u128
    } else {
        (start + k - id_space()) as u128
    }
}

/// How many steps `x` lies after `start`, wrapping round.
pub open spec fn steps_from(start: u128, x: u128) -> nat {
    if x >= start {
        (x - start) as nat
    } else {
        (x - start + id_space()) as nat
    }
}

/// Whether `id` carries the marks of a random identity: version 4, variant 1.
pub open spec fn is_random_id(id: u128) -> bool {
    id & 0x0000_0000_0000_f000_c000_0000_0000_0000 == 0x0000_0000_0000_4000_8000_0000_0000_0000
}

/// The identity that a text spells, or `None` where it spells none.
pub uninterp spec fn uuid_value(text: Seq<char>) -> Option<u128>;

/// Draws an identity with `uuid::Uuid::new_v4`. The number is random, so the contract
/// states only the version and variant marks that every such identity carries. The
/// call panics where the operating system hands out no random bytes.
#[verifier::external_body]
pub(crate) fn random_id() -> (id: u128)
    ensures
        is_random_id(id),
{
    uuid::Uuid::new_v4().as_u128()
}

/// Reads an identity with `uuid::Uuid::parse_str`, which takes the simple, hyphenated,
/// URN and braced spellings. The contract gives the result a name and claims no more.
#[verifier::external_body]
pub(crate) fn parse_id(text: &str) -> (r: Option<u128>)
    ensures
        r == uuid_value(text@),
{
    match uuid::Uuid::parse_str(text) {
        Ok(id) => Some(id.as_u128()),
        Err(_) => None,
    }
}

/// The identity after `id`, wrapping round.
pub(crate) fn next_id(id: u128) -> (r: u128)
    ensures
        r == probe(id, 1),
{
    if id == u128::MAX {
        0
    } else {
        id + 1
    }
}

/// The identities up to `k` steps after `start`.
pub open spec fn probed(start: u128, k: nat) -> Set<u128> {
    Set::new(|x: u128| steps_from(start, x) < k)
}

/// Probing counts its steps: the identity `k` steps after `start` lies `k` steps after it.
pub proof fn lemma_probe_steps(start: u128, k: nat)
    requires
        k < id_space(),
    ensures
        steps_from(start, probe(start, k)) == k,
        probe(probe(start, k), 1) == probe(start, k + 1),
        probe(start, 0) == start,
{
}

/// Every identity is reached by probing as many steps as it lies after `start`.
pub proof fn lemma_steps_probe(start: u128, x: u128)
    ensures
        steps_from(start, x) < id_space(),
        probe(start, steps_from(start, x)) == x,
{
}

proof fn lemma_probed_len(start: u128, k: nat)
    requires
        k <= id_space(),
    ensures
        probed(start, k).finite(),
        probed(start, k).len() == k,
    decreases k,
{
    if k == 0 {
        assert(probed(start, 0) =~= Set::<u128>::empty());
    } else {
        let before = (k - 1) as nat;
        lemma_probed_len(start, before);
        lemma_probe_steps(start, before);
        let x = probe(start, before);
        assert forall|y: u128| probed(start, k).contains(y) <==> probed(start, before).insert(
            x,
        ).contains(y) by {
            lemma_steps_probe(start, y);
        }
        assert(probed(start, k) =~= probed(start, before).insert(x));
    }
}

/// Probing finds a free identity before it has taken more steps than identities are in
/// use: if the first `k` identities from `start` on are all in `used`, then `used` holds
/// at least `k`.
pub proof fn lemma_probing_ends(used: Set<u128>, start: u128, k: nat)
    requires
        used.finite(),
        k <= id_space(),
        forall|j: nat| j < k ==> used.contains(#[trigger] probe(start, j)),
    ensures
        k <= used.len(),
{
    lemma_probed_len(start, k);
    assert forall|x: u128| probed(start, k).contains(x) implies used.contains(x) by {
        lemma_steps_probe(start, x);
    }
    lemma_len_subset(probed(start, k), used);
}

/// The position of the last occurrence of `id` in `ids`, or -1 where there is none.
pub open spec fn id_position(ids: Seq<u128>, id: u128) -> int
    decreases ids.len(),
{
    if ids.len() == 0 {
        -1
    } else if ids.last() == id {
        ids.len() - 1
    } else {
        id_position(ids.drop_last(), id)
    }
}


/// `id_position` finds the identity, and its last occurrence.
pub proof fn lemma_id_position(ids: Seq<u128>, id: u128)
    ensures
        -1 <= id_position(ids, id) < ids.len(),
        id_position(ids, id) >= 0 ==> ids[id_position(ids, id)] == id,
        forall|i: int| 0 <= i < ids.len() && #[trigger] ids[i] == id ==> i <= id_position(ids, id),
    decreases ids.len(),
{
    if ids.len() > 0 && ids.last() != id {
        lemma_id_position(ids.drop_last(), id);
        assert forall|i: int| 0 <= i < ids.len() && #[trigger] ids[i] == id implies i
            <= id_position(ids, id) by {
            assert(ids.drop_last()[i] == ids[i]);
        }
    }
}

/// What one more identity does to `id_position`.
pub proof fn lemma_id_position_push(ids: Seq<u128>, new: u128, id: u128)
    ensures
        id_position(ids.push(new), id) == if new == id {
            ids.len() as int
        } else {
            id_position(ids, id)
        },
{
    assert(ids.push(new).drop_last() == ids);
}

} // verus!
