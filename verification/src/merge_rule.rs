//! Which data leaves when two shards are merged.
use vstd::prelude::*;

use crate::keyspace::{
    in_keyspace, is_belongs_to_same_keyspace, is_keyspace_key, same_keyspace,
};

verus! {

/// The data of the shard that begins at `own` leaves when it is merged with the
/// one that begins at `other`: they are of different keyspaces and it is in one.
pub open spec fn leaves(own: Seq<u8>, other: Seq<u8>) -> bool {
    !same_keyspace(own, other) && is_keyspace_key(own)
}

/// Whether the data of the source and of the target leave when they are merged.
///
/// Shards of different keyspaces are merged only once a keyspace is deleted. The
/// files of a keyspace have no prefix in their keys and could not be told from
/// those of the other.
pub fn need_clear_region_data_on_merge(
    source_outer_start: &[u8],
    target_outer_start: &[u8],
) -> (res: (bool, bool))
    ensures
        res.0 == leaves(source_outer_start@, target_outer_start@),
        res.1 == leaves(target_outer_start@, source_outer_start@),
{
    let same = is_belongs_to_same_keyspace(source_outer_start, target_outer_start);
    (!same && in_keyspace(source_outer_start), !same && in_keyspace(target_outer_start))
}

/// Within a keyspace nothing leaves, and outside of all keyspaces neither.
pub proof fn law_same_keyspace_keeps_data(a: Seq<u8>, b: Seq<u8>)
    requires
        same_keyspace(a, b) || (!is_keyspace_key(a) && !is_keyspace_key(b)),
    ensures
        !leaves(a, b),
        !leaves(b, a),
{
}

} // verus!
