//! What becomes of the files of a shard, told file by file.
use vstd::prelude::*;

use crate::bound::{Bound, BoundedDataSet};
use crate::file_meta::FileMeta;
use crate::meta::snapshot::{first_offset, offsets_fixed};
use crate::meta::Meta;

verus! {

proof fn lemma_first_offset(s: Seq<(u64, u32)>, id: u64)
    ensures
        first_offset(s, id) is None ==> forall|i: int| 0 <= i < s.len() ==> (#[trigger] s[i]).0 != id,
        first_offset(s, id) matches Some(off) ==> exists|i: int|
            #[trigger] is_first(s, id, i) && s[i].1 == off,
    decreases s.len(),
{
    if s.len() > 0 {
        let init = s.drop_last();
        let n = s.len() - 1;
        lemma_first_offset(init, id);
        if first_offset(init, id) is Some {
            let i = choose|i: int| #[trigger]
                is_first(init, id, i) && init[i].1 == first_offset(init, id)->0;
            assert forall|j: int| 0 <= j < i implies (#[trigger] s[j]).0 != id by {
                assert(init[j] == s[j]);
            }
            assert(s[i] == init[i]);
            assert(is_first(s, id, i));
        } else {
            assert forall|j: int| 0 <= j < n implies (#[trigger] s[j]).0 != id by {
                assert(init[j] == s[j]);
            }
            if s.last().0 == id {
                assert(is_first(s, id, n));
            }
        }
    }
}

/// The entry is the first of the list for the file.
pub open spec fn is_first(s: Seq<(u64, u32)>, id: u64, i: int) -> bool {
    &&& 0 <= i < s.len()
    &&& s[i].0 == id
    &&& forall|j: int| 0 <= j < i ==> (#[trigger] s[j]).0 != id
}

/// A list of offsets fills in that of a table of committed data below level 0 that has none, by
/// its first entry for it. It changes nothing else, and no other file.
pub proof fn law_missing_offsets_are_filled_in(
    files: Map<u64, FileMeta>,
    s: Seq<(u64, u32)>,
    id: u64,
)
    ensures
        offsets_fixed(files, s).dom() == files.dom(),
        files.contains_key(id) ==> {
            let was = files[id];
            let now = offsets_fixed(files, s)[id];
            let lacks = was.file_type is Sst && was.cf == 0 && was.level > 0
                && was.table_meta_off == 0;
            &&& now == (FileMeta { table_meta_off: now.table_meta_off, ..was })
            &&& !lacks ==> now == was
            &&& (forall|i: int| !#[trigger] is_first(s, id, i)) ==> now == was
            &&& forall|i: int| #[trigger]
                is_first(s, id, i) && lacks ==> now.table_meta_off == s[i].1
        },
{
    lemma_first_offset(s, id);
    assert(offsets_fixed(files, s).dom() =~= files.dom());
    if first_offset(s, id) is Some {
        let k = choose|i: int| #[trigger]
            is_first(s, id, i) && s[i].1 == first_offset(s, id)->0;
        assert forall|i: int| #[trigger] is_first(s, id, i) implies i == k by {
            if i < k {
                assert(s[i].0 != id);
            } else if k < i {
                assert(s[k].0 != id);
            }
        }
    } else {
        assert forall|i: int| !#[trigger] is_first(s, id, i) by {
            if is_first(s, id, i) {
                assert(s[i].0 != id);
            }
        }
    }
}

/// Of a shard that forgets its columns, the files stay that are neither columnar files nor
/// vector indexes, as they are; nothing is told of columns any more. The parent forgets them
/// too.
pub proof fn law_columns_are_forgotten(m: Meta, id: u64)
    ensures
        ({
            let res = m.columnar_forgotten();
            &&& res.files.contains_key(id) <==> m.files.contains_key(id) && !(
            m.files[id].file_type is Columnar) && !(m.files[id].file_type is VectorIndex)
            &&& res.files.contains_key(id) ==> res.files[id] == m.files[id]
            &&& res.columnar_table_ids.len() == 0
            &&& res.vector_indexes.len() == 0
            &&& forall|t: u64| !res.unconverted_l0s.contains(t)
            &&& res.columnar_l2_snap_version.version == 0
            &&& res.id == m.id && res.ver == m.ver && res.seq == m.seq && res.range == m.range
            &&& res.props == m.props
            &&& res.data_sequence == m.data_sequence && res.base_version == m.base_version
            &&& res.parent is Some <==> m.parent is Some
            &&& m.parent matches Some(parent) ==> *res.parent->0 == parent.columnar_forgotten()
        }),
{
}

/// Before a merge the version of a shard moves on by one; what the shard was is its parent.
pub proof fn law_prepared_merge_keeps_the_shard(m: Meta, sequence: u64)
    requires
        m.ver < u64::MAX,
    ensures
        ({
            let res = m.merge_prepared(sequence);
            &&& res.ver == m.ver + 1
            &&& res.seq == sequence
            &&& res.data_sequence == sequence
            &&& res.parent is Some && *res.parent->0 == m
            &&& res.id == m.id && res.range == m.range && res.files == m.files
            &&& res.props == m.props && res.vector_indexes == m.vector_indexes
        }),
{
}

/// A table is ingested at a level above which there is no table, and at which it overlaps no
/// committed data, unless it is level 0. No lower level would do, but for the bottom one.
pub proof fn law_ingested_table_fits_its_level(m: Meta, b: Bound, res: int, id: u64)
    requires
        exists|level: u8| #[trigger]
            m.top_level(level) && res == if level > 0 && m.overlapped_at(level, b) {
                level - 1
            } else {
                level as int
            },
    ensures
        m.files.contains_key(id) && m.files[id].file_type is Sst ==> m.files[id].level >= res,
        m.files.contains_key(id) && m.files[id].file_type is Sst && m.files[id].cf == 0 && res > 0
            && m.files[id].level == res ==> !b.overlaps(m.files[id].bound()),
        res == 3 || exists|k: u64| #[trigger]
            m.files.contains_key(k) && (m.files[k].file_type is Sst && m.files[k].level == res || (
            m.files[k].cf == 0 && m.files[k].level == res + 1 && b.overlaps(m.files[k].bound()))),
{
    let level = choose|level: u8| #[trigger]
        m.top_level(level) && res == if level > 0 && m.overlapped_at(level, b) {
            level - 1
        } else {
            level as int
        };
    if level > 0 && m.overlapped_at(level, b) {
        let k = choose|k: u64| #[trigger]
            m.files.contains_key(k) && m.files[k].level == level && m.files[k].cf == 0
                && b.overlaps(m.files[k].bound());
        assert(m.files.contains_key(k) && m.files[k].level == res + 1);
    } else if res != 3 {
        let k = choose|k: u64| #[trigger]
            m.files.contains_key(k) && m.files[k].file_type is Sst && m.files[k].level == level;
        assert(m.files.contains_key(k) && m.files[k].level == res);
    }
}

/// Full text search has yet to process the files that are noted and still there, the columnar
/// files of level 0 that are newer than what it covers, and those that are named.
pub proof fn law_files_that_search_has_to_process(m: Meta, more: Seq<u64>, id: u64)
    ensures
        m.pending(more).contains(id) <==> {
            ||| m.fts_pending_l0_ids.contains(id) && m.files.contains_key(id)
            ||| m.files.contains_key(id) && m.files[id].file_type is Columnar && m.files[id].level
                == 0 && m.files[id].snap().version > m.fts_l0_snap_version.version
            ||| more.contains(id)
        },
{
    assert(more.to_set().contains(id) == more.contains(id));
    assert(m.fts_pending_l0_ids.to_set().contains(id) == m.fts_pending_l0_ids.contains(id));
}

/// Data may be loaded where no table of the bottom level of committed data overlaps it.
pub proof fn law_loaded_data_keeps_the_bottom_level_apart(m: Meta, b: Bound, id: u64)
    requires
        forall|k: u64| #[trigger]
            m.files.contains_key(k) && Meta::is_bottom_write(m.files[k])
                ==> !m.files[k].bound().overlaps(b),
        m.files.contains_key(id),
        m.files[id].cf == 0,
        m.files[id].level == 3,
    ensures
        !m.files[id].bound().overlaps(b),
{
}

} // verus!
