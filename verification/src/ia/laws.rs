//! Remote files: where their segments meet, what is read of them, and when they become remote.
use vstd::prelude::*;

use crate::ia::auto_file::{auto_files, transited, transitions, IaAutoFile};
use crate::ia::cache::{lookup, position_of, FileSegmentData};
use crate::ia::config::IaCapacity;
use crate::ia::fifo::{Fifo, S3Fifo, StoreAction};
use crate::ia::file::{
    all_below, begins_at, blocks_fit, columnar_fits, columnar_offsets, each_once, sst_offsets,
    ColumnarTableOffsets, ReadFrom, Remote, SstBlocks, SstFooter,
};
use crate::ia::manager::QueueOptions;
use crate::ia::queue::{bytes_of, queued, unused};
use crate::ia::reader::{initialized, taken_over};
use crate::ia::segment::{
    blocks_pushed, law_aligned_segment_holds_the_read, law_segments_are_large_enough,
    lemma_blocks_kept, FileSegmentIdent,
};
use crate::limiter::{LimiterOptions, Throttle};
use crate::lists::lemma_joined;
use crate::shard::size_laws::{lemma_total_last, lemma_total_same, places, total};

verus! {

/// The numbers do not decrease.
pub open spec fn rising(s: Seq<u64>) -> bool {
    forall|i: int, j: int| 0 <= i < j < s.len() ==> s[i] <= s[j]
}

/// A segment begins at most at the offset and less than `size` before it.
pub open spec fn begins_near(offsets: Seq<u64>, size: u64, off: u64) -> bool {
    exists|k: int|
        0 <= k < offsets.len() && #[trigger] offsets[k] <= off && off < offsets[k] + size
}

/// Where blocks are in order, no segment is longer than it has to be: every block begins less
/// than the size of a segment behind the beginning of one.
pub proof fn law_segments_are_not_too_large(offsets: Seq<u64>, size: u64, blocks: Seq<u64>)
    requires
        offsets.len() > 0,
        size > 0,
        rising(blocks),
        blocks.len() > 0 ==> offsets.last() <= blocks[0],
    ensures
        forall|j: int|
            0 <= j < blocks.len() ==> begins_near(
                blocks_pushed(offsets, size, blocks),
                size,
                #[trigger] blocks[j],
            ),
        blocks_pushed(offsets, size, blocks).len() >= offsets.len(),
        blocks.len() > 0 ==> blocks_pushed(offsets, size, blocks).last() <= blocks.last(),
    decreases blocks.len(),
{
    if blocks.len() > 0 {
        let init = blocks.drop_last();
        let n = blocks.len() - 1;
        assert(rising(init)) by {
            assert forall|i: int, j: int| 0 <= i < j < init.len() implies init[i] <= init[j] by {
                assert(blocks[i] <= blocks[j]);
            }
        }
        if init.len() > 0 {
            assert(init[0] == blocks[0]);
        }
        law_segments_are_not_too_large(offsets, size, init);
        let before = blocks_pushed(offsets, size, init);
        let all = blocks_pushed(offsets, size, blocks);
        let b = blocks.last();
        assert(blocks[n] == b);
        assert(before.last() <= b) by {
            if init.len() > 0 {
                assert(init.last() == blocks[n - 1]);
                assert(blocks[n - 1] <= blocks[n]);
            }
        }
        assert forall|j: int| 0 <= j < blocks.len() implies begins_near(
            all,
            size,
            #[trigger] blocks[j],
        ) by {
            if j < n {
                assert(init[j] == blocks[j]);
                assert(begins_near(before, size, init[j]));
                let k = choose|k: int|
                    0 <= k < before.len() && #[trigger] before[k] <= init[j] && init[j] < before[k]
                        + size;
                assert(all[k] == before[k]);
            } else if b >= before.last() + size {
                assert(all[before.len() as int] == b);
            } else {
                assert(all == before);
                assert(all[all.len() - 1] == before.last());
            }
        }
    }
}

/// The segments of a table begin at its first byte and end at its last; they meet at blocks,
/// and where the older versions begin.
pub proof fn law_segments_of_a_table(footer: SstFooter, blocks: SstBlocks, size: u64)
    requires
        blocks_fit(footer, blocks),
    ensures
        ({
            let s = sst_offsets(footer, blocks, size);
            &&& s.len() >= 2
            &&& s[0] == 0
            &&& s.last() == footer.data_len + footer.old_data_len
            &&& s.contains(footer.data_len)
            &&& forall|i: int|
                0 <= i < s.len() ==> {
                    ||| #[trigger] s[i] == 0
                    ||| s[i] == footer.data_len
                    ||| s[i] == footer.data_len + footer.old_data_len
                    ||| blocks.blocks@.contains(s[i])
                    ||| blocks.old_blocks@.contains(s[i])
                }
        }),
{
    let zero = seq![0u64];
    let a = blocks_pushed(zero, size, blocks.blocks@);
    let newest = a.push(footer.data_len);
    let s = sst_offsets(footer, blocks, size);
    lemma_blocks_kept(zero, size, blocks.blocks@);
    assert forall|i: int| 0 <= i < a.len() implies #[trigger] a[i] == 0 || blocks.blocks@.contains(
        a[i],
    ) by {
        if i >= 1 {
            law_segments_are_large_enough(zero, size, blocks.blocks@, i);
        } else {
            assert(zero[0] == 0);
        }
    }
    assert(a[0] == zero[0]);
    assert(zero[0] == 0);
    assert(newest[0] == 0);
    assert(newest[a.len() as int] == footer.data_len);
    if footer.old_data_len > 0 {
        let b = blocks_pushed(newest, size, blocks.old_blocks@);
        lemma_blocks_kept(newest, size, blocks.old_blocks@);
        assert forall|i: int| 0 <= i < b.len() implies #[trigger] b[i] == 0 || b[i]
            == footer.data_len || blocks.blocks@.contains(b[i]) || blocks.old_blocks@.contains(
            b[i],
        ) by {
            if i >= newest.len() {
                law_segments_are_large_enough(newest, size, blocks.old_blocks@, i);
            } else {
                assert(b[i] == newest[i]);
                if i < a.len() {
                    assert(newest[i] == a[i]);
                }
            }
        }
        assert(b[a.len() as int] == footer.data_len);
        assert(s[a.len() as int] == footer.data_len);
        assert forall|i: int| 0 <= i < s.len() implies {
            ||| #[trigger] s[i] == 0
            ||| s[i] == footer.data_len
            ||| s[i] == footer.data_len + footer.old_data_len
            ||| blocks.blocks@.contains(s[i])
            ||| blocks.old_blocks@.contains(s[i])
        } by {
            if i < b.len() {
                assert(s[i] == b[i]);
            }
        }
    } else {
        assert(s == newest);
        assert forall|i: int| 0 <= i < s.len() implies {
            ||| #[trigger] s[i] == 0
            ||| s[i] == footer.data_len
            ||| blocks.blocks@.contains(s[i])
        } by {
            if i < a.len() {
                assert(s[i] == a[i]);
            }
        }
    }
}

/// The segments of a columnar file begin at its first byte; they meet where the index of each
/// table begins, and end at that of the last table.
pub proof fn law_segments_of_a_columnar_file(
    table_meta_off: u64,
    tables: Seq<ColumnarTableOffsets>,
    columns: Seq<Seq<u64>>,
    size: u64,
)
    requires
        columnar_fits(table_meta_off, tables),
        columns.len() == tables.len(),
    ensures
        ({
            let s = columnar_offsets(table_meta_off, tables, columns, size);
            &&& s.len() > 0
            &&& s[0] == 0
            &&& tables.len() > 0 ==> s.last() == table_meta_off + tables.last().index_start
            &&& forall|i: int|
                0 <= i < tables.len() ==> s.contains(
                    (table_meta_off + (#[trigger] tables[i]).index_start) as u64,
                )
        }),
    decreases tables.len(),
{
    if tables.len() > 0 {
        let init = tables.drop_last();
        let n = tables.len() - 1;
        assert(columnar_fits(table_meta_off, init)) by {
            assert forall|i: int| 0 <= i < init.len() implies ({
                let t = #[trigger] init[i];
                let end = table_meta_off + t.index_start;
                &&& end <= u64::MAX
                &&& t.handle_off < end
                &&& t.version_off < end
                &&& all_below(t.column_offs@, end)
            }) by {
                assert(init[i] == tables[i]);
            }
            assert forall|i: int, j: int| 0 <= i < j < init.len() implies (
            #[trigger] init[i]).index_start < (#[trigger] init[j]).index_start by {
                assert(init[i] == tables[i] && init[j] == tables[j]);
            }
        }
        law_segments_of_a_columnar_file(table_meta_off, init, columns.drop_last(), size);
        let before = columnar_offsets(table_meta_off, init, columns.drop_last(), size);
        let t = tables.last();
        assert(tables[n] == t);
        let more = seq![t.handle_off, t.version_off] + columns.last();
        let pushed = blocks_pushed(before, size, more);
        let s = columnar_offsets(table_meta_off, tables, columns, size);
        lemma_blocks_kept(before, size, more);
        assert(s[0] == pushed[0]);
        assert(pushed[0] == before[0]);
        assert forall|i: int| 0 <= i < tables.len() implies s.contains(
            (table_meta_off + (#[trigger] tables[i]).index_start) as u64,
        ) by {
            if i < n {
                assert(init[i] == tables[i]);
                let x = (table_meta_off + init[i].index_start) as u64;
                assert(before.contains(x));
                let k = choose|k: int| 0 <= k < before.len() && before[k] == x;
                assert(s[k] == x);
            } else {
                assert(s[pushed.len() as int] == (table_meta_off + t.index_start) as u64);
            }
        }
    }
}

/// A part of a file is read from the table meta, at its place there, or from one segment that
/// holds all of it; from the former if and only if it begins there.
pub proof fn law_part_is_read_where_it_is(f: Remote, off: u64, length: u64)
    requires
        f.wf(),
        off + length <= u64::MAX,
    ensures
        match f.source_of(off, length) {
            Ok(ReadFrom::TableMeta(at)) => f.table_meta_off + at == off && off + length <= f.size,
            Ok(ReadFrom::Segment(s)) => off < f.table_meta_off && s.file_id == f.id && s.start_off
                <= off && off + length <= s.end_off,
            Err(_) => off + length > f.size || off < f.table_meta_off,
        },
        off >= f.table_meta_off && off + length <= f.size ==> f.source_of(off, length) is Ok,
{
    if off < f.table_meta_off && f.source_of(off, length) is Ok {
        law_aligned_segment_holds_the_read(f.id, f.segment_offsets, off, (off + length) as u64);
    }
}

/// The segments of ranges are those of each of them.
pub proof fn law_segments_of_ranges(f: Remote, ranges: Seq<(u64, u64)>, s: FileSegmentIdent)
    ensures
        f.segments_of_all(ranges).contains(s) <==> exists|i: int|
            0 <= i < ranges.len() && f.segments_of((#[trigger] ranges[i]).0, ranges[i].1).contains(
                s,
            ),
    decreases ranges.len(),
{
    if ranges.len() > 0 {
        let init = ranges.drop_last();
        let n = ranges.len() - 1;
        let last = ranges.last();
        law_segments_of_ranges(f, init, s);
        lemma_joined(f.segments_of_all(init), f.segments_of(last.0, last.1), s);
        assert(ranges[n] == last);
        if f.segments_of_all(init).contains(s) {
            let i = choose|i: int|
                0 <= i < init.len() && f.segments_of(
                    (#[trigger] init[i]).0,
                    init[i].1,
                ).contains(s);
            assert(ranges[i] == init[i]);
        }
        if exists|i: int|
            0 <= i < ranges.len() && f.segments_of((#[trigger] ranges[i]).0, ranges[i].1).contains(
                s,
            ) {
            let i = choose|i: int|
                0 <= i < ranges.len() && f.segments_of(
                    (#[trigger] ranges[i]).0,
                    ranges[i].1,
                ).contains(s);
            if i < n {
                assert(init[i] == ranges[i]);
            }
        }
    }
}

/// Of segments, each is kept once: each that begins elsewhere than those before it. None begins
/// where another does, and none is lost.
pub proof fn law_segments_are_told_once(s: Seq<FileSegmentIdent>, off: u64)
    ensures
        begins_at(each_once(s), off) <==> begins_at(s, off),
        forall|i: int, j: int|
            0 <= i < j < each_once(s).len() ==> (#[trigger] each_once(s)[i]).start_off != (
            #[trigger] each_once(s)[j]).start_off,
        forall|i: int| 0 <= i < each_once(s).len() ==> s.contains(#[trigger] each_once(s)[i]),
    decreases s.len(),
{
    if s.len() > 0 {
        let init = s.drop_last();
        let n = s.len() - 1;
        law_segments_are_told_once(init, off);
        law_segments_are_told_once(init, s.last().start_off);
        let rest = each_once(init);
        let all = each_once(s);
        assert(s[n] == s.last());
        if begins_at(init, off) {
            let i = choose|i: int| 0 <= i < init.len() && (#[trigger] init[i]).start_off == off;
            assert(s[i].start_off == off);
        }
        if begins_at(s, off) {
            let i = choose|i: int| 0 <= i < s.len() && (#[trigger] s[i]).start_off == off;
            if i < n {
                assert(init[i].start_off == off);
            }
        }
        if begins_at(rest, off) {
            let i = choose|i: int| 0 <= i < rest.len() && (#[trigger] rest[i]).start_off == off;
            assert(all[i].start_off == off);
        }
        if begins_at(all, off) {
            let i = choose|i: int| 0 <= i < all.len() && (#[trigger] all[i]).start_off == off;
            if i < rest.len() {
                assert(rest[i].start_off == off);
            } else {
                assert(s[n].start_off == off);
            }
        }
        if !begins_at(rest, s.last().start_off) {
            assert(all[rest.len() as int] == s.last());
        } else if s.last().start_off == off {
            assert(begins_at(all, off));
        }
        assert forall|i: int, j: int| 0 <= i < j < all.len() implies (#[trigger] all[i]).start_off
            != (#[trigger] all[j]).start_off by {
            if j < rest.len() {
                assert(rest[i].start_off != rest[j].start_off);
            } else {
                assert(rest[i] == all[i]);
                assert(rest[i].start_off != s.last().start_off);
            }
        }
        assert forall|i: int| 0 <= i < all.len() implies s.contains(#[trigger] all[i]) by {
            if i < rest.len() {
                assert(init.contains(rest[i]));
                let k = choose|k: int| 0 <= k < init.len() && init[k] == rest[i];
                assert(s[k] == all[i]);
            } else {
                assert(all[i] == s[n]);
            }
        }
    }
}

/// A segment is in memory, in the main store or nowhere, as the cache holds it.
pub proof fn law_place_of_a_segment(
    m: Map<FileSegmentIdent, FileSegmentData>,
    ident: FileSegmentIdent,
)
    ensures
        position_of(lookup(m, ident)) is NotExist <==> !m.contains_key(ident),
        position_of(lookup(m, ident)) is InMem <==> m.contains_key(ident) && m[ident] is InMem,
        position_of(lookup(m, ident)) is InStore <==> m.contains_key(ident) && m[ident] is InStore,
{
}

/// The two queues share the memory, a tenth of it going to the first; or the first gets the
/// memory and the second the disk.
pub proof fn law_queues_share_the_capacity(
    c: IaCapacity,
    small: QueueOptions,
    main: QueueOptions,
)
    requires
        c.fits(),
        c.gives(small, main),
    ensures
        c matches IaCapacity::MemoryCap(cap) ==> small.cap + main.cap == cap && small.cap * 10 <= cap
            && cap < (small.cap + 1) * 10 && small.paths@.len() == 0 && main.paths@.len() == 0,
        c matches IaCapacity::MemoryAndDiskCap { mem_cap, local_dirs, disk_cap } ==> small.cap
            == mem_cap && main.cap == disk_cap && main.paths == local_dirs && small.paths@.len()
            == 0,
        c matches IaCapacity::Manual { small_queue, main_queue } ==> small == small_queue && main
            == main_queue,
{
}

/// Writes are slowed down only where that is enabled: not below the soft limit, and to the
/// lowest speed from the hard limit on.
pub proof fn law_usage_sets_the_speed(o: LimiterOptions, before: Throttle, usage: u64)
    requires
        o.wf(),
    ensures
        !o.enable ==> o.after_usage(before, usage) == before,
        o.enable && usage < o.soft_limit ==> o.after_usage(before, usage) is Unlimited,
        o.enable && usage >= o.hard_limit && usage >= o.soft_limit ==> o.after_usage(before, usage)
            == Throttle::Speed(o.min_speed_limit),
        o.enable && o.soft_limit <= usage < o.hard_limit ==> {
            &&& o.after_usage(before, usage).allows(o.min_speed_limit as int)
            &&& !(o.after_usage(before, usage) is Unlimited)
        },
{
    if o.enable && o.soft_limit <= usage < o.hard_limit {
        let t = o.after_usage(before, usage);
        let range = (o.max_speed_limit - o.min_speed_limit) as u64;
        let num = (o.hard_limit - usage) as u64;
        let den = (o.hard_limit - o.soft_limit) as u64;
        assert((o.min_speed_limit - o.min_speed_limit) * den == 0) by (nonlinear_arith);
        assert(range * num >= 0) by (nonlinear_arith);
        assert(t == Throttle::Part {
            base: o.min_speed_limit,
            range,
            numerator: num,
            denominator: den,
        });
    }
}

/// Files are looked at up to the first that does not follow a storage class.
pub proof fn law_files_are_looked_at_in_turn(files: Seq<Option<IaAutoFile>>)
    ensures
        auto_files(files) <= files.len(),
        forall|i: int| 0 <= i < auto_files(files) ==> (#[trigger] files[i]) is Some,
        auto_files(files) < files.len() ==> files[auto_files(files) as int] is None,
    decreases files.len(),
{
    if files.len() > 0 && files[0] is Some {
        let rest = files.drop_first();
        law_files_are_looked_at_in_turn(rest);
        assert forall|i: int| 0 <= i < auto_files(files) implies (#[trigger] files[i]) is Some by {
            if i > 0 {
                assert(rest[i - 1] is Some);
            }
        }
    }
}

/// The file is local, and its data is old enough to be remote.
pub open spec fn turns_remote(f: IaAutoFile, age_ms: u64) -> bool {
    f.has_local_file && (f.spec.must_be_ia || (f.spec.ia_after_ms is Some && age_ms
        >= f.spec.ia_after_ms->0))
}

/// A file becomes remote if and only if it is local and old enough; one that is remote stays
/// so. As many are counted as become remote.
pub proof fn law_old_files_become_remote(
    files: Seq<Option<IaAutoFile>>,
    ages: Seq<u64>,
    f: IaAutoFile,
    age: u64,
)
    requires
        files.len() == ages.len(),
    ensures
        transited(f, age).has_local_file == (f.has_local_file && !turns_remote(f, age)),
        transited(f, age).spec == f.spec,
        transitions(files, ages) == total(
            places(files.len()),
            |i: int|
                if turns_remote(files[i]->0, ages[i]) {
                    1int
                } else {
                    0
                },
        ),
    decreases files.len(),
{
    let count = |i: int|
        if turns_remote(files[i]->0, ages[i]) {
            1int
        } else {
            0
        };
    if files.len() > 0 {
        let init = files.drop_last();
        let old = ages.drop_last();
        let n = files.len() - 1;
        law_old_files_become_remote(init, old, f, age);
        lemma_total_last(places(files.len()), count);
        assert(places(files.len()).drop_last() =~= places(init.len()));
        let less = |i: int|
            if turns_remote(init[i]->0, old[i]) {
                1int
            } else {
                0
            };
        lemma_total_same(places(init.len()), less, count);
    }
}

/// A segment that was found in the main store comes into the main queue: the small queue stays
/// as it is, and so does everything else where the main queue has room.
pub proof fn law_found_segment_comes_into_the_main_queue(
    f: Fifo,
    ident: FileSegmentIdent,
    now: u64,
    limits: S3Fifo,
)
    requires
        !queued(f.small, ident),
        !queued(f.store.main, ident),
    ensures
        ({
            let res = taken_over(f, ident, now, limits);
            &&& res.small == f.small
            &&& res.ghosts == f.ghosts
            &&& bytes_of(f.store.main) + ident.len() <= limits.main_cap() ==> {
                &&& res.store.main == f.store.main.push((ident, unused()))
                &&& res.store.segments == f.store.segments.insert(ident, FileSegmentData::InStore)
                &&& res.store.actions == f.store.actions
            }
        }),
{
    let main = f.store.main.push((ident, unused()));
    assert(main.drop_last() =~= f.store.main);
    assert(bytes_of(main) == bytes_of(f.store.main) + ident.len());
    assert(f.store.actions + Seq::<StoreAction>::empty() =~= f.store.actions);
    assert(Seq::<StoreAction>::empty() + Seq::<StoreAction>::empty()
        =~= Seq::<StoreAction>::empty());
}

/// The segments that are found in the main store are taken over one behind the other.
pub proof fn law_found_segments_are_taken_over(
    f: Fifo,
    found: Seq<FileSegmentIdent>,
    now: u64,
    limits: S3Fifo,
)
    requires
        found.len() > 0,
    ensures
        initialized(f, Seq::empty(), now, limits) == f,
        initialized(f, found, now, limits) == taken_over(
            initialized(f, found.drop_last(), now, limits),
            found.last(),
            now,
            limits,
        ),
{
}

/// A segment is too large if and only if the small queue, where there is one, could not hold it
/// alone.
pub proof fn law_segment_that_the_small_queue_cannot_hold(fifo: S3Fifo, ident: FileSegmentIdent)
    requires
        fifo.small_cap() > 0,
    ensures
        fifo.too_large(ident) <==> bytes_of(seq![(ident, unused())]) > fifo.small_cap(),
{
    let alone = seq![(ident, unused())];
    assert(alone.drop_last() =~= Seq::empty());
    assert(bytes_of(alone.drop_last()) == 0);
}

} // verus!
