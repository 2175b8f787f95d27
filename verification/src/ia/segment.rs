//! Segments: the parts in which a remote file is read and cached.
use vstd::prelude::*;

use crate::file_meta::FileType;

verus! {

/// Why a remote file cannot be used.
#[derive(Clone, Copy, Debug, PartialEq, Eq, Structural)]
pub enum IaError {
    /// A read is not inside the file.
    ReadOutOfRange {
        /// The file.
        file_id: u64,
        /// First byte.
        start_off: u64,
        /// End of the read.
        end_off: u64,
    },
    /// A read reaches into a second segment.
    ReadMoreThanOneSegment {
        /// The file.
        file_id: u64,
        /// First byte.
        start_off: u64,
        /// End of the read.
        end_off: u64,
    },
    /// A read of the table meta is not inside it.
    ReadTableMetaOutOfRange(u64),
    /// A read is not inside the segment.
    InvalidRange(FileSegmentIdent),
    /// There is no remote form of such files.
    FileTypeNotSupported(FileType),
    /// The footer is not that of the expected kind of file.
    FooterNotMatch(u64),
    /// The segment does not fit the queue.
    TooLargeItem(FileSegmentIdent),
    /// The manifest ends early.
    ManifestTooSmall,
    /// The manifest is of another version.
    ManifestVersionNotMatch(u8),
    /// Blocking reads are not allowed.
    SyncReadDisabled,
    /// There are too many blocking reads.
    SyncReadLimitExceeded,
}

/// A segment of a file.
#[derive(Clone, Copy, Debug, PartialEq, Eq, Structural)]
pub struct FileSegmentIdent {
    /// The file.
    pub file_id: u64,
    /// First byte.
    pub start_off: u64,
    /// Where the segment ends.
    pub end_off: u64,
}

impl FileSegmentIdent {
    /// The segment ends behind its first byte or there.
    pub open spec fn wf(self) -> bool {
        self.start_off <= self.end_off
    }

    /// Number of bytes.
    pub open spec fn len(self) -> int {
        self.end_off - self.start_off
    }

    /// The segment between two offsets.
    pub fn new(file_id: u64, start_off: u64, end_off: u64) -> (res: Self)
        ensures
            res == (FileSegmentIdent { file_id, start_off, end_off }),
    {
        FileSegmentIdent { file_id, start_off, end_off }
    }

    /// Number of bytes.
    pub fn size(&self) -> (res: u64)
        requires
            self.wf(),
        ensures
            res == self.len(),
    {
        self.end_off - self.start_off
    }
}

/// The offsets do not decrease.
pub open spec fn sorted_offsets(s: Seq<u64>) -> bool {
    forall|i: int, j: int| 0 <= i <= j < s.len() ==> s[i] <= s[j]
}

/// The offset is in the segment that begins at the given place.
pub open spec fn in_segment(offsets: Seq<u64>, k: int, off: u64) -> bool {
    0 <= k < offsets.len() - 1 && offsets[k] <= off < offsets[k + 1]
}

/// The segment that the offset is in.
pub open spec fn segment_of(offsets: Seq<u64>, off: u64) -> int {
    choose|k: int| in_segment(offsets, k, off)
}

/// An offset is in one segment only.
pub proof fn lemma_segment_of(offsets: Seq<u64>, k: int, off: u64)
    requires
        sorted_offsets(offsets),
        in_segment(offsets, k, off),
    ensures
        segment_of(offsets, off) == k,
{
    let c = segment_of(offsets, off);
    assert(in_segment(offsets, c, off));
    if c < k {
        assert(offsets[c + 1] <= offsets[k]);
    } else if k < c {
        assert(offsets[k + 1] <= offsets[c]);
    }
}

/// The segment between two neighbouring offsets.
pub open spec fn nth_segment(file_id: u64, offsets: Seq<u64>, k: int) -> FileSegmentIdent {
    FileSegmentIdent { file_id, start_off: offsets[k], end_off: offsets[k + 1] }
}

/// The segment that holds the whole read, or why there is none.
pub open spec fn aligned(file_id: u64, offsets: Seq<u64>, start_off: u64, end_off: u64) -> Result<
    FileSegmentIdent,
    IaError,
> {
    let k = segment_of(offsets, start_off);
    if end_off <= start_off || start_off < offsets[0] || offsets.last() < end_off {
        Err(IaError::ReadOutOfRange { file_id, start_off, end_off })
    } else if offsets[k + 1] < end_off {
        Err(IaError::ReadMoreThanOneSegment { file_id, start_off, end_off })
    } else {
        Ok(nth_segment(file_id, offsets, k))
    }
}

/// The first position behind which all offsets are above `off`.
fn search_above(offsets: &[u64], off: u64) -> (res: usize)
    requires
        sorted_offsets(offsets@),
    ensures
        res <= offsets@.len(),
        forall|i: int| 0 <= i < res ==> offsets@[i] <= off,
        forall|i: int| res <= i < offsets@.len() ==> off < offsets@[i],
{
    let mut low: usize = 0;
    let mut high: usize = offsets.len();
    while low < high
        invariant
            low <= high <= offsets@.len(),
            sorted_offsets(offsets@),
            forall|i: int| 0 <= i < low ==> offsets@[i] <= off,
            forall|i: int| high <= i < offsets@.len() ==> off < offsets@[i],
        decreases high - low,
    {
        let mid = low + (high - low) / 2;
        if off < offsets[mid] {
            high = mid;
        } else {
            low = mid + 1;
        }
    }
    low
}

/// The segment that holds the whole read.
pub fn align_to_segment(
    file_id: u64,
    segment_offsets: &[u64],
    start_off: u64,
    end_off: u64,
) -> (res: Result<FileSegmentIdent, IaError>)
    requires
        segment_offsets@.len() > 0,
        sorted_offsets(segment_offsets@),
    ensures
        res == aligned(file_id, segment_offsets@, start_off, end_off),
{
    let segment_len = segment_offsets.len();
    if end_off <= start_off || start_off < segment_offsets[0] || segment_offsets[segment_len - 1]
        < end_off {
        return Err(IaError::ReadOutOfRange { file_id, start_off, end_off });
    }
    let above = search_above(segment_offsets, start_off);
    assert(segment_offsets@[0] <= start_off);
    assert(start_off < segment_offsets@[segment_len - 1]);
    let pos = above - 1;
    proof {
        lemma_segment_of(segment_offsets@, pos as int, start_off);
    }
    if segment_offsets[pos + 1] < end_off {
        return Err(IaError::ReadMoreThanOneSegment { file_id, start_off, end_off });
    }
    Ok(
        FileSegmentIdent {
            file_id,
            start_off: segment_offsets[pos],
            end_off: segment_offsets[pos + 1],
        },
    )
}

/// A segment that is found holds the whole read.
pub proof fn law_aligned_segment_holds_the_read(
    file_id: u64,
    offsets: Seq<u64>,
    start_off: u64,
    end_off: u64,
)
    requires
        offsets.len() > 0,
        sorted_offsets(offsets),
        aligned(file_id, offsets, start_off, end_off) is Ok,
    ensures
        ({
            let ident = aligned(file_id, offsets, start_off, end_off)->Ok_0;
            &&& ident.file_id == file_id
            &&& ident.start_off <= start_off
            &&& end_off <= ident.end_off
        }),
{
    lemma_some_segment(offsets, start_off);
}

/// An offset inside the file is in some segment.
pub proof fn lemma_some_segment(offsets: Seq<u64>, off: u64)
    requires
        offsets.len() > 0,
        sorted_offsets(offsets),
        offsets[0] <= off < offsets.last(),
    ensures
        in_segment(offsets, segment_of(offsets, off), off),
    decreases offsets.len(),
{
    if off >= offsets[offsets.len() - 2] {
        assert(in_segment(offsets, offsets.len() - 2, off));
    } else {
        let init = offsets.drop_last();
        lemma_some_segment(init, off);
        assert(in_segment(offsets, segment_of(init, off), off));
    }
}

/// Each single byte of the file is in a segment.
pub proof fn law_every_byte_has_a_segment(file_id: u64, offsets: Seq<u64>, off: u64)
    requires
        offsets.len() > 0,
        sorted_offsets(offsets),
        offsets[0] <= off < offsets.last(),
    ensures
        aligned(file_id, offsets, off, (off + 1) as u64) is Ok,
{
    lemma_some_segment(offsets, off);
}

/// Two segments of a file are the same or have no byte in common.
pub proof fn law_segments_are_disjoint(file_id: u64, offsets: Seq<u64>, i: int, j: int, off: u64)
    requires
        sorted_offsets(offsets),
        in_segment(offsets, i, off),
        in_segment(offsets, j, off),
    ensures
        i == j,
{
    lemma_segment_of(offsets, i, off);
    lemma_segment_of(offsets, j, off);
}

/// The offsets with another, if the segment that it ends is large enough.
pub open spec fn block_pushed(offsets: Seq<u64>, segment_size: u64, off: u64) -> Seq<u64> {
    if off >= offsets.last() + segment_size {
        offsets.push(off)
    } else {
        offsets
    }
}

/// The offsets with others, in order.
pub open spec fn blocks_pushed(offsets: Seq<u64>, segment_size: u64, blocks: Seq<u64>) -> Seq<u64>
    decreases blocks.len(),
{
    if blocks.len() == 0 {
        offsets
    } else {
        block_pushed(
            blocks_pushed(offsets, segment_size, blocks.drop_last()),
            segment_size,
            blocks.last(),
        )
    }
}

/// The offsets are those of a file: they begin at zero and increase.
pub open spec fn file_offsets(s: Seq<u64>) -> bool {
    &&& s.len() > 0
    &&& s[0] == 0
    &&& forall|i: int, j: int| 0 <= i < j < s.len() ==> s[i] < s[j]
}

/// Finds where the segments of a file meet.
pub struct SegmentOffsetsBuilder {
    segment_size: u64,
    offsets: Vec<u64>,
    last_off: u64,
}

impl SegmentOffsetsBuilder {
    /// The segments are at least this large, but for those that a boundary ends.
    pub closed spec fn min_size(self) -> u64 {
        self.segment_size
    }

    /// Where segments meet so far.
    pub closed spec fn found(self) -> Seq<u64> {
        self.offsets@
    }

    /// The last offset is at hand.
    pub closed spec fn wf(self) -> bool {
        &&& self.segment_size > 0
        &&& file_offsets(self.offsets@)
        &&& self.last_off == self.offsets@.last()
    }

    /// No segment yet.
    pub fn new(segment_size: u64) -> (res: Self)
        requires
            segment_size > 0,
        ensures
            res.wf(),
            res.min_size() == segment_size,
            res.found() == seq![0u64],
    {
        let mut offsets: Vec<u64> = Vec::new();
        offsets.push(0);
        assert(offsets@ =~= seq![0u64]);
        SegmentOffsetsBuilder { segment_size, offsets, last_off: 0 }
    }

    /// A block begins at the offset; a segment ends there if it is large enough.
    pub fn push_block_off(&mut self, off: u64)
        requires
            old(self).wf(),
        ensures
            final(self).wf(),
            final(self).min_size() == old(self).min_size(),
            final(self).found() == block_pushed(old(self).found(), old(self).min_size(), off),
    {
        if off >= self.last_off && off - self.last_off >= self.segment_size {
            self.push_boundary(off);
        }
    }

    /// A segment ends at the offset.
    pub fn push_boundary(&mut self, off: u64)
        requires
            old(self).wf(),
            off > old(self).found().last(),
        ensures
            final(self).wf(),
            final(self).min_size() == old(self).min_size(),
            final(self).found() == old(self).found().push(off),
    {
        self.offsets.push(off);
        self.last_off = off;
    }

    /// The blocks of a table begin at the offsets.
    pub fn push_from_sstable_idx(&mut self, block_offs: &Vec<u64>)
        requires
            old(self).wf(),
        ensures
            final(self).wf(),
            final(self).min_size() == old(self).min_size(),
            final(self).found() == blocks_pushed(
                old(self).found(),
                old(self).min_size(),
                block_offs@,
            ),
    {
        let ghost before = self.found();
        let mut i: usize = 0;
        assert(block_offs@.take(0) =~= Seq::empty());
        while i < block_offs.len()
            invariant
                i <= block_offs@.len(),
                self.wf(),
                self.min_size() == old(self).min_size(),
                self.found() == blocks_pushed(
                    before,
                    old(self).min_size(),
                    block_offs@.take(i as int),
                ),
            decreases block_offs@.len() - i,
        {
            assert(block_offs@.take(i + 1).drop_last() =~= block_offs@.take(i as int));
            self.push_block_off(block_offs[i]);
            i = i + 1;
        }
        assert(block_offs@.take(i as int) =~= block_offs@);
    }

    /// The columns of a table begin at the offsets: that of the handles, that of
    /// the versions, and the others, which are in no particular order.
    pub fn push_from_columnar_table_meta(
        &mut self,
        handle_off: u64,
        version_off: u64,
        column_offs: &Vec<u64>,
    )
        requires
            old(self).wf(),
        ensures
            final(self).wf(),
            final(self).min_size() == old(self).min_size(),
            exists|sorted: Seq<u64>|
                {
                    &&& #[trigger] crate::lists::sorted_u64(sorted)
                    &&& sorted.to_multiset() == column_offs@.to_multiset()
                    &&& final(self).found() == blocks_pushed(
                        old(self).found(),
                        old(self).min_size(),
                        seq![handle_off, version_off] + sorted,
                    )
                },
    {
        let ghost before = self.found();
        let ghost size = self.min_size();
        let sorted = crate::lists::sort_u64s(column_offs);
        self.push_block_off(handle_off);
        self.push_block_off(version_off);
        let ghost two = self.found();
        self.push_from_sstable_idx(&sorted);
        proof {
            reveal_with_fuel(blocks_pushed, 3);
            let head = seq![handle_off, version_off];
            assert(head.drop_last() =~= seq![handle_off]);
            assert(head.drop_last().drop_last() =~= Seq::empty());
            assert(two == blocks_pushed(before, size, head));
            lemma_blocks_pushed(before, size, head, sorted@);
        }
    }

    /// Where the segments meet.
    pub fn finish(self) -> (res: Vec<u64>)
        requires
            self.wf(),
        ensures
            res@ == self.found(),
            file_offsets(res@),
            sorted_offsets(res@),
    {
        self.offsets
    }
}

/// Blocks can be pushed in two goes.
pub proof fn lemma_blocks_pushed(offsets: Seq<u64>, size: u64, a: Seq<u64>, b: Seq<u64>)
    ensures
        blocks_pushed(blocks_pushed(offsets, size, a), size, b) == blocks_pushed(
            offsets,
            size,
            a + b,
        ),
    decreases b.len(),
{
    if b.len() == 0 {
        assert(a + b =~= a);
    } else {
        lemma_blocks_pushed(offsets, size, a, b.drop_last());
        assert((a + b).drop_last() =~= a + b.drop_last());
    }
}

/// Each segment that blocks end is as large as asked for, and ends where a block
/// begins.
pub proof fn law_segments_are_large_enough(offsets: Seq<u64>, size: u64, blocks: Seq<u64>, k: int)
    requires
        offsets.len() > 0,
        offsets.len() <= k < blocks_pushed(offsets, size, blocks).len(),
    ensures
        blocks_pushed(offsets, size, blocks)[k] - blocks_pushed(offsets, size, blocks)[k - 1]
            >= size,
        blocks.contains(blocks_pushed(offsets, size, blocks)[k]),
    decreases blocks.len(),
{
    lemma_blocks_kept(offsets, size, blocks.drop_last());
    if blocks.len() > 0 {
        let before = blocks_pushed(offsets, size, blocks.drop_last());
        if k < before.len() {
            law_segments_are_large_enough(offsets, size, blocks.drop_last(), k);
            let x = before[k];
            let j = choose|j: int| 0 <= j < blocks.len() - 1 && blocks.drop_last()[j] == x;
            assert(blocks[j] == x);
        } else {
            assert(blocks[blocks.len() - 1] == blocks.last());
        }
    }
}

/// Pushing blocks keeps the offsets that are there.
pub proof fn lemma_blocks_kept(offsets: Seq<u64>, size: u64, blocks: Seq<u64>)
    requires
        offsets.len() > 0,
    ensures
        blocks_pushed(offsets, size, blocks).len() >= offsets.len(),
        blocks_pushed(offsets, size, blocks).take(offsets.len() as int) == offsets,
    decreases blocks.len(),
{
    if blocks.len() == 0 {
        assert(offsets.take(offsets.len() as int) =~= offsets);
    } else {
        lemma_blocks_kept(offsets, size, blocks.drop_last());
        let before = blocks_pushed(offsets, size, blocks.drop_last());
        assert(blocks_pushed(offsets, size, blocks).take(offsets.len() as int) =~= before.take(
            offsets.len() as int,
        ));
    }
}

} // verus!
