//! Remote files: where their segments and their table meta are.
use vstd::prelude::*;

use crate::file_meta::{FileMeta, FileType};
use crate::ia::cache::{FileSegmentPosition, SegmentMap};
use crate::ia::segment::{
    align_to_segment, aligned, blocks_pushed, in_segment, lemma_some_segment, nth_segment,
    segment_of, sorted_offsets, FileSegmentIdent, IaError, SegmentOffsetsBuilder,
};
use crate::lists::{contains_u64, sorted_u64};
use crate::pb::StorageClass;

verus! {

/// A file of which only the table meta is local.
#[derive(Debug)]
pub struct IaFile {
    /// The file.
    pub id: u64,
    /// Number of bytes of the whole file.
    pub size: u64,
    /// Kind.
    pub ftype: FileType,
    /// Where the table meta begins.
    pub table_meta_off: u64,
    /// Where segments meet.
    pub segment_offsets: Vec<u64>,
    /// Number of bytes of the table meta that is local.
    pub meta_size: u64,
}

/// What an `IaFile` says.
#[verifier::ext_equal]
pub struct Remote {
    /// The file.
    pub id: u64,
    /// Number of bytes of the whole file.
    pub size: u64,
    /// Kind.
    pub ftype: FileType,
    /// Where the table meta begins.
    pub table_meta_off: u64,
    /// Where segments meet.
    pub segment_offsets: Seq<u64>,
    /// Number of bytes of the table meta that is local.
    pub meta_size: u64,
}

impl View for IaFile {
    type V = Remote;

    open spec fn view(&self) -> Remote {
        Remote {
            id: self.id,
            size: self.size,
            ftype: self.ftype,
            table_meta_off: self.table_meta_off,
            segment_offsets: self.segment_offsets@,
            meta_size: self.meta_size,
        }
    }
}

/// What the footer of a table says.
#[derive(Clone, Copy, Debug, PartialEq, Eq, Structural)]
pub struct SstFooter {
    /// It is the footer of a table.
    pub is_match: bool,
    /// Where the table meta begins.
    pub meta_offset: u64,
    /// Number of bytes of the newest versions.
    pub data_len: u64,
    /// Number of bytes of the older versions, behind the newest.
    pub old_data_len: u64,
}

/// Where the blocks of a table begin.
#[derive(Debug)]
pub struct SstBlocks {
    /// Those of the newest versions.
    pub blocks: Vec<u64>,
    /// Those of the older versions.
    pub old_blocks: Vec<u64>,
}

/// All offsets are below the end.
pub open spec fn all_below(s: Seq<u64>, end: int) -> bool {
    forall|i: int| 0 <= i < s.len() ==> (#[trigger] s[i]) < end
}

/// The blocks are inside the data that the footer describes.
pub open spec fn blocks_fit(footer: SstFooter, blocks: SstBlocks) -> bool {
    &&& 0 < footer.data_len
    &&& footer.data_len + footer.old_data_len <= u64::MAX
    &&& all_below(blocks.blocks@, footer.data_len as int)
    &&& footer.old_data_len > 0 ==> all_below(
        blocks.old_blocks@,
        footer.data_len + footer.old_data_len,
    )
}

/// Where the segments of a table meet.
pub open spec fn sst_offsets(footer: SstFooter, blocks: SstBlocks, segment_size: u64) -> Seq<u64> {
    let newest = blocks_pushed(seq![0u64], segment_size, blocks.blocks@).push(footer.data_len);
    if footer.old_data_len > 0 {
        blocks_pushed(newest, segment_size, blocks.old_blocks@).push(
            (footer.data_len + footer.old_data_len) as u64,
        )
    } else {
        newest
    }
}

/// Blocks below an end leave the last offset below it.
proof fn lemma_last_below(offsets: Seq<u64>, size: u64, blocks: Seq<u64>, end: int)
    requires
        offsets.len() > 0,
        offsets.last() < end,
        all_below(blocks, end),
    ensures
        blocks_pushed(offsets, size, blocks).len() > 0,
        blocks_pushed(offsets, size, blocks).last() < end,
    decreases blocks.len(),
{
    if blocks.len() > 0 {
        assert(all_below(blocks.drop_last(), end)) by {
            assert forall|i: int| 0 <= i < blocks.drop_last().len() implies (
            #[trigger] blocks.drop_last()[i]) < end by {
                assert(blocks[i] < end);
            }
        }
        lemma_last_below(offsets, size, blocks.drop_last(), end);
        assert(blocks[blocks.len() - 1] < end);
    }
}

/// Where the columns of a table of a columnar file begin.
#[derive(Debug)]
pub struct ColumnarTableOffsets {
    /// The handles.
    pub handle_off: u64,
    /// The versions.
    pub version_off: u64,
    /// The other columns, in no particular order.
    pub column_offs: Vec<u64>,
    /// Where the index of the table begins, counted from the table meta.
    pub index_start: u64,
}

/// The columns begin before the index, which is behind that of the table before.
pub open spec fn columnar_fits(table_meta_off: u64, tables: Seq<ColumnarTableOffsets>) -> bool {
    &&& table_meta_off > 0
    &&& forall|i: int|
        0 <= i < tables.len() ==> {
            let t = #[trigger] tables[i];
            let end = table_meta_off + t.index_start;
            &&& end <= u64::MAX
            &&& t.handle_off < end
            &&& t.version_off < end
            &&& all_below(t.column_offs@, end)
        }
    &&& forall|i: int, j: int|
        0 <= i < j < tables.len() ==> (#[trigger] tables[i]).index_start < (
        #[trigger] tables[j]).index_start
}

/// The list has the same offsets, in order.
pub open spec fn in_order(sorted: Seq<u64>, offs: Seq<u64>) -> bool {
    sorted_u64(sorted) && sorted.to_multiset() == offs.to_multiset()
}

/// The columns of each table, in order.
pub open spec fn columns_in_order(
    columns: Seq<Seq<u64>>,
    tables: Seq<ColumnarTableOffsets>,
) -> bool {
    &&& columns.len() == tables.len()
    &&& forall|i: int|
        0 <= i < tables.len() ==> in_order(#[trigger] columns[i], tables[i].column_offs@)
}

/// Where the segments of a columnar file meet, `columns` being the columns of each
/// table in order.
pub open spec fn columnar_offsets(
    table_meta_off: u64,
    tables: Seq<ColumnarTableOffsets>,
    columns: Seq<Seq<u64>>,
    segment_size: u64,
) -> Seq<u64>
    decreases tables.len(),
{
    if tables.len() == 0 {
        seq![0u64]
    } else {
        let t = tables.last();
        blocks_pushed(
            columnar_offsets(
                table_meta_off,
                tables.drop_last(),
                columns.drop_last(),
                segment_size,
            ),
            segment_size,
            seq![t.handle_off, t.version_off] + columns.last(),
        ).push((table_meta_off + t.index_start) as u64)
    }
}

impl Remote {
    /// There is an offset, and they do not decrease.
    pub open spec fn wf(self) -> bool {
        &&& self.segment_offsets.len() > 0
        &&& sorted_offsets(self.segment_offsets)
    }

    /// A range that is not empty and not inside the segments.
    pub open spec fn outside(self, r: (u64, u64)) -> bool {
        r.0 < r.1 && (r.0 < self.segment_offsets[0] || self.segment_offsets.last() < r.1)
    }

    /// The segments of a range, in order.
    pub open spec fn segments_of(self, start: u64, end: u64) -> Seq<FileSegmentIdent>
        decreases (if end > start {
            end - start
        } else {
            0
        }),
    {
        let k = segment_of(self.segment_offsets, start);
        if start >= end || !in_segment(self.segment_offsets, k, start) {
            Seq::empty()
        } else {
            seq![nth_segment(self.id, self.segment_offsets, k)] + self.segments_of(
                self.segment_offsets[k + 1],
                end,
            )
        }
    }

    /// The segments of the ranges, in order.
    pub open spec fn segments_of_all(self, ranges: Seq<(u64, u64)>) -> Seq<FileSegmentIdent>
        decreases ranges.len(),
    {
        if ranges.len() == 0 {
            Seq::empty()
        } else {
            self.segments_of_all(ranges.drop_last()) + self.segments_of(
                ranges.last().0,
                ranges.last().1,
            )
        }
    }
}

/// The list contains a segment that begins at the offset.
pub open spec fn begins_at(s: Seq<FileSegmentIdent>, off: u64) -> bool {
    exists|i: int| 0 <= i < s.len() && (#[trigger] s[i]).start_off == off
}

/// The segments, each once: where it comes first.
pub open spec fn each_once(s: Seq<FileSegmentIdent>) -> Seq<FileSegmentIdent>
    decreases s.len(),
{
    if s.len() == 0 {
        Seq::empty()
    } else {
        let rest = each_once(s.drop_last());
        if begins_at(rest, s.last().start_off) {
            rest
        } else {
            rest.push(s.last())
        }
    }
}

impl IaFile {
    /// A table. The footer is checked where it was read from the file; where the
    /// offsets at which segments meet are known and there are two or more, they
    /// are not looked for.
    pub fn open_for_sst(
        id: u64,
        meta_size: u64,
        footer: SstFooter,
        footer_is_known: bool,
        known_offsets: Option<&Vec<u64>>,
        blocks: &SstBlocks,
        segment_size: u64,
    ) -> (res: Result<Self, IaError>)
        requires
            segment_size > 0,
            footer.meta_offset + meta_size <= u64::MAX,
            known_offsets matches Some(offs) ==> sorted_offsets(offs@),
            blocks_fit(footer, *blocks),
        ensures
            match res {
                Ok(f) => {
                    &&& footer_is_known || footer.is_match
                    &&& f@.wf()
                    &&& f@ == (Remote {
                        id,
                        size: (footer.meta_offset + meta_size) as u64,
                        ftype: FileType::Sst,
                        table_meta_off: footer.meta_offset,
                        segment_offsets: match known_offsets {
                            Some(offs) => if offs@.len() >= 2 {
                                offs@
                            } else {
                                sst_offsets(footer, *blocks, segment_size)
                            },
                            None => sst_offsets(footer, *blocks, segment_size),
                        },
                        meta_size,
                    })
                },
                Err(e) => {
                    &&& !footer_is_known && !footer.is_match
                    &&& e == IaError::FooterNotMatch(id)
                },
            },
    {
        if !footer_is_known && !footer.is_match {
            return Err(IaError::FooterNotMatch(id));
        }
        let segment_offsets = match known_offsets {
            Some(offs) => if offs.len() >= 2 {
                let known = offs.clone();
                assert(known@ =~= offs@);
                known
            } else {
                Self::generate_segment_offsets_for_sst(footer, blocks, segment_size)
            },
            None => Self::generate_segment_offsets_for_sst(footer, blocks, segment_size),
        };
        Ok(
            IaFile {
                id,
                size: footer.meta_offset + meta_size,
                ftype: FileType::Sst,
                table_meta_off: footer.meta_offset,
                segment_offsets,
                meta_size,
            },
        )
    }

    /// Where the segments of a table meet: at blocks, and at the end of the newest
    /// and of the older versions.
    fn generate_segment_offsets_for_sst(
        footer: SstFooter,
        blocks: &SstBlocks,
        segment_size: u64,
    ) -> (res: Vec<u64>)
        requires
            segment_size > 0,
            blocks_fit(footer, *blocks),
        ensures
            res@ == sst_offsets(footer, *blocks, segment_size),
            res@.len() > 0,
            sorted_offsets(res@),
    {
        let mut builder = SegmentOffsetsBuilder::new(segment_size);
        builder.push_from_sstable_idx(&blocks.blocks);
        proof {
            lemma_last_below(
                seq![0u64],
                segment_size,
                blocks.blocks@,
                footer.data_len as int,
            );
        }
        builder.push_boundary(footer.data_len);
        if footer.old_data_len > 0 {
            let ghost newest = builder.found();
            builder.push_from_sstable_idx(&blocks.old_blocks);
            proof {
                lemma_last_below(
                    newest,
                    segment_size,
                    blocks.old_blocks@,
                    footer.data_len + footer.old_data_len,
                );
            }
            builder.push_boundary(footer.data_len + footer.old_data_len);
        }
        builder.finish()
    }

    /// A columnar file.
    pub fn open_for_columnar(
        id: u64,
        meta_size: u64,
        table_meta_off: u64,
        tables: &Vec<ColumnarTableOffsets>,
        segment_size: u64,
    ) -> (res: Self)
        requires
            segment_size > 0,
            table_meta_off + meta_size <= u64::MAX,
            columnar_fits(table_meta_off, tables@),
        ensures
            res@.wf(),
            exists|columns: Seq<Seq<u64>>|
                {
                    &&& #[trigger] columns_in_order(columns, tables@)
                    &&& res@ == (Remote {
                        id,
                        size: (table_meta_off + meta_size) as u64,
                        ftype: FileType::Columnar,
                        table_meta_off,
                        segment_offsets: columnar_offsets(
                            table_meta_off,
                            tables@,
                            columns,
                            segment_size,
                        ),
                        meta_size,
                    })
                },
    {
        let mut builder = SegmentOffsetsBuilder::new(segment_size);
        let ghost mut columns: Seq<Seq<u64>> = Seq::empty();
        let mut i: usize = 0;
        assert(tables@.take(0) =~= Seq::empty());
        while i < tables.len()
            invariant
                i <= tables@.len(),
                segment_size > 0,
                columnar_fits(table_meta_off, tables@),
                builder.wf(),
                builder.min_size() == segment_size,
                columns_in_order(columns, tables@.take(i as int)),
                builder.found() == columnar_offsets(
                    table_meta_off,
                    tables@.take(i as int),
                    columns,
                    segment_size,
                ),
                builder.found().len() > 0,
                builder.found().last() == (if i == 0 {
                    0
                } else {
                    table_meta_off + tables@[i - 1].index_start
                }),
            decreases tables@.len() - i,
        {
            let t = &tables[i];
            let ghost before = builder.found();
            let ghost end = table_meta_off + t.index_start;
            assert(tables@[i as int] == *t);
            builder.push_from_columnar_table_meta(t.handle_off, t.version_off, &t.column_offs);
            proof {
                let more = tables@.take(i + 1);
                assert(more.drop_last() =~= tables@.take(i as int));
                let sorted = choose|sorted: Seq<u64>|
                    {
                        &&& #[trigger] sorted_u64(sorted)
                        &&& sorted.to_multiset() == t.column_offs@.to_multiset()
                        &&& builder.found() == blocks_pushed(
                            before,
                            segment_size,
                            seq![t.handle_off, t.version_off] + sorted,
                        )
                    };
                let longer = columns.push(sorted);
                assert(longer.drop_last() =~= columns);
                assert forall|j: int| 0 <= j < more.len() implies in_order(
                    #[trigger] longer[j],
                    more[j].column_offs@,
                ) by {
                    if j < i {
                        assert(in_order(columns[j], tables@.take(i as int)[j].column_offs@));
                    }
                }
                lemma_same_below(sorted, t.column_offs@, end);
                let all = seq![t.handle_off, t.version_off] + sorted;
                assert(all_below(all, end)) by {
                    assert forall|j: int| 0 <= j < all.len() implies (#[trigger] all[j]) < end by {
                        if j >= 2 {
                            assert(sorted[j - 2] < end);
                        }
                    }
                }
                if i > 0 {
                    assert(tables@[i - 1].index_start < tables@[i as int].index_start);
                }
                lemma_last_below(before, segment_size, all, end);
                columns = longer;
            }
            builder.push_boundary(table_meta_off + t.index_start);
            i = i + 1;
        }
        assert(tables@.take(i as int) =~= tables@);
        let res = IaFile {
            id,
            size: table_meta_off + meta_size,
            ftype: FileType::Columnar,
            table_meta_off,
            segment_offsets: builder.finish(),
            meta_size,
        };
        assert(columns_in_order(columns, tables@));
        res
    }

    /// A vector index file. Where `table_meta_off` is zero, the local part is the
    /// whole file. The second result says which part of the local one is the
    /// table meta, where it is not all of it: an offset and a length.
    pub fn open_for_vector(id: u64, table_meta_off: u64, local_size: u64, meta_size: u64) -> (res: (
        Self,
        Option<(u64, u64)>,
    ))
        requires
            table_meta_off == 0 ==> meta_size <= local_size,
            table_meta_off + meta_size <= u64::MAX,
        ensures
            ({
                let meta_offset = if table_meta_off == 0 {
                    (local_size - meta_size) as u64
                } else {
                    table_meta_off
                };
                &&& res.0@.wf()
                &&& res.0@ == (Remote {
                    id,
                    size: (meta_offset + meta_size) as u64,
                    ftype: FileType::VectorIndex,
                    table_meta_off: meta_offset,
                    segment_offsets: seq![meta_offset],
                    meta_size: if local_size > meta_size {
                        meta_size
                    } else {
                        local_size
                    },
                })
                &&& res.1 == if local_size > meta_size {
                    Some((meta_offset, meta_size))
                } else {
                    None
                }
            }),
    {
        let meta_offset = if table_meta_off == 0 {
            local_size - meta_size
        } else {
            table_meta_off
        };
        let size = if table_meta_off == 0 {
            local_size
        } else {
            table_meta_off + meta_size
        };
        let mut segment_offsets: Vec<u64> = Vec::new();
        segment_offsets.push(meta_offset);
        let truncated = if local_size > meta_size {
            Some((meta_offset, meta_size))
        } else {
            None
        };
        let res = IaFile {
            id,
            size,
            ftype: FileType::VectorIndex,
            table_meta_off: meta_offset,
            segment_offsets,
            meta_size: if local_size > meta_size {
                meta_size
            } else {
                local_size
            },
        };
        assert(res@.segment_offsets =~= seq![meta_offset]);
        (res, truncated)
    }

    /// A full text file, of one or of many tables, whose segments meet at the given
    /// offsets.
    pub fn open_for_fts(
        id: u64,
        ftype: FileType,
        meta_size: u64,
        table_meta_off: u64,
        boundaries: Vec<u64>,
    ) -> (res: Self)
        requires
            ftype is FtsPackedFile || ftype is FtsDedicatedFile,
            table_meta_off + meta_size <= u64::MAX,
        ensures
            res@ == (Remote {
                id,
                size: (table_meta_off + meta_size) as u64,
                ftype,
                table_meta_off,
                segment_offsets: boundaries@,
                meta_size,
            }),
    {
        IaFile {
            id,
            size: table_meta_off + meta_size,
            ftype,
            table_meta_off,
            segment_offsets: boundaries,
            meta_size,
        }
    }

    /// A blob table, whose blobs begin at the given offsets.
    pub fn open_for_blob(
        id: u64,
        meta_size: u64,
        footer_is_match: bool,
        table_meta_off: u64,
        blob_offs: &Vec<u64>,
        segment_size: u64,
    ) -> (res: Result<Self, IaError>)
        requires
            segment_size > 0,
            table_meta_off > 0,
            table_meta_off + meta_size <= u64::MAX,
            all_below(blob_offs@, table_meta_off as int),
        ensures
            match res {
                Ok(f) => {
                    &&& footer_is_match
                    &&& f@.wf()
                    &&& f@ == (Remote {
                        id,
                        size: (table_meta_off + meta_size) as u64,
                        ftype: FileType::Blob,
                        table_meta_off,
                        segment_offsets: blocks_pushed(
                            seq![0u64],
                            segment_size,
                            blob_offs@,
                        ).push(table_meta_off),
                        meta_size,
                    })
                },
                Err(e) => !footer_is_match && e == IaError::FooterNotMatch(id),
            },
    {
        if !footer_is_match {
            return Err(IaError::FooterNotMatch(id));
        }
        let mut builder = SegmentOffsetsBuilder::new(segment_size);
        builder.push_from_sstable_idx(blob_offs);
        proof {
            lemma_last_below(seq![0u64], segment_size, blob_offs@, table_meta_off as int);
        }
        builder.push_boundary(table_meta_off);
        Ok(
            IaFile {
                id,
                size: table_meta_off + meta_size,
                ftype: FileType::Blob,
                table_meta_off,
                segment_offsets: builder.finish(),
                meta_size,
            },
        )
    }

    /// Whether there is a remote form of such files.
    pub fn check_file_type(fm: &FileMeta) -> (res: Result<FileType, IaError>)
        ensures
            res == if fm.file_type is TxnChunk || fm.file_type is Schema {
                Err(IaError::FileTypeNotSupported(fm.file_type))
            } else {
                Ok(fm.file_type)
            },
    {
        match fm.file_type {
            FileType::Sst | FileType::Columnar | FileType::VectorIndex | FileType::FtsPackedFile
            | FileType::FtsDedicatedFile | FileType::Blob => Ok(fm.file_type),
            FileType::TxnChunk | FileType::Schema => Err(
                IaError::FileTypeNotSupported(fm.file_type),
            ),
        }
    }

    /// Where a part of the table meta is in the local part of the file.
    pub fn read_table_meta(&self, off: u64, length: u64) -> (res: Result<u64, IaError>)
        requires
            off + length <= u64::MAX,
        ensures
            res == if off < self@.table_meta_off || off + length > self@.size {
                Err(IaError::ReadTableMetaOutOfRange(self@.id))
            } else {
                Ok((off - self@.table_meta_off) as u64)
            },
    {
        if off < self.table_meta_off || off + length > self.size {
            return Err(IaError::ReadTableMetaOutOfRange(self.id));
        }
        Ok(off - self.table_meta_off)
    }

    /// Where a part of the file is: in the local part, or in a segment.
    pub fn read_from(&self, off: u64, length: u64) -> (res: Result<ReadFrom, IaError>)
        requires
            self@.wf(),
            off + length <= u64::MAX,
        ensures
            res == self@.source_of(off, length),
    {
        if off >= self.table_meta_off {
            return match self.read_table_meta(off, length) {
                Ok(at) => Ok(ReadFrom::TableMeta(at)),
                Err(e) => Err(e),
            };
        }
        match align_to_segment(self.id, &self.segment_offsets, off, off + length) {
            Ok(ident) => Ok(ReadFrom::Segment(ident)),
            Err(e) => Err(e),
        }
    }

    /// The segment that a byte is in.
    pub fn get_segment_ident(&self, offset: u64) -> (res: Result<FileSegmentIdent, IaError>)
        requires
            self@.wf(),
            offset < u64::MAX,
        ensures
            res == aligned(self@.id, self@.segment_offsets, offset, (offset + 1) as u64),
    {
        align_to_segment(self.id, &self.segment_offsets, offset, offset + 1)
    }

    /// The segment of a range that is to be mapped, and where in it the range
    /// begins.
    pub fn mmap_range(&self, offset: u64, length: u64) -> (res: Result<
        (FileSegmentIdent, u64),
        IaError,
    >)
        requires
            self@.wf(),
            offset + length <= u64::MAX,
        ensures
            match aligned(self@.id, self@.segment_offsets, offset, (offset + length) as u64) {
                Ok(ident) => {
                    &&& res == Ok::<_, IaError>((ident, (offset - ident.start_off) as u64))
                    &&& ident.start_off <= offset
                    &&& offset + length <= ident.end_off
                },
                Err(e) => res == Err::<(FileSegmentIdent, u64), IaError>(e),
            },
    {
        match align_to_segment(self.id, &self.segment_offsets, offset, offset + length) {
            Ok(ident) => {
                proof {
                    lemma_some_segment(self.segment_offsets@, offset);
                }
                Ok((ident, offset - ident.start_off))
            },
            Err(e) => Err(e),
        }
    }

    /// The segments that the ranges touch and that are not cached, each once, and
    /// how many they touch in all.
    pub fn get_remote_segments(&self, ranges: &Vec<(u64, u64)>, cached: &SegmentMap) -> (res: Result<
        (Vec<FileSegmentIdent>, usize),
        IaError,
    >)
        requires
            self@.wf(),
        ensures
            match res {
                Ok((segments, total)) => {
                    let touched = each_once(self@.segments_of_all(ranges@));
                    &&& forall|i: int| 0 <= i < ranges@.len() ==> !self@.outside(#[trigger] ranges@[i])
                    &&& segments@ == touched.filter(
                        |s: FileSegmentIdent| !cached@.contains_key(s),
                    )
                    &&& total == touched.len()
                },
                Err(e) => exists|i: int|
                    {
                        &&& 0 <= i < ranges@.len()
                        &&& self@.outside(#[trigger] ranges@[i])
                        &&& e == self@.outside_error(ranges@[i])
                        &&& forall|j: int| 0 <= j < i ==> !self@.outside(#[trigger] ranges@[j])
                    },
            },
    {
        let mut segments: Vec<FileSegmentIdent> = Vec::new();
        let mut seen: Vec<u64> = Vec::new();
        let ghost p = |s: FileSegmentIdent| !cached@.contains_key(s);
        let ghost offsets = self.segment_offsets@;
        let ghost mut visited: Seq<FileSegmentIdent> = Seq::empty();
        let mut i: usize = 0;
        proof {
            reveal(Seq::filter);
            assert(ranges@.take(0) =~= Seq::empty());
            assert(starts_of(each_once(visited)) =~= Seq::empty());
            assert(each_once(visited).filter(p) =~= Seq::empty());
        }
        while i < ranges.len()
            invariant
                i <= ranges@.len(),
                self@.wf(),
                offsets == self@.segment_offsets,
                p == (|s: FileSegmentIdent| !cached@.contains_key(s)),
                forall|j: int| 0 <= j < i ==> !self@.outside(#[trigger] ranges@[j]),
                visited == self@.segments_of_all(ranges@.take(i as int)),
                seen@ == starts_of(each_once(visited)),
                segments@ == each_once(visited).filter(p),
            decreases ranges@.len() - i,
        {
            let start_off = ranges[i].0;
            let end_off = ranges[i].1;
            let mut off = start_off;
            let ghost whole = visited + self@.segments_of(start_off, end_off);
            while off < end_off
                invariant
                    i < ranges@.len(),
                    ranges@[i as int] == (start_off, end_off),
                    self@.wf(),
                    offsets == self@.segment_offsets,
                    p == (|s: FileSegmentIdent| !cached@.contains_key(s)),
                    forall|j: int| 0 <= j < i ==> !self@.outside(#[trigger] ranges@[j]),
                    start_off <= off,
                    off == start_off || (offsets[0] <= start_off < off <= offsets.last()),
                    whole == visited + self@.segments_of(off, end_off),
                    seen@ == starts_of(each_once(visited)),
                    segments@ == each_once(visited).filter(p),
                decreases (if end_off > off {
                    end_off - off
                } else {
                    0
                }),
            {
                let ident = match align_to_segment(self.id, &self.segment_offsets, off, off + 1) {
                    Ok(ident) => ident,
                    Err(e) => {
                        proof {
                            if offsets[0] <= off < offsets.last() {
                                lemma_some_segment(offsets, off);
                            }
                            assert(self@.outside(ranges@[i as int]));
                        }
                        return Err(e);
                    },
                };
                let ghost before = visited;
                proof {
                    lemma_some_segment(offsets, off);
                    let k = segment_of(offsets, off);
                    assert(ident == nth_segment(self@.id, offsets, k));
                    visited = visited.push(ident);
                    assert(whole =~= visited + self@.segments_of(ident.end_off, end_off));
                    assert(visited.drop_last() =~= before);
                    assert(offsets[k + 1] <= offsets.last());
                }
                off = ident.end_off;
                let known = contains_u64(&seen, ident.start_off);
                proof {
                    lemma_starts(each_once(before), ident.start_off);
                }
                if !known {
                    let ghost rest = each_once(before);
                    proof {
                        reveal(Seq::filter);
                        assert(rest.push(ident).drop_last() =~= rest);
                    }
                    seen.push(ident.start_off);
                    if !cached.is_segment_cached(ident) {
                        segments.push(ident);
                    }
                    assert(seen@ =~= starts_of(rest.push(ident)));
                }
            }
            proof {
                assert(self@.segments_of(off, end_off) =~= Seq::empty());
                assert(whole =~= visited);
                assert(ranges@.take(i + 1).drop_last() =~= ranges@.take(i as int));
            }
            i = i + 1;
        }
        assert(ranges@.take(i as int) =~= ranges@);
        assert(seen@.len() == each_once(visited).len());
        Ok((segments, seen.len()))
    }

    /// Number of bytes that are kept in memory.
    pub fn mem_size(&self) -> (res: u64)
        requires
            self@.meta_size + self@.segment_offsets.len() * 8 + 25 <= u64::MAX,
        ensures
            res == self@.meta_size + self@.segment_offsets.len() * 8 + 8 * 3 + 1,
    {
        self.meta_size + self.segment_offsets.len() as u64 * 8 + 8 * 3 + 1
    }

    /// Where the file is kept.
    pub fn storage_class(&self) -> (res: StorageClass)
        ensures
            res == StorageClass::Ia,
    {
        StorageClass::Ia
    }
}

/// Where a part of a file is.
#[derive(Clone, Copy, Debug, PartialEq, Eq, Structural)]
pub enum ReadFrom {
    /// In the local part, at the offset.
    TableMeta(u64),
    /// In the segment.
    Segment(FileSegmentIdent),
}

impl Remote {
    /// Where a part of the file is.
    pub open spec fn source_of(self, off: u64, length: u64) -> Result<ReadFrom, IaError> {
        if off >= self.table_meta_off {
            if off + length > self.size {
                Err(IaError::ReadTableMetaOutOfRange(self.id))
            } else {
                Ok(ReadFrom::TableMeta((off - self.table_meta_off) as u64))
            }
        } else {
            match aligned(self.id, self.segment_offsets, off, (off + length) as u64) {
                Ok(ident) => Ok(ReadFrom::Segment(ident)),
                Err(e) => Err(e),
            }
        }
    }

    /// The error of a range that is not inside the segments: its first byte that is
    /// in none.
    pub open spec fn outside_error(self, r: (u64, u64)) -> IaError {
        let at = if r.0 < self.segment_offsets[0] || self.segment_offsets.last() <= r.0 {
            r.0
        } else {
            self.segment_offsets.last()
        };
        IaError::ReadOutOfRange { file_id: self.id, start_off: at, end_off: (at + 1) as u64 }
    }
}

/// Where the segments begin.
pub open spec fn starts_of(s: Seq<FileSegmentIdent>) -> Seq<u64> {
    Seq::new(s.len(), |i: int| s[i].start_off)
}

proof fn lemma_starts(s: Seq<FileSegmentIdent>, off: u64)
    ensures
        starts_of(s).contains(off) == begins_at(s, off),
{
    if starts_of(s).contains(off) {
        let i = choose|i: int| 0 <= i < s.len() && starts_of(s)[i] == off;
        assert(s[i].start_off == off);
    }
    if begins_at(s, off) {
        let i = choose|i: int| 0 <= i < s.len() && (#[trigger] s[i]).start_off == off;
        assert(starts_of(s)[i] == off);
    }
}

proof fn lemma_same_below(a: Seq<u64>, b: Seq<u64>, end: int)
    requires
        a.to_multiset() == b.to_multiset(),
        all_below(b, end),
    ensures
        all_below(a, end),
{
    broadcast use vstd::seq_lib::group_to_multiset_ensures;

    assert forall|i: int| 0 <= i < a.len() implies (#[trigger] a[i]) < end by {
        assert(a.contains(a[i]));
        assert(a.to_multiset().count(a[i]) > 0);
        assert(b.contains(a[i]));
        let j = choose|j: int| 0 <= j < b.len() && b[j] == a[i];
        assert(b[j] < end);
    }
}

/// Whether what was mapped from a segment is still what is cached.
pub fn mmap_is_valid(position: FileSegmentPosition, is_source_in_memory: bool) -> (res: bool)
    ensures
        res == match position {
            FileSegmentPosition::InMem => is_source_in_memory,
            FileSegmentPosition::InStore => !is_source_in_memory,
            FileSegmentPosition::NotExist => false,
        },
{
    match position {
        FileSegmentPosition::InMem => is_source_in_memory,
        FileSegmentPosition::InStore => !is_source_in_memory,
        FileSegmentPosition::NotExist => false,
    }
}

/// The segments of a range hold every byte of it.
pub proof fn law_segments_cover_the_range(f: Remote, start: u64, end: u64, off: u64)
    requires
        f.wf(),
        f.segment_offsets[0] <= start <= off < end <= f.segment_offsets.last(),
    ensures
        exists|i: int|
            0 <= i < f.segments_of(start, end).len() && (#[trigger] f.segments_of(
                start,
                end,
            )[i]).start_off <= off < f.segments_of(start, end)[i].end_off,
    decreases end - start,
{
    let offsets = f.segment_offsets;
    lemma_some_segment(offsets, start);
    let k = segment_of(offsets, start);
    let first = nth_segment(f.id, offsets, k);
    let rest = f.segments_of(offsets[k + 1], end);
    let all = f.segments_of(start, end);
    assert(all == seq![first] + rest);
    if off < first.end_off {
        assert(all[0] == first);
    } else {
        law_segments_cover_the_range(f, offsets[k + 1], end, off);
        let i = choose|i: int|
            0 <= i < rest.len() && (#[trigger] rest[i]).start_off <= off < rest[i].end_off;
        assert(all[i + 1] == rest[i]);
    }
}

} // verus!
