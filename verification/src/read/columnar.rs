//! Reading tables that are kept as columns.
use bytes::Bytes;
use vstd::prelude::*;

use crate::bound::{ordered, Bound, BoundedDataSet, DataBound};
use crate::buf::content;
use crate::key::{lemma_not_lt, lemma_prefix_le, lex_le, lex_lt, starts_with};
use crate::lists::{contains_i64, contains_u64};
use crate::read::rows::{before, is_place_of, rows_wf, Row, TableIterator};
use crate::shard::data::{BlobTable, ColumnarFile, ShardData};
use crate::shard::levels::{
    range_bound, walk_fits, walk_ranges, BlockIndex, Level, ShardCf, SsTable,
};
use crate::table_key::{
    decode_table_id, encode_table_prefix_key, law_table_of_a_key, law_tables_are_in_order,
    table_id_of, table_prefix,
};
use crate::WRITE_CF;

verus! {

/// A column that is asked for.
#[derive(Clone, Copy, Debug, PartialEq, Eq, Structural)]
pub struct ColumnInfo {
    /// The column.
    pub column_id: i64,
    /// It is the handle of the row.
    pub pk_handle: bool,
}

impl ShardData {
    /// The table is kept as columns, and its schema is known.
    pub open spec fn reads_columns(self, read_columnar: bool, table_id: i64) -> bool {
        &&& read_columnar
        &&& self@.columnar_table_ids.contains(table_id)
        &&& self@.schema_file is Some
        &&& self@.schema_file->0.tables.contains(table_id)
        &&& self@.schema_file->0.columnar_tables.contains(table_id)
    }

    /// The columns that a reader of columns reads: all that are asked for but the
    /// handle. There is no such reader for a table that is not kept as columns.
    pub fn new_schema_from_columns(
        &self,
        read_columnar: bool,
        table_id: i64,
        columns: &Vec<ColumnInfo>,
        handle_col_id: i64,
    ) -> (res: Option<Vec<ColumnInfo>>)
        ensures
            res is Some == self.reads_columns(read_columnar, table_id),
            res is Some ==> res->0@ == columns@.filter(
                |c: ColumnInfo| !c.pk_handle && c.column_id != handle_col_id,
            ),
    {
        if !read_columnar || !contains_i64(&self.columnar_table_ids, table_id) {
            return None;
        }
        match &self.schema_file {
            Some(schema) => {
                if !contains_i64(&schema.tables, table_id) || !contains_i64(
                    &schema.columnar_tables,
                    table_id,
                ) {
                    return None;
                }
            },
            None => {
                return None;
            },
        }
        let ghost p = |c: ColumnInfo| !c.pk_handle && c.column_id != handle_col_id;
        let mut res: Vec<ColumnInfo> = Vec::new();
        let mut i: usize = 0;
        proof {
            reveal(Seq::filter);
            assert(columns@.take(0).filter(p) =~= Seq::empty());
        }
        while i < columns.len()
            invariant
                i <= columns@.len(),
                p == (|c: ColumnInfo| !c.pk_handle && c.column_id != handle_col_id),
                res@ == columns@.take(i as int).filter(p),
            decreases columns@.len() - i,
        {
            proof {
                reveal(Seq::filter);
                assert(columns@.take(i + 1).drop_last() =~= columns@.take(i as int));
            }
            let c = columns[i];
            if !c.pk_handle && c.column_id != handle_col_id {
                res.push(c);
            }
            i = i + 1;
        }
        assert(columns@.take(columns@.len() as int) =~= columns@);
        Some(res)
    }
}

/// What a reader of columns merges.
pub struct ReaderPlan {
    /// Memory tables, by their places.
    pub mems: Vec<usize>,
    /// Tables of level 0.
    pub l0s: Vec<u64>,
    /// Tables of the lower levels.
    pub tables: Vec<u64>,
    /// Columnar files, each with a reader of its own.
    pub files: Vec<u64>,
    /// Columnar files that are read one behind the other.
    pub in_a_row: Option<Vec<u64>>,
    /// The vector index is read.
    pub vector_index: bool,
    /// Distances are projected. Then every source but the vector index is read with these
    /// columns, the vector among them, and a projector over its reader puts the distance in
    /// place of the vector. The index gives the distance itself. Otherwise all sources are
    /// read with the columns that are asked for.
    pub projected: Option<Vec<ColumnInfo>>,
}

/// How a search of vectors gives distances.
pub enum DistanceProj {
    /// It gives none.
    Disabled,
    /// The distance is a column that is asked for, and the vector is not. What the index
    /// does not cover is read with these columns, from which the distance is computed.
    Enabled(Vec<ColumnInfo>),
    /// The distance is asked for, and there are no columns from which it is computed.
    NoInnerSchema,
}

/// Distances cannot be projected: there are no columns from which they are computed.
#[derive(Clone, Copy, Debug, PartialEq, Eq, Structural)]
pub struct NoInnerSchema;

/// The places of what is marked, from the first on.
pub open spec fn marked(marks: Seq<bool>, n: int) -> Seq<usize>
    decreases n,
{
    if n <= 0 {
        Seq::empty()
    } else if marks[n - 1] {
        marked(marks, n - 1).push((n - 1) as usize)
    } else {
        marked(marks, n - 1)
    }
}

/// The ids of what is marked, from the first on.
pub open spec fn marked_ids(ids: Seq<u64>, marks: Seq<bool>, n: int) -> Seq<u64>
    decreases n,
{
    if n <= 0 {
        Seq::empty()
    } else if marks[n - 1] {
        marked_ids(ids, marks, n - 1).push(ids[n - 1])
    } else {
        marked_ids(ids, marks, n - 1)
    }
}

/// The files that hold a table and that are not among the others.
pub open spec fn files_holding(
    files: Seq<ColumnarFile>,
    holding: Seq<u64>,
    but: Seq<u64>,
    n: int,
) -> Seq<u64>
    decreases n,
{
    if n <= 0 {
        Seq::empty()
    } else {
        let id = files[n - 1].id;
        let rest = files_holding(files, holding, but, n - 1);
        if holding.contains(id) && !but.contains(id) {
            rest.push(id)
        } else {
            rest
        }
    }
}

/// The ids of the first `n` files.
pub open spec fn file_ids(files: Seq<ColumnarFile>, n: int) -> Seq<u64> {
    Seq::new(n as nat, |i: int| files[i].id)
}

/// The ids of the tables of the first `n` levels.
pub open spec fn level_ids(levels: Seq<Level>, n: int) -> Seq<u64>
    decreases n,
{
    if n <= 0 {
        Seq::empty()
    } else {
        level_ids(levels, n - 1) + Seq::new(
            levels[n - 1].tables.len(),
            |i: int| levels[n - 1].tables[i].id,
        )
    }
}

/// The places of what is marked.
fn collect_marked(marks: &Vec<bool>) -> (res: Vec<usize>)
    ensures
        res@ == marked(marks@, marks@.len() as int),
{
    let mut res: Vec<usize> = Vec::new();
    let mut i: usize = 0;
    while i < marks.len()
        invariant
            i <= marks@.len(),
            res@ =~= marked(marks@, i as int),
        decreases marks@.len() - i,
    {
        if marks[i] {
            res.push(i);
        }
        i = i + 1;
    }
    res
}

/// The ids of what is marked.
fn collect_marked_ids(ids: &Vec<u64>, marks: &Vec<bool>) -> (res: Vec<u64>)
    requires
        ids@.len() == marks@.len(),
    ensures
        res@ == marked_ids(ids@, marks@, marks@.len() as int),
{
    let mut res: Vec<u64> = Vec::new();
    let mut i: usize = 0;
    while i < marks.len()
        invariant
            i <= marks@.len(),
            ids@.len() == marks@.len(),
            res@ =~= marked_ids(ids@, marks@, i as int),
        decreases marks@.len() - i,
    {
        if marks[i] {
            res.push(ids[i]);
        }
        i = i + 1;
    }
    res
}

/// The files that hold a table and that are not among the others.
fn collect_holding(
    files: &Vec<ColumnarFile>,
    holding: &Vec<u64>,
    but: &Vec<u64>,
    res: &mut Vec<u64>,
)
    ensures
        final(res)@ == old(res)@ + files_holding(files@, holding@, but@, files@.len() as int),
{
    let ghost before = res@;
    let mut i: usize = 0;
    while i < files.len()
        invariant
            i <= files@.len(),
            before == old(res)@,
            res@ =~= before + files_holding(files@, holding@, but@, i as int),
        decreases files@.len() - i,
    {
        let id = files[i].id;
        if contains_u64(holding, id) && !contains_u64(but, id) {
            res.push(id);
        }
        i = i + 1;
    }
}

/// The ids of tables of level 0.
fn l0_ids(data: &Vec<crate::shard::data::L0Table>) -> (res: Vec<u64>)
    ensures
        res@ == Seq::new(data@.len(), |i: int| data@[i].id),
{
    let mut res: Vec<u64> = Vec::new();
    let mut i: usize = 0;
    while i < data.len()
        invariant
            i <= data@.len(),
            res@ =~= Seq::new(i as nat, |j: int| data@[j].id),
        decreases data@.len() - i,
    {
        res.push(data[i].id);
        i = i + 1;
    }
    res
}

impl ShardData {
    /// The sources of a reader of columns that reads rows only: all memory tables and
    /// tables that have committed data.
    pub fn new_columnar_mvcc_reader_from_row(
        &self,
        mem_has_data: &Vec<bool>,
        l0_has_data: &Vec<bool>,
    ) -> (res: ReaderPlan)
        requires
            self@.wf(),
            mem_has_data@.len() == self@.mem_tbls.len(),
            l0_has_data@.len() == self@.l0_tbls.len(),
        ensures
            res.mems@ == marked(mem_has_data@, mem_has_data@.len() as int),
            res.l0s@ == marked_ids(
                Seq::new(self@.l0_tbls.len(), |i: int| self@.l0_tbls[i].id),
                l0_has_data@,
                l0_has_data@.len() as int,
            ),
            res.tables@ == level_ids(
                self@.cfs[WRITE_CF as int],
                self@.cfs[WRITE_CF as int].len() as int,
            ),
            res.files@.len() == 0,
            res.in_a_row is None,
            !res.vector_index,
            res.projected is None,
    {
        let mems = collect_marked(mem_has_data);
        let ids = l0_ids(&self.l0_tbls);
        let l0s = collect_marked_ids(&ids, l0_has_data);
        let mut tables: Vec<u64> = Vec::new();
        let ghost levels = self@.cfs[WRITE_CF as int];
        assert(levels == self.cfs@[WRITE_CF as int]@);
        let cf = &self.cfs[WRITE_CF];
        let mut l: usize = 0;
        while l < cf.levels.len()
            invariant
                l <= cf.levels@.len(),
                levels == cf@,
                tables@ =~= level_ids(levels, l as int),
            decreases cf.levels@.len() - l,
        {
            let level = &cf.levels[l];
            assert(levels[l as int] == level@);
            let ghost before = tables@;
            let mut i: usize = 0;
            while i < level.tables.len()
                invariant
                    i <= level.tables@.len(),
                    tables@ =~= before + Seq::new(i as nat, |j: int| level@.tables[j].id),
                decreases level.tables@.len() - i,
            {
                tables.push(level.tables[i].id);
                i = i + 1;
            }
            l = l + 1;
        }
        ReaderPlan {
            mems,
            l0s,
            tables,
            files: Vec::new(),
            in_a_row: None,
            vector_index: false,
            projected: None,
        }
    }

    /// The reader merges the memory tables and the tables without columnar file that have
    /// committed data, the columnar files of the upper levels that hold the table, and all
    /// those of the lowest level one behind the other.
    pub open spec fn reads_with(
        self,
        mem_has_data: Seq<bool>,
        l0_has_data: Seq<bool>,
        holding: Seq<u64>,
        plan: ReaderPlan,
    ) -> bool {
        let levels = self@.col_levels.levels;
        let l0s = self@.col_levels.unconverted_l0s;
        &&& plan.mems@ == marked(mem_has_data, mem_has_data.len() as int)
        &&& plan.l0s@ == marked_ids(
            Seq::new(l0s.len(), |i: int| l0s[i].id),
            l0_has_data,
            l0_has_data.len() as int,
        )
        &&& plan.tables@.len() == 0
        &&& plan.files@ == files_holding(
            levels[0],
            holding,
            Seq::empty(),
            levels[0].len() as int,
        ) + files_holding(levels[1], holding, Seq::empty(), levels[1].len() as int)
        &&& plan.in_a_row is Some
        &&& plan.in_a_row->0@ == file_ids(levels[2], levels[2].len() as int)
        &&& !plan.vector_index
        &&& plan.projected is None
    }

    /// The sources of a reader of columns: the memory tables and the tables without
    /// columnar file that have committed data, the columnar files of the upper levels
    /// that hold the table, and all those of the lowest level one behind the other.
    pub fn new_columnar_mvcc_reader(
        &self,
        mem_has_data: &Vec<bool>,
        l0_has_data: &Vec<bool>,
        holding: &Vec<u64>,
    ) -> (res: ReaderPlan)
        requires
            self@.wf(),
            mem_has_data@.len() == self@.mem_tbls.len(),
            l0_has_data@.len() == self@.col_levels.unconverted_l0s.len(),
        ensures
            self.reads_with(mem_has_data@, l0_has_data@, holding@, res),
    {
        let mems = collect_marked(mem_has_data);
        let ids = l0_ids(&self.col_levels.unconverted_l0s);
        let l0s = collect_marked_ids(&ids, l0_has_data);
        let mut files: Vec<u64> = Vec::new();
        let none: Vec<u64> = Vec::new();
        assert(none@ =~= Seq::empty());
        let ghost levels = self@.col_levels.levels;
        assert(levels[0] == self.col_levels.levels@[0]@);
        assert(levels[1] == self.col_levels.levels@[1]@);
        assert(levels[2] == self.col_levels.levels@[2]@);
        collect_holding(&self.col_levels.levels[0], holding, &none, &mut files);
        collect_holding(&self.col_levels.levels[1], holding, &none, &mut files);
        let mut last: Vec<u64> = Vec::new();
        let lowest = &self.col_levels.levels[2];
        let mut i: usize = 0;
        while i < lowest.len()
            invariant
                i <= lowest@.len(),
                last@ =~= file_ids(lowest@, i as int),
            decreases lowest@.len() - i,
        {
            last.push(lowest[i].id);
            i = i + 1;
        }
        ReaderPlan {
            mems,
            l0s,
            tables: Vec::new(),
            files,
            in_a_row: Some(last),
            vector_index: false,
            projected: None,
        }
    }

    /// The sources of a reader that searches text in columns. There is no index for that:
    /// the columns themselves are read. There is no such reader for a table that is not
    /// kept as columns.
    pub fn new_fts_columnar_mvcc_reader(
        &self,
        read_columnar: bool,
        table_id: i64,
        columns: &Vec<ColumnInfo>,
        handle_col_id: i64,
        mem_has_data: &Vec<bool>,
        l0_has_data: &Vec<bool>,
        holding: &Vec<u64>,
    ) -> (res: Option<ReaderPlan>)
        requires
            self@.wf(),
            mem_has_data@.len() == self@.mem_tbls.len(),
            l0_has_data@.len() == self@.col_levels.unconverted_l0s.len(),
        ensures
            res is Some == self.reads_columns(read_columnar, table_id),
            res is Some ==> self.reads_with(mem_has_data@, l0_has_data@, holding@, res->0),
    {
        match self.new_schema_from_columns(read_columnar, table_id, columns, handle_col_id) {
            Some(_) => Some(self.new_columnar_mvcc_reader(mem_has_data, l0_has_data, holding)),
            None => None,
        }
    }

    /// The sources of a reader that searches a vector index: what the index does not
    /// cover, and the index. The files of the lowest level are all in the index. There is
    /// no such reader where there is no index of the column, nor where the index cannot be
    /// searched, which `searchable` tells. Where distances are projected, what the index does
    /// not cover is read with the vector column.
    pub fn new_vector_index_reader(
        &self,
        read_columnar: bool,
        table_id: i64,
        index_id: i64,
        col_id: i64,
        searchable: bool,
        mem_has_data: &Vec<bool>,
        l0_has_data: &Vec<bool>,
        holding: &Vec<u64>,
        indexed: &Vec<u64>,
        distance_proj: DistanceProj,
    ) -> (res: Result<Option<ReaderPlan>, NoInnerSchema>)
        requires
            self@.wf(),
            mem_has_data@.len() == self@.mem_tbls.len(),
            l0_has_data@.len() == self@.col_levels.unconverted_l0s.len(),
        ensures
            ({
                let found = read_columnar && self.has_index(table_id, index_id, col_id)
                    && searchable;
                &&& (res matches Ok(None)) == !found
                &&& res is Err == (found && distance_proj is NoInnerSchema)
            }),
            res matches Ok(Some(plan)) ==> {
                &&& plan.mems@ == marked(mem_has_data@, mem_has_data@.len() as int)
                &&& plan.l0s@ == marked_ids(
                    Seq::new(
                        self@.col_levels.unconverted_l0s.len(),
                        |i: int| self@.col_levels.unconverted_l0s[i].id,
                    ),
                    l0_has_data@,
                    l0_has_data@.len() as int,
                )
                &&& plan.tables@.len() == 0
                &&& plan.files@ == files_holding(
                    self@.col_levels.levels[0],
                    holding@,
                    indexed@,
                    self@.col_levels.levels[0].len() as int,
                ) + files_holding(
                    self@.col_levels.levels[1],
                    holding@,
                    indexed@,
                    self@.col_levels.levels[1].len() as int,
                )
                &&& plan.in_a_row is None
                &&& plan.vector_index
                &&& plan.projected == match distance_proj {
                    DistanceProj::Enabled(columns) => Some(columns),
                    _ => None,
                }
            },
    {
        if !read_columnar {
            return Ok(None);
        }
        match self.get_vector_index(table_id, index_id, col_id) {
            Some(i) => {
                assert(self@.vector_indexes[i as int].is_of(table_id, index_id, col_id));
            },
            None => {
                return Ok(None);
            },
        }
        if !searchable {
            return Ok(None);
        }
        let projected = match distance_proj {
            DistanceProj::Disabled => None,
            DistanceProj::Enabled(columns) => Some(columns),
            DistanceProj::NoInnerSchema => {
                return Err(NoInnerSchema);
            },
        };
        let mems = collect_marked(mem_has_data);
        let ids = l0_ids(&self.col_levels.unconverted_l0s);
        let l0s = collect_marked_ids(&ids, l0_has_data);
        let mut files: Vec<u64> = Vec::new();
        let ghost levels = self@.col_levels.levels;
        assert(levels[0] == self.col_levels.levels@[0]@);
        assert(levels[1] == self.col_levels.levels@[1]@);
        collect_holding(&self.col_levels.levels[0], holding, indexed, &mut files);
        collect_holding(&self.col_levels.levels[1], holding, indexed, &mut files);
        Ok(
            Some(
                ReaderPlan {
                    mems,
                    l0s,
                    tables: Vec::new(),
                    files,
                    in_a_row: None,
                    vector_index: true,
                    projected,
                },
            ),
        )
    }

    /// Tables of committed data that have a key of the bound and are kept remote, and
    /// the blob tables that are.
    pub fn get_overlap_async_tables(&self, bound: DataBound<'_>, blob_sync: &Vec<bool>) -> (res: (
        Vec<u64>,
        Vec<u64>,
    ))
        requires
            self@.wf(),
            forall|l: int|
                0 <= l < self@.cfs[WRITE_CF as int].len() ==> ordered(
                    (#[trigger] self@.cfs[WRITE_CF as int][l]).tables,
                ),
            blob_sync@.len() == self@.blob_tbls.len(),
        ensures
            res.0@ == remote_tables(
                self@.cfs[WRITE_CF as int],
                bound@,
                self@.cfs[WRITE_CF as int].len() as int,
            ),
            res.1@ == remote_blobs(self@.blob_tbls, blob_sync@, blob_sync@.len() as int),
    {
        let mut tables: Vec<u64> = Vec::new();
        let ghost levels = self@.cfs[WRITE_CF as int];
        assert(levels == self.cfs@[WRITE_CF as int]@);
        let cf = &self.cfs[WRITE_CF];
        let mut l: usize = 0;
        while l < cf.levels.len()
            invariant
                l <= cf.levels@.len(),
                levels == cf@,
                forall|k: int|
                    0 <= k < levels.len() ==> ordered((#[trigger] levels[k]).tables),
                tables@ =~= remote_tables(levels, bound@, l as int),
            decreases cf.levels@.len() - l,
        {
            let level = &cf.levels[l];
            assert(levels[l as int] == level@);
            let ghost before = tables@;
            let (left, right) = bound.get_overlap_data_sets(level.tables.as_slice());
            let mut i: usize = 0;
            while i < level.tables.len()
                invariant
                    i <= level.tables@.len(),
                    left <= right <= level.tables@.len(),
                    forall|k: int|
                        0 <= k < level.tables@.len() ==> ((
                        #[trigger] level.tables@[k].bound()).overlaps(bound@) <==> left <= k
                            < right),
                    tables@ =~= before + remote_in_level(level@.tables, bound@, i as int),
                decreases level.tables@.len() - i,
            {
                let t = &level.tables[i];
                assert(level.tables@[i as int].bound().overlaps(bound@) <==> left <= i < right);
                if left <= i && i < right && !t.sync {
                    tables.push(t.id);
                }
                i = i + 1;
            }
            l = l + 1;
        }
        let mut blobs: Vec<u64> = Vec::new();
        let mut b: usize = 0;
        while b < self.blob_tbls.len()
            invariant
                b <= self.blob_tbls@.len(),
                blob_sync@.len() == self.blob_tbls@.len(),
                blobs@ =~= remote_blobs(self.blob_tbls@, blob_sync@, b as int),
            decreases self.blob_tbls@.len() - b,
        {
            if !blob_sync[b] {
                blobs.push(self.blob_tbls[b].id);
            }
            b = b + 1;
        }
        (tables, blobs)
    }
}

/// The first `n` tables of a level that have a key of the bound and are kept remote.
pub open spec fn remote_in_level(tables: Seq<SsTable>, b: Bound, n: int) -> Seq<u64>
    decreases n,
{
    if n <= 0 {
        Seq::empty()
    } else if tables[n - 1].bound().overlaps(b) && !tables[n - 1].sync {
        remote_in_level(tables, b, n - 1).push(tables[n - 1].id)
    } else {
        remote_in_level(tables, b, n - 1)
    }
}

/// The tables of the first `n` levels that have a key of the bound and are kept remote.
pub open spec fn remote_tables(levels: Seq<Level>, b: Bound, n: int) -> Seq<u64>
    decreases n,
{
    if n <= 0 {
        Seq::empty()
    } else {
        remote_tables(levels, b, n - 1) + remote_in_level(
            levels[n - 1].tables,
            b,
            levels[n - 1].tables.len() as int,
        )
    }
}

/// The first `n` blob tables that are kept remote.
pub open spec fn remote_blobs(blobs: Seq<BlobTable>, sync: Seq<bool>, n: int) -> Seq<u64>
    decreases n,
{
    if n <= 0 {
        Seq::empty()
    } else if !sync[n - 1] {
        remote_blobs(blobs, sync, n - 1).push(blobs[n - 1].id)
    } else {
        remote_blobs(blobs, sync, n - 1)
    }
}

/// A row of the table is there.
pub open spec fn has_row(rows: Seq<Row>, id: i64) -> bool {
    exists|i: int| 0 <= i < rows.len() && table_prefix(id).is_prefix_of((#[trigger] rows[i]).key)
}

/// A file holds the table.
pub open spec fn in_files(file_tables: Seq<Vec<i64>>, id: i64) -> bool {
    exists|f: int| 0 <= f < file_tables.len() && (#[trigger] file_tables[f])@.contains(id)
}

/// Keys that begin as those of tables do are keys of tables.
pub open spec fn table_keys(rows: Seq<Row>) -> bool {
    forall|i: int|
        0 <= i < rows.len() && (#[trigger] rows[i]).key.len() > 0 && rows[i].key[0]
            == crate::table_key::TABLE_PREFIX ==> table_id_of(rows[i].key) is Some
}

/// Whether a file holds the table.
fn is_in_files(file_tables: &Vec<Vec<i64>>, id: i64) -> (res: bool)
    ensures
        res == in_files(file_tables@, id),
{
    let mut f: usize = 0;
    while f < file_tables.len()
        invariant
            f <= file_tables@.len(),
            forall|j: int| 0 <= j < f ==> !(#[trigger] file_tables@[j])@.contains(id),
        decreases file_tables@.len() - f,
    {
        if contains_i64(&file_tables[f], id) {
            assert(file_tables@[f as int]@.contains(id));
            return true;
        }
        f = f + 1;
    }
    false
}

/// The tables of `table_ids`, which are in order, that are kept as columns and are not
/// empty: a row of them is not in a columnar file yet, or a columnar file holds them.
///
/// `iter` walks over the rows that are not in columnar files. The walk goes to a table
/// only if it has not come by it already.
pub fn filter_columnar_table_ids_not_empty<I: TableIterator>(
    iter: &mut I,
    columnar_table_ids: &Vec<i64>,
    file_tables: &Vec<Vec<i64>>,
    table_ids: &Vec<i64>,
) -> (res: Vec<i64>)
    requires
        old(iter).walk().wf(),
        !old(iter).walk().reversed,
        forall|i: int, j: int|
            0 <= i <= j < table_ids@.len() ==> #[trigger] table_ids@[i] <= #[trigger] table_ids@[j],
    ensures
        res@.no_duplicates(),
        forall|id: i64| #[trigger]
            res@.contains(id) ==> {
                &&& table_ids@.contains(id)
                &&& columnar_table_ids@.contains(id)
                &&& has_row(old(iter).walk().rows, id) || in_files(file_tables@, id)
            },
        forall|id: i64|
            table_ids@.contains(id) && columnar_table_ids@.contains(id) && in_files(
                file_tables@,
                id,
            ) ==> #[trigger] res@.contains(id),
        table_keys(old(iter).walk().rows) ==> forall|id: i64|
            table_ids@.contains(id) && columnar_table_ids@.contains(id) && has_row(
                old(iter).walk().rows,
                id,
            ) ==> #[trigger] res@.contains(id),
{
    let mut res: Vec<i64> = Vec::new();
    if table_ids.len() == 0 {
        return res;
    }
    let ghost rows = iter.walk().rows;
    let mut delta = table_ids[0];
    let ghost mut since: i64 = table_ids@[0];
    let mut i: usize = 0;
    while i < table_ids.len()
        invariant
            i <= table_ids@.len(),
            table_ids@.len() > 0,
            iter.walk().wf(),
            !iter.walk().reversed,
            iter.walk().rows == rows,
            rows == old(iter).walk().rows,
            forall|a: int, b: int|
                0 <= a <= b < table_ids@.len() ==> #[trigger] table_ids@[a]
                    <= #[trigger] table_ids@[b],
            forall|a: int| i <= a < table_ids@.len() ==> since <= #[trigger] table_ids@[a],
            table_keys(rows) ==> forall|id: i64| since <= id < delta ==> !#[trigger] has_row(rows, id),
            res@.no_duplicates(),
            forall|id: i64| #[trigger]
                res@.contains(id) ==> {
                    &&& table_ids@.contains(id)
                    &&& columnar_table_ids@.contains(id)
                    &&& has_row(rows, id) || in_files(file_tables@, id)
                },
            forall|a: int|
                0 <= a < i && columnar_table_ids@.contains(#[trigger] table_ids@[a]) && in_files(
                    file_tables@,
                    table_ids@[a],
                ) ==> res@.contains(table_ids@[a]),
            table_keys(rows) ==> forall|a: int|
                0 <= a < i && columnar_table_ids@.contains(#[trigger] table_ids@[a]) && has_row(
                    rows,
                    table_ids@[a],
                ) ==> res@.contains(table_ids@[a]),
        decreases table_ids@.len() - i,
    {
        let id = table_ids[i];
        assert(table_ids@.contains(id));
        let ghost before = res@;
        if contains_i64(columnar_table_ids, id) {
            let mut found = false;
            if id >= delta {
                let prefix = encode_table_prefix_key(id);
                iter.seek(prefix.as_slice());
                if iter.valid() {
                    let ghost key = iter.walk().row().key;
                    proof {
                        law_table_of_a_key(id, key);
                        lemma_next_table(rows, id, iter.walk().at);
                    }
                    delta =
                    match decode_table_id(iter.key()) {
                        Some(t) => t,
                        None => i64::MAX,
                    };
                    found = starts_with(iter.key(), prefix.as_slice());
                    proof {
                        if found {
                            assert(table_prefix(id).is_prefix_of(rows[iter.walk().at].key));
                            assert(has_row(rows, id));
                        }
                    }
                } else {
                    proof {
                        lemma_next_table(rows, id, iter.walk().at);
                    }
                    delta = i64::MAX;
                }
                proof {
                    since = id;
                }
            }
            assert(table_keys(rows) && has_row(rows, id) ==> found);
            if found || is_in_files(file_tables, id) {
                if !contains_i64(&res, id) {
                    res.push(id);
                    assert(res@.last() == id);
                }
            }
            proof {
                assert(res@ == before || res@ == before.push(id));
                assert(forall|x: i64| #[trigger] before.contains(x) ==> res@.contains(x)) by {
                    assert forall|x: i64| #[trigger] before.contains(x) implies res@.contains(
                        x,
                    ) by {
                        let k = before.index_of(x);
                        assert(res@[k] == x);
                    }
                }
                assert(forall|x: i64| #[trigger] res@.contains(x) ==> before.contains(x) || x == id) by {
                    assert forall|x: i64| #[trigger] res@.contains(x) implies before.contains(x) || x
                        == id by {
                        let k = res@.index_of(x);
                        if k < before.len() {
                            assert(before[k] == x);
                        }
                    }
                }
            }
        }
        i = i + 1;
    }
    proof {
        assert forall|id: i64|
            table_ids@.contains(id) && columnar_table_ids@.contains(id) && in_files(
                file_tables@,
                id,
            ) implies #[trigger] res@.contains(id) by {
            let a = table_ids@.index_of(id);
            assert(table_ids@[a] == id);
        }
        if table_keys(rows) {
            assert forall|id: i64|
                table_ids@.contains(id) && columnar_table_ids@.contains(id) && has_row(
                    rows,
                    id,
                ) implies #[trigger] res@.contains(id) by {
                let a = table_ids@.index_of(id);
                assert(table_ids@[a] == id);
            }
        }
    }
    res
}

/// No table that comes before the one that the first row behind a table belongs to has
/// a row.
proof fn lemma_next_table(rows: Seq<Row>, id: i64, at: int)
    requires
        rows_wf(rows, false),
        is_place_of(rows, false, table_prefix(id), at),
    ensures
        at < rows.len() && table_id_of(rows[at].key) is Some ==> id <= table_id_of(
            rows[at].key,
        )->0,
        at < rows.len() && table_id_of(rows[at].key) is Some ==> forall|t: i64|
            id <= t < table_id_of(rows[at].key)->0 ==> !#[trigger] has_row(rows, t),
        (at >= rows.len() || table_id_of(rows[at].key) is None) && table_keys(rows) ==> forall|
            t: i64,
        | id <= t ==> !#[trigger] has_row(rows, t),
{
    if at < rows.len() && table_id_of(rows[at].key) is Some {
        let first = rows[at].key;
        let u = table_id_of(first)->0;
        if u < id {
            law_table_of_a_key(u, first);
            let more = first.skip(table_prefix(u).len() as int);
            assert(first =~= table_prefix(u) + more);
            law_tables_are_in_order(u, id, more, Seq::empty());
            assert(table_prefix(id) + Seq::<u8>::empty() =~= table_prefix(id));
            assert(before(rows[at].key, table_prefix(id), false));
        }
    }
    assert forall|t: i64|
        id <= t && (at < rows.len() && table_id_of(rows[at].key) is Some ==> t < table_id_of(
            rows[at].key,
        )->0) && (at >= rows.len() || table_id_of(rows[at].key) is Some || table_keys(
            rows,
        )) implies !#[trigger] has_row(rows, t) by {
        if has_row(rows, t) {
            let i = choose|i: int|
                0 <= i < rows.len() && table_prefix(t).is_prefix_of((#[trigger] rows[i]).key);
            let k = rows[i].key;
            let rest = k.skip(table_prefix(t).len() as int);
            assert(k =~= table_prefix(t) + rest);
            // The row does not come before the table.
            assert(!lex_lt(k, table_prefix(id))) by {
                lemma_prefix_le(table_prefix(t), k);
                lemma_not_lt(k, table_prefix(id));
                if id < t {
                    law_tables_are_in_order(id, t, Seq::empty(), rest);
                    assert(table_prefix(id) + Seq::<u8>::empty() =~= table_prefix(id));
                }
            }
            assert(i >= at);
            let first = rows[at].key;
            assert(lex_le(first, k)) by {
                if i > at {
                    assert(before(rows[at].key, rows[i].key, false));
                }
            }
            match table_id_of(first) {
                Some(u) => {
                    law_table_of_a_key(u, first);
                    let more = first.skip(table_prefix(u).len() as int);
                    assert(first =~= table_prefix(u) + more);
                    law_tables_are_in_order(t, u, rest, more);
                    lemma_not_lt(k, first);
                },
                None => {
                    law_table_of_a_key(t, k);
                    law_table_of_a_key(id, table_prefix(id));
                    // Between two keys of tables there are only keys that begin as they do.
                    assert(!lex_lt(first, table_prefix(id)));
                    assert(table_prefix(id)[0] == crate::table_key::TABLE_PREFIX);
                    assert(k[0] == table_prefix(t)[0]);
                    assert(first.len() > 0);
                    assert(first[0] == crate::table_key::TABLE_PREFIX);
                },
            }
        }
    }
}

/// A column of vectors that a search names.
pub struct AnnQueryColumn {
    /// The column, as older clients name it.
    pub deprecated_column_id: Option<i64>,
    /// The column.
    pub column_id: Option<i64>,
}

/// The column of vectors of a search. What older clients set comes first: newer ones set
/// the other always.
pub fn get_ann_vec_col_id(query: &AnnQueryColumn) -> (res: Result<i64, ()>)
    ensures
        match res {
            Ok(id) => query.deprecated_column_id == Some(id) || (query.deprecated_column_id is None
                && query.column_id == Some(id)),
            Err(_) => query.deprecated_column_id is None && query.column_id is None,
        },
{
    match query.deprecated_column_id {
        Some(id) => Ok(id),
        None => match query.column_id {
            Some(id) => Ok(id),
            None => Err(()),
        },
    }
}

/// Sizes of the blocks that the ranges are in, of the levels from `l` on.
pub open spec fn blocks_size_from(
    levels: Seq<Level>,
    indexes: Seq<Vec<BlockIndex>>,
    ranges: Seq<(Bytes, Bytes)>,
    l: int,
) -> int
    decreases levels.len() - l,
{
    if l >= levels.len() {
        0
    } else {
        walk_ranges(levels[l].tables, indexes[l]@, ranges, ranges.len()).size + blocks_size_from(
            levels,
            indexes,
            ranges,
            l + 1,
        )
    }
}

/// The blocks of a level can be counted.
pub open spec fn level_fits(
    level: Level,
    indexes: Seq<BlockIndex>,
    ranges: Seq<(Bytes, Bytes)>,
) -> bool {
    &&& ordered(level.tables)
    &&& indexes.len() == level.tables.len()
    &&& forall|i: int| 0 <= i < indexes.len() ==> (#[trigger] indexes[i]).keys@.len() > 0
    &&& forall|n: int|
        0 <= n < ranges.len() ==> walk_fits(
            level.tables,
            indexes,
            walk_ranges(level.tables, indexes, ranges, n as nat),
            range_bound(content((#[trigger] ranges[n]).0), content(ranges[n].1)),
        )
}

/// Size of the blocks of committed data that the ranges are in, estimated. Level 0 is
/// left out.
pub fn estimated_range_blocks_size(
    write_cf: &ShardCf,
    indexes: &Vec<Vec<BlockIndex>>,
    ranges: &Vec<(Bytes, Bytes)>,
) -> (res: usize)
    requires
        indexes@.len() == write_cf@.len(),
        forall|l: int|
            0 <= l < write_cf@.len() ==> level_fits(
                #[trigger] write_cf@[l],
                indexes@[l]@,
                ranges@,
            ),
        forall|l: int|
            0 <= l <= write_cf@.len() ==> 0 <= #[trigger] blocks_size_from(
                write_cf@,
                indexes@,
                ranges@,
                l,
            ) <= usize::MAX,
    ensures
        res == blocks_size_from(write_cf@, indexes@, ranges@, 0),
{
    let mut size: usize = 0;
    let mut l = write_cf.levels.len();
    let ghost levels = write_cf@;
    while l > 0
        invariant
            l <= write_cf.levels@.len(),
            levels == write_cf@,
            levels.len() == write_cf.levels@.len(),
            indexes@.len() == levels.len(),
            forall|k: int|
                0 <= k < levels.len() ==> level_fits(#[trigger] levels[k], indexes@[k]@, ranges@),
            forall|k: int|
                0 <= k <= levels.len() ==> 0 <= #[trigger] blocks_size_from(
                    levels,
                    indexes@,
                    ranges@,
                    k,
                ) <= usize::MAX,
            size == blocks_size_from(levels, indexes@, ranges@, l as int),
        decreases l,
    {
        l = l - 1;
        let level = &write_cf.levels[l];
        assert(levels[l as int] == level@);
        assert(level_fits(levels[l as int], indexes@[l as int]@, ranges@));
        let part = level.range_blocks_size(&indexes[l], ranges);
        assert(blocks_size_from(levels, indexes@, ranges@, l as int) == part + size);
        size = part + size;
    }
    size
}

} // verus!
