//! Reading blocks of columns of several tables.
use bytes::Bytes;
use std::collections::HashMap;
use vstd::prelude::*;

use crate::lists::contains_i64;

verus! {

broadcast use vstd::std_specs::hash::group_hash_axioms;

/// Stands for the table where there is none.
pub const NO_TABLE: i64 = -1;

/// A table that is to be read.
pub struct TableCtx {
    /// The table.
    pub table_id: i64,
    /// The ranges that are asked for.
    pub ranges: Vec<(Bytes, Bytes)>,
}

/// The tables that are not empty, in the order in which they were asked for.
pub open spec fn tables_among(tables: Seq<TableCtx>, ids: Seq<i64>) -> Seq<TableCtx> {
    tables.filter(|t: TableCtx| ids.contains(t.table_id))
}

/// A block of columns.
pub struct BlockResult {
    /// The table.
    pub table_id: i64,
    /// How many rows it has.
    pub read_count: usize,
    /// The column of handles.
    pub handle_column_id: i64,
    /// The column of versions.
    pub version_column_id: i64,
    /// Columns that are the handle of the row.
    pub pk_handle_ids: Vec<i64>,
    /// The handles.
    pub handle_data: Vec<u8>,
    /// The versions.
    pub version_data: Vec<u8>,
    /// The other columns.
    pub columns: HashMap<i64, Vec<u8>>,
}

impl BlockResult {
    /// The column is the handle of the row.
    pub open spec fn is_handle(self, col_id: i64) -> bool {
        col_id == self.handle_column_id || (col_id != self.version_column_id
            && self.pk_handle_ids@.contains(col_id))
    }

    /// The data of a column, as far as it was not taken out.
    pub open spec fn column(self, col_id: i64) -> Seq<u8> {
        if self.is_handle(col_id) {
            self.handle_data@
        } else if col_id == self.version_column_id {
            self.version_data@
        } else if self.columns@.contains_key(col_id) {
            self.columns@[col_id]@
        } else {
            Seq::empty()
        }
    }

    /// Takes the handles out.
    fn take_handle(&mut self) -> (res: Vec<u8>)
        ensures
            res@ == old(self).handle_data@,
            final(self).handle_data@.len() == 0,
            final(self).version_data == old(self).version_data,
            final(self).columns == old(self).columns,
            final(self).table_id == old(self).table_id,
            final(self).read_count == old(self).read_count,
            final(self).handle_column_id == old(self).handle_column_id,
            final(self).version_column_id == old(self).version_column_id,
            final(self).pk_handle_ids == old(self).pk_handle_ids,
    {
        let mut data: Vec<u8> = Vec::new();
        std::mem::swap(&mut data, &mut self.handle_data);
        data
    }

    /// The data of the column was taken out, and nothing else was.
    pub open spec fn column_taken(self, after: BlockResult, col_id: i64) -> bool {
        &&& after.table_id == self.table_id
        &&& after.read_count == self.read_count
        &&& after.handle_column_id == self.handle_column_id
        &&& after.version_column_id == self.version_column_id
        &&& after.pk_handle_ids == self.pk_handle_ids
        &&& if self.is_handle(col_id) {
            &&& after.handle_data@.len() == 0
            &&& after.version_data == self.version_data
            &&& after.columns == self.columns
        } else if col_id == self.version_column_id {
            &&& after.version_data@.len() == 0
            &&& after.handle_data == self.handle_data
            &&& after.columns == self.columns
        } else {
            &&& after.columns@ == self.columns@.remove(col_id)
            &&& after.handle_data == self.handle_data
            &&& after.version_data == self.version_data
        }
    }

    /// Takes the data of a column out. A second time there is none.
    pub fn take_column_data(&mut self, col_id: i64) -> (res: Vec<u8>)
        ensures
            res@ == old(self).column(col_id),
            old(self).column_taken(*final(self), col_id),
    {
        if col_id == self.handle_column_id {
            return self.take_handle();
        }
        if col_id == self.version_column_id {
            let mut data: Vec<u8> = Vec::new();
            std::mem::swap(&mut data, &mut self.version_data);
            return data;
        }
        if contains_i64(&self.pk_handle_ids, col_id) {
            return self.take_handle();
        }
        match self.columns.remove(&col_id) {
            Some(data) => data,
            None => Vec::new(),
        }
    }
}

/// What is to be done next when tables are read one behind the other.
pub enum SequentialStep {
    /// Open a reader of the table, and read.
    Open(TableCtx),
    /// Read with the reader that is open.
    Read,
    /// Give this many rows back.
    Return(usize),
}

/// What is to be done next when tables are read side by side.
pub enum ConcurrentStep {
    /// There is nothing more.
    Return,
    /// Start workers on the tables, and receive from them.
    Start {
        /// The tables, in the order in which workers take them.
        tables: Vec<TableCtx>,
        /// How many workers there are.
        workers: usize,
        /// How many results can wait.
        waiting: usize,
    },
    /// Receive from the workers.
    Receive,
}

/// What came from the workers.
pub enum ReadResult {
    /// A block.
    Block(BlockResult),
    /// A reader failed.
    Error,
    /// All tables are read.
    Finished,
    /// The workers are gone.
    Closed,
}

/// Reads blocks of columns of several tables.
pub struct CloudColumnarReaders {
    /// Tables that are not read yet.
    pub tables: Vec<TableCtx>,
    /// How many are read side by side; zero where they are read one behind the other.
    pub concurrency: usize,
    /// The table of the reader that is open.
    pub open_table: Option<i64>,
    /// Workers were started.
    pub started: bool,
    /// The block that was read last.
    pub current_block: Option<BlockResult>,
    /// There is nothing more.
    pub finished: bool,
}

impl CloudColumnarReaders {
    /// Reads the tables that are not empty. They are read side by side if there are
    /// several and that is asked for.
    pub fn new(tables: Vec<TableCtx>, not_empty: &Vec<i64>, concurrency: usize) -> (res: Self)
        ensures
            res.tables@ == tables_among(tables@, not_empty@),
            res.concurrency == (if res.tables@.len() > 1 && concurrency > 1 {
                concurrency
            } else {
                0
            }),
            res.open_table is None,
            !res.started,
            res.current_block is None,
            !res.finished,
    {
        let ghost p = |t: TableCtx| not_empty@.contains(t.table_id);
        let keep = |t: &TableCtx| -> (b: bool)
            ensures
                b == not_empty@.contains(t.table_id),
            { contains_i64(not_empty, t.table_id) };
        let tables = crate::lists::retain_vec(tables, keep, Ghost(p));
        let concurrency: usize = if tables.len() > 1 && concurrency > 1 {
            concurrency
        } else {
            0
        };
        CloudColumnarReaders {
            tables,
            concurrency,
            open_table: None,
            started: false,
            current_block: None,
            finished: false,
        }
    }

    /// Whether tables are read side by side.
    pub fn need_concurrency(&self) -> (res: bool)
        ensures
            res == (self.concurrency > 0),
    {
        self.concurrency > 0
    }

    /// Takes the next table.
    fn open_next(&mut self) -> (res: SequentialStep)
        ensures
            if old(self).tables@.len() == 0 {
                res == SequentialStep::Return(0) && *final(self) == *old(self)
            } else {
                &&& res == SequentialStep::Open(old(self).tables@[0])
                &&& final(self).tables@ == old(self).tables@.drop_first()
                &&& final(self).open_table == Some(old(self).tables@[0].table_id)
                &&& final(self).concurrency == old(self).concurrency
                &&& final(self).finished == old(self).finished
                &&& final(self).started == old(self).started
                &&& final(self).current_block == old(self).current_block
            },
    {
        if self.tables.len() == 0 {
            return SequentialStep::Return(0);
        }
        let table = self.tables.remove(0);
        assert(self.tables@ =~= old(self).tables@.drop_first());
        self.open_table = Some(table.table_id);
        SequentialStep::Open(table)
    }

    /// What is to be done first when a block is read one table behind the other.
    pub fn sequential_begin(&mut self, read_limit: usize) -> (res: SequentialStep)
        ensures
            if read_limit == 0 {
                res == SequentialStep::Return(0) && *final(self) == *old(self)
            } else if old(self).open_table is Some {
                res == SequentialStep::Read && *final(self) == *old(self)
            } else if old(self).tables@.len() == 0 {
                res == SequentialStep::Return(0) && *final(self) == *old(self)
            } else {
                &&& res == SequentialStep::Open(old(self).tables@[0])
                &&& final(self).tables@ == old(self).tables@.drop_first()
                &&& final(self).open_table == Some(old(self).tables@[0].table_id)
                &&& final(self).concurrency == old(self).concurrency
                &&& final(self).finished == old(self).finished
                &&& final(self).started == old(self).started
                &&& final(self).current_block == old(self).current_block
            },
    {
        if read_limit == 0 {
            return SequentialStep::Return(0);
        }
        if self.open_table.is_some() {
            return SequentialStep::Read;
        }
        self.open_next()
    }

    /// What is to be done when the open reader has read this many rows: a reader that
    /// has none left makes room for the next table.
    pub fn sequential_after_read(&mut self, read_count: usize) -> (res: SequentialStep)
        ensures
            if read_count > 0 {
                res == SequentialStep::Return(read_count) && *final(self) == *old(self)
            } else if old(self).tables@.len() == 0 {
                res == SequentialStep::Return(0) && *final(self) == *old(self)
            } else {
                &&& res == SequentialStep::Open(old(self).tables@[0])
                &&& final(self).tables@ == old(self).tables@.drop_first()
                &&& final(self).open_table == Some(old(self).tables@[0].table_id)
                &&& final(self).concurrency == old(self).concurrency
                &&& final(self).finished == old(self).finished
                &&& final(self).started == old(self).started
                &&& final(self).current_block == old(self).current_block
            },
    {
        if read_count > 0 {
            return SequentialStep::Return(read_count);
        }
        self.open_next()
    }

    /// What is to be done first when a block is read with tables side by side.
    pub fn concurrent_begin(&mut self, read_limit: usize) -> (res: ConcurrentStep)
        requires
            0 < old(self).concurrency <= usize::MAX / 2,
        ensures
            final(self).concurrency == old(self).concurrency,
            final(self).open_table == old(self).open_table,
            if old(self).finished || read_limit == 0 {
                &&& res is Return
                &&& final(self).finished
                &&& final(self).current_block is None
                &&& final(self).started == old(self).started
                &&& final(self).tables@ == old(self).tables@
            } else if old(self).started {
                &&& res is Receive
                &&& *final(self) == *old(self)
            } else {
                &&& final(self).started
                &&& final(self).tables@.len() == 0
                &&& match res {
                    ConcurrentStep::Start { tables, workers, waiting } => {
                        &&& final(self).current_block == old(self).current_block
                        &&& old(self).tables@.len() > 0
                        &&& !final(self).finished
                        &&& tables@ == old(self).tables@
                        &&& waiting == 2 * old(self).concurrency
                        &&& workers == (if old(self).concurrency < tables@.len() {
                            old(self).concurrency as int
                        } else {
                            tables@.len() as int
                        })
                    },
                    _ => {
                        &&& res is Return
                        &&& old(self).tables@.len() == 0
                        &&& final(self).finished
                        &&& final(self).current_block is None
                    },
                }
            },
    {
        if self.finished {
            self.current_block = None;
            return ConcurrentStep::Return;
        }
        if read_limit == 0 {
            self.finished = true;
            self.current_block = None;
            return ConcurrentStep::Return;
        }
        if self.started {
            return ConcurrentStep::Receive;
        }
        self.started = true;
        let mut tables: Vec<TableCtx> = Vec::new();
        std::mem::swap(&mut tables, &mut self.tables);
        if tables.len() == 0 {
            self.finished = true;
            self.current_block = None;
            return ConcurrentStep::Return;
        }
        let workers: usize = if self.concurrency < tables.len() {
            self.concurrency
        } else {
            tables.len()
        };
        ConcurrentStep::Start { tables, workers, waiting: self.concurrency * 2 }
    }

    /// Takes what came from the workers: how many rows there are to give back, or that
    /// a reader failed.
    pub fn on_result(&mut self, result: ReadResult) -> (res: Result<usize, ()>)
        ensures
            final(self).tables == old(self).tables,
            final(self).concurrency == old(self).concurrency,
            final(self).open_table == old(self).open_table,
            final(self).started == old(self).started,
            match result {
                ReadResult::Block(block) => {
                    &&& res == Ok::<usize, ()>(block.read_count)
                    &&& final(self).current_block == Some(block)
                    &&& final(self).finished == old(self).finished
                },
                ReadResult::Error => {
                    &&& res is Err
                    &&& final(self).current_block is None
                    &&& final(self).finished
                },
                _ => {
                    &&& res == Ok::<usize, ()>(0)
                    &&& final(self).current_block is None
                    &&& final(self).finished
                },
            },
    {
        match result {
            ReadResult::Block(block) => {
                let read_count = block.read_count;
                self.current_block = Some(block);
                Ok(read_count)
            },
            ReadResult::Error => {
                self.finished = true;
                self.current_block = None;
                Err(())
            },
            _ => {
                self.finished = true;
                self.current_block = None;
                Ok(0)
            },
        }
    }

    /// Nothing but the block changed.
    pub open spec fn same_but_block(self, after: Self) -> bool {
        &&& after.tables == self.tables
        &&& after.concurrency == self.concurrency
        &&& after.open_table == self.open_table
        &&& after.started == self.started
        &&& after.finished == self.finished
        &&& after.current_block is Some == self.current_block is Some
    }

    /// Takes the handles of the block out, where tables are read side by side.
    pub fn ffi_read_handle(&mut self) -> (res: Vec<u8>)
        ensures
            res@ == (match old(self).current_block {
                Some(block) => block.handle_data@,
                None => Seq::empty(),
            }),
            old(self).same_but_block(*final(self)),
            old(self).current_block is Some ==> old(self).current_block->0.column_taken(
                final(self).current_block->0,
                old(self).current_block->0.handle_column_id,
            ),
    {
        let mut block = None;
        std::mem::swap(&mut block, &mut self.current_block);
        match block {
            Some(b) => {
                let mut b = b;
                let data = b.take_handle();
                self.current_block = Some(b);
                data
            },
            None => Vec::new(),
        }
    }

    /// Takes the versions of the block out, where tables are read side by side.
    pub fn ffi_read_version(&mut self) -> (res: Vec<u8>)
        ensures
            res@ == (match old(self).current_block {
                Some(block) => block.version_data@,
                None => Seq::empty(),
            }),
            old(self).same_but_block(*final(self)),
            old(self).current_block is Some ==> {
                let (a, b) = (final(self).current_block->0, old(self).current_block->0);
                a == (BlockResult { version_data: a.version_data, ..b }) && a.version_data@.len()
                    == 0
            },
    {
        let mut block = None;
        std::mem::swap(&mut block, &mut self.current_block);
        match block {
            Some(b) => {
                let mut b = b;
                let mut data: Vec<u8> = Vec::new();
                std::mem::swap(&mut data, &mut b.version_data);
                self.current_block = Some(b);
                data
            },
            None => Vec::new(),
        }
    }

    /// Takes the data of a column of the block out, where tables are read side by side.
    pub fn ffi_read_column(&mut self, col_id: i64) -> (res: Vec<u8>)
        ensures
            res@ == (match old(self).current_block {
                Some(block) => block.column(col_id),
                None => Seq::empty(),
            }),
            old(self).same_but_block(*final(self)),
            old(self).current_block is Some ==> old(self).current_block->0.column_taken(
                final(self).current_block->0,
                col_id,
            ),
    {
        let mut block = None;
        std::mem::swap(&mut block, &mut self.current_block);
        match block {
            Some(b) => {
                let mut b = b;
                let data = b.take_column_data(col_id);
                self.current_block = Some(b);
                data
            },
            None => Vec::new(),
        }
    }

    /// The table of the rows that were read last, or -1.
    pub fn ffi_physical_table_id(&self) -> (res: i64)
        ensures
            res == (if self.concurrency == 0 {
                match self.open_table {
                    Some(id) => id,
                    None => NO_TABLE,
                }
            } else {
                match self.current_block {
                    Some(block) => block.table_id,
                    None => NO_TABLE,
                }
            }),
    {
        if !self.need_concurrency() {
            match self.open_table {
                Some(id) => id,
                None => NO_TABLE,
            }
        } else {
            match &self.current_block {
                Some(block) => block.table_id,
                None => NO_TABLE,
            }
        }
    }
}

/// Whether a worker that ends tells that all tables are read: the last one does, if it
/// came to the end of the tables.
pub fn tells_finished(came_to_end: bool, workers_before: usize) -> (res: bool)
    ensures
        res == (came_to_end && workers_before == 1),
{
    came_to_end && workers_before == 1
}

/// Which reader a table is read with.
#[derive(Clone, Copy, Debug, PartialEq, Eq, Structural)]
pub enum ReaderChoice {
    /// A search in the vector index.
    VectorIndex,
    /// The columns.
    Columnar,
}

/// Why there is no reader.
#[derive(Clone, Copy, Debug, PartialEq, Eq, Structural)]
pub enum NoReader {
    /// The vector that is searched for cannot be read.
    BadVector,
    /// The search does not say which column it is about.
    NoVectorColumn,
    /// The schema cannot be made of the columns.
    NoSchema,
    /// There is no vector index, and no columns either.
    NoneAfterFallback,
    /// There are no columns.
    NoColumnar,
}

/// What is known when a reader is chosen.
#[derive(Clone, Copy, Debug, PartialEq, Eq, Structural)]
pub struct ReaderFacts {
    /// It is a search for vectors.
    pub vector_search: bool,
    /// The vector that is searched for can be read.
    pub vector_readable: bool,
    /// The search says which column it is about.
    pub column_known: bool,
    /// The schema can be made of the columns.
    pub schema_known: bool,
    /// There is a reader of the vector index.
    pub has_vector_reader: bool,
    /// There is a reader of columns.
    pub has_columnar_reader: bool,
}

/// Which reader a table is read with. A search without vector index falls back to the
/// columns.
pub fn choose_reader(facts: ReaderFacts) -> (res: Result<ReaderChoice, NoReader>)
    ensures
        facts.vector_search ==> match res {
            Ok(choice) => {
                &&& facts.vector_readable && facts.column_known && facts.schema_known
                &&& choice == ReaderChoice::VectorIndex <==> facts.has_vector_reader
                &&& choice == ReaderChoice::Columnar ==> facts.has_columnar_reader
            },
            Err(NoReader::BadVector) => !facts.vector_readable,
            Err(NoReader::NoVectorColumn) => facts.vector_readable && !facts.column_known,
            Err(NoReader::NoSchema) => facts.vector_readable && facts.column_known
                && !facts.schema_known,
            Err(NoReader::NoneAfterFallback) => facts.vector_readable && facts.column_known
                && facts.schema_known && !facts.has_vector_reader && !facts.has_columnar_reader,
            Err(NoReader::NoColumnar) => false,
        },
        !facts.vector_search ==> res == (if facts.has_columnar_reader {
            Ok::<ReaderChoice, NoReader>(ReaderChoice::Columnar)
        } else {
            Err(NoReader::NoColumnar)
        }),
{
    if !facts.vector_search {
        return if facts.has_columnar_reader {
            Ok(ReaderChoice::Columnar)
        } else {
            Err(NoReader::NoColumnar)
        };
    }
    if !facts.vector_readable {
        return Err(NoReader::BadVector);
    }
    if !facts.column_known {
        return Err(NoReader::NoVectorColumn);
    }
    if !facts.schema_known {
        return Err(NoReader::NoSchema);
    }
    if facts.has_vector_reader {
        Ok(ReaderChoice::VectorIndex)
    } else if facts.has_columnar_reader {
        Ok(ReaderChoice::Columnar)
    } else {
        Err(NoReader::NoneAfterFallback)
    }
}

/// What is to be done when a reader of one table has read this many rows of a range.
pub enum RangeStep {
    /// Give this many rows back.
    Return(usize),
    /// Begin with the next range.
    Next((Bytes, Bytes)),
}

/// The ranges of a table that are not read yet.
pub struct RangeQueue {
    /// The ranges.
    pub ranges: Vec<(Bytes, Bytes)>,
}

impl RangeQueue {
    /// The next range, if there is one.
    pub fn update_range_handle(&mut self) -> (res: Option<(Bytes, Bytes)>)
        ensures
            if old(self).ranges@.len() == 0 {
                res is None && final(self).ranges@ == old(self).ranges@
            } else {
                &&& res == Some(old(self).ranges@[0])
                &&& final(self).ranges@ == old(self).ranges@.drop_first()
            },
    {
        if self.ranges.len() == 0 {
            return None;
        }
        let range = self.ranges.remove(0);
        assert(self.ranges@ =~= old(self).ranges@.drop_first());
        Some(range)
    }

    /// What is to be done when this many rows of a range were read: a range of which
    /// nothing is left makes room for the next.
    pub fn after_read(&mut self, read_count: usize) -> (res: RangeStep)
        ensures
            if read_count > 0 {
                res == RangeStep::Return(read_count) && final(self).ranges@ == old(self).ranges@
            } else if old(self).ranges@.len() == 0 {
                res == RangeStep::Return(0) && final(self).ranges@ == old(self).ranges@
            } else {
                &&& res == RangeStep::Next(old(self).ranges@[0])
                &&& final(self).ranges@ == old(self).ranges@.drop_first()
            },
    {
        if read_count > 0 {
            return RangeStep::Return(read_count);
        }
        match self.update_range_handle() {
            Some(range) => RangeStep::Next(range),
            None => RangeStep::Return(0),
        }
    }
}

} // verus!
