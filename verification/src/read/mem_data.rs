//! What memory tables hold, as bytes that a remote reader takes.
//!
//! The bytes begin with the number of their format. In the current format the size
//! and the bytes of the rows follow, and then those of the references to transaction
//! files. Rows are written by the `bincode` crate.
use vstd::prelude::*;
use vstd::slice::{slice_subrange, slice_to_vec};

use crate::bound::InnerKey;
use crate::codec::{
    get_u32_le, get_u64_le, le_bytes, le_value, lemma_le_bytes_len, lemma_le_roundtrip,
    lemma_pow256_values, put_u32_le, put_u64_le,
};
use crate::keyspace::inner_of;
use crate::read::rows::TableIterator;
use crate::read::value::UserMeta;

verus! {

/// Format of bytes that hold rows only.
pub const MEM_DATA_FORMAT_V1: u32 = 1;

/// Format of bytes that hold rows and references to transaction files.
pub const MEM_DATA_FORMAT_V2: u32 = 2;

/// A row as it is written: the key, when the transaction began and was committed, and
/// the value.
pub type PlainRow = (Vec<u8>, u64, u64, Vec<u8>);

/// A row as it is written.
pub open spec fn plain_row(row: PlainRow) -> (Seq<u8>, u64, u64, Seq<u8>) {
    (row.0@, row.1, row.2, row.3@)
}

/// Rows as they are written.
pub open spec fn plain_rows(rows: Seq<PlainRow>) -> Seq<(Seq<u8>, u64, u64, Seq<u8>)> {
    Seq::new(rows.len(), |i: int| plain_row(rows[i]))
}

/// The bytes that `bincode::serialize` writes for rows.
pub uninterp spec fn written_rows(rows: Seq<(Seq<u8>, u64, u64, Seq<u8>)>) -> Seq<u8>;

/// The rows that `bincode::deserialize` reads from bytes, if it does not fail.
pub uninterp spec fn read_rows(data: Seq<u8>) -> Option<Seq<(Seq<u8>, u64, u64, Seq<u8>)>>;

/// `bincode::serialize` writes rows in a way that depends on them alone.
/// `bincode::deserialize` gives them back from these bytes.
#[verifier::external_body]
fn serialize_rows(rows: &Vec<PlainRow>) -> (res: Vec<u8>)
    ensures
        res@ == written_rows(plain_rows(rows@)),
        read_rows(res@) == Some(plain_rows(rows@)),
{
    bincode::serialize(rows).unwrap()
}

/// `bincode::deserialize` reads rows from bytes, or fails; which of the two, and the rows,
/// depend on the bytes alone. Nothing is said of the text of an error: it may tell how
/// large sizes can be on the machine.
#[verifier::external_body]
fn deserialize_rows(data: &[u8]) -> (res: Result<Vec<PlainRow>, String>)
    ensures
        match res {
            Ok(rows) => read_rows(data@) == Some(plain_rows(rows@)),
            Err(_) => read_rows(data@) is None,
        },
{
    bincode::deserialize(data).map_err(|e| e.to_string())
}

/// Why a remote read fails.
#[derive(Debug)]
pub enum RemoteReadError {
    /// The format of the bytes is not known.
    UnsupportedFormat(u32),
    /// The rows cannot be read.
    Rows(String),
    /// There is no snapshot.
    NoSnapshot,
    /// It would take this much more memory than there is.
    MemoryLimitExceeded(u64),
}

/// The parts of the bytes.
pub struct MemParts {
    /// Bytes of the rows.
    pub rows: Vec<u8>,
    /// Bytes of the references to transaction files, where the format has them.
    pub refs: Option<Vec<u8>>,
}

/// The bytes of the current format.
pub open spec fn mem_bytes(rows: Seq<u8>, refs: Seq<u8>) -> Seq<u8> {
    le_bytes(MEM_DATA_FORMAT_V2 as nat, 4) + le_bytes(rows.len(), 8) + rows + le_bytes(
        refs.len(),
        4,
    ) + refs
}

/// Size of the rows in bytes of the current format.
pub open spec fn rows_size(data: Seq<u8>) -> nat {
    le_value(data.subrange(4, 12))
}

/// Size of the references in bytes of the current format.
pub open spec fn refs_size(data: Seq<u8>) -> nat {
    let at = 12 + rows_size(data) as int;
    le_value(data.subrange(at, at + 4))
}

/// The bytes are as long as they say.
pub open spec fn whole(data: Seq<u8>) -> bool {
    data.len() == 0 || {
        &&& data.len() >= 4
        &&& le_value(data.take(4)) == MEM_DATA_FORMAT_V2 ==> {
            &&& data.len() >= 12
            &&& data.len() >= 16 + rows_size(data)
            &&& data.len() >= 16 + rows_size(data) + refs_size(data)
        }
    }
}

/// The bytes of rows and references, in the current format. The rows are read back from
/// them.
pub fn build_mem_data(rows: &Vec<PlainRow>, refs: &[u8]) -> (res: Vec<u8>)
    requires
        refs@.len() <= u32::MAX,
    ensures
        res@ == mem_bytes(written_rows(plain_rows(rows@)), refs@),
        whole(res@),
        le_value(res@.take(4)) == MEM_DATA_FORMAT_V2,
        read_rows(rows_part(res@)) == Some(plain_rows(rows@)),
        res@.subrange(
            16 + rows_size(res@) as int,
            16 + rows_size(res@) as int + refs_size(res@),
        ) == refs@,
{
    let row_bytes = serialize_rows(rows);
    proof {
        assert(row_bytes.len() <= u64::MAX);
        law_mem_data_is_read_back(row_bytes@, refs@);
    }
    frame_mem_data(row_bytes.as_slice(), refs)
}

/// The bytes of the two parts, in the current format.
pub fn frame_mem_data(rows: &[u8], refs: &[u8]) -> (res: Vec<u8>)
    requires
        refs@.len() <= u32::MAX,
    ensures
        res@ == mem_bytes(rows@, refs@),
{
    let mut res: Vec<u8> = Vec::new();
    put_u32_le(&mut res, MEM_DATA_FORMAT_V2);
    put_u64_le(&mut res, rows.len() as u64);
    res.extend_from_slice(rows);
    put_u32_le(&mut res, refs.len() as u32);
    res.extend_from_slice(refs);
    assert(res@ =~= mem_bytes(rows@, refs@));
    res
}

/// The parts of bytes. There are none where there are no bytes.
pub fn parse_mem_data(data: &[u8]) -> (res: Result<Option<MemParts>, RemoteReadError>)
    requires
        whole(data@),
    ensures
        match res {
            Ok(None) => data@.len() == 0,
            Ok(Some(parts)) => {
                let format = le_value(data@.take(4));
                &&& data@.len() > 0
                &&& format == MEM_DATA_FORMAT_V1 || format == MEM_DATA_FORMAT_V2
                &&& format == MEM_DATA_FORMAT_V1 ==> parts.rows@ == data@.skip(4)
                    && parts.refs is None
                &&& format == MEM_DATA_FORMAT_V2 ==> {
                    let at = 12 + rows_size(data@) as int;
                    &&& parts.rows@ == data@.subrange(12, at)
                    &&& parts.refs is Some
                    &&& parts.refs->0@ == data@.subrange(at + 4, at + 4 + refs_size(data@))
                }
            },
            Err(RemoteReadError::UnsupportedFormat(format)) => {
                &&& data@.len() > 0
                &&& format == le_value(data@.take(4))
                &&& format != MEM_DATA_FORMAT_V1
                &&& format != MEM_DATA_FORMAT_V2
            },
            Err(_) => false,
        },
{
    if data.len() == 0 {
        return Ok(None);
    }
    let format = get_u32_le(data);
    if format == MEM_DATA_FORMAT_V1 {
        let rest = slice_subrange(data, 4, data.len());
        assert(rest@ =~= data@.skip(4));
        Ok(Some(MemParts { rows: slice_to_vec(rest), refs: None }))
    } else if format == MEM_DATA_FORMAT_V2 {
        let rest = slice_subrange(data, 4, data.len());
        assert(rest@.take(8) =~= data@.subrange(4, 12));
        let len = data.len();
        let rows_len = get_u64_le(rest) as usize;
        assert(rows_len == rows_size(data@));
        let at: usize = 12 + rows_len;
        let rows = slice_to_vec(slice_subrange(data, 12, at));
        let rest = slice_subrange(data, at, data.len());
        assert(rest@.take(4) =~= data@.subrange(at as int, at + 4));
        let refs_len = get_u32_le(rest) as usize;
        assert(refs_len == refs_size(data@));
        let refs = slice_to_vec(slice_subrange(data, at + 4, at + 4 + refs_len));
        Ok(Some(MemParts { rows, refs: Some(refs) }))
    } else {
        Err(RemoteReadError::UnsupportedFormat(format))
    }
}

/// The two parts are read back from the bytes that they were put in.
pub proof fn law_mem_data_is_read_back(rows: Seq<u8>, refs: Seq<u8>)
    requires
        rows.len() <= u64::MAX,
        refs.len() <= u32::MAX,
    ensures
        ({
            let data = mem_bytes(rows, refs);
            let at = 12 + rows_size(data) as int;
            &&& whole(data)
            &&& le_value(data.take(4)) == MEM_DATA_FORMAT_V2
            &&& data.subrange(12, at) == rows
            &&& data.subrange(at + 4, at + 4 + refs_size(data)) == refs
        }),
{
    let data = mem_bytes(rows, refs);
    lemma_pow256_values();
    lemma_le_bytes_len(MEM_DATA_FORMAT_V2 as nat, 4);
    lemma_le_bytes_len(rows.len(), 8);
    lemma_le_bytes_len(refs.len(), 4);
    lemma_le_roundtrip(MEM_DATA_FORMAT_V2 as nat, 4);
    lemma_le_roundtrip(rows.len(), 8);
    lemma_le_roundtrip(refs.len(), 4);
    assert(data.take(4) =~= le_bytes(MEM_DATA_FORMAT_V2 as nat, 4));
    assert(data.subrange(4, 12) =~= le_bytes(rows.len(), 8));
    let at = 12 + rows.len() as int;
    assert(data.subrange(at, at + 4) =~= le_bytes(refs.len(), 4));
    assert(data.subrange(12, at) =~= rows);
    assert(data.subrange(at + 4, at + 4 + refs.len()) =~= refs);
}

/// A version of an inner key, as a memory table takes it.
pub struct MemEntry {
    /// The inner key.
    pub key: Vec<u8>,
    /// When it was written.
    pub user_meta: UserMeta,
    /// Its version: when it was committed.
    pub version: u64,
    /// Its bytes.
    pub value: Vec<u8>,
}

/// The rows as a memory table takes them.
pub open spec fn entries_of(
    rows: Seq<(Seq<u8>, u64, u64, Seq<u8>)>,
    entries: Seq<MemEntry>,
) -> bool {
    &&& entries.len() == rows.len()
    &&& forall|i: int|
        0 <= i < rows.len() ==> {
            &&& (#[trigger] entries[i]).key@ == inner_of(rows[i].0)
            &&& entries[i].user_meta == (UserMeta { start_ts: rows[i].1, commit_ts: rows[i].2 })
            &&& entries[i].version == rows[i].2
            &&& entries[i].value@ == rows[i].3
        }
}

/// The versions that the bytes of rows bring into a memory table, in order.
pub fn construct_skip_list(skl_data: &[u8]) -> (res: Result<Vec<MemEntry>, RemoteReadError>)
    ensures
        match res {
            Ok(entries) => read_rows(skl_data@) is Some && entries_of(
                read_rows(skl_data@)->0,
                entries@,
            ),
            Err(RemoteReadError::Rows(_)) => read_rows(skl_data@) is None,
            Err(_) => false,
        },
{
    match deserialize_rows(skl_data) {
        Ok(rows) => Ok(entries_from_rows(&rows)),
        Err(text) => Err(RemoteReadError::Rows(text)),
    }
}

/// What the bytes bring into a memory table.
pub struct MemTableData {
    /// Versions of inner keys, in order.
    pub entries: Vec<MemEntry>,
    /// Bytes of the references to transaction files, where the format has them.
    pub refs: Option<Vec<u8>>,
}

/// The bytes of the rows.
pub open spec fn rows_part(data: Seq<u8>) -> Seq<u8> {
    if le_value(data.take(4)) == MEM_DATA_FORMAT_V1 {
        data.skip(4)
    } else {
        data.subrange(12, 12 + rows_size(data) as int)
    }
}

/// What the bytes bring into a memory table, if there are any.
pub fn construct_memtables(data: &[u8]) -> (res: Result<Option<MemTableData>, RemoteReadError>)
    requires
        whole(data@),
    ensures
        ({
            let format = le_value(data@.take(4));
            let known = format == MEM_DATA_FORMAT_V1 || format == MEM_DATA_FORMAT_V2;
            let rows = read_rows(rows_part(data@));
            match res {
                Ok(None) => data@.len() == 0,
                Ok(Some(table)) => {
                    &&& data@.len() > 0
                    &&& known
                    &&& rows is Some
                    &&& entries_of(rows->0, table.entries@)
                    &&& table.refs is Some <==> format == MEM_DATA_FORMAT_V2
                    &&& table.refs is Some ==> {
                        let at = 16 + rows_size(data@) as int;
                        table.refs->0@ == data@.subrange(at, at + refs_size(data@))
                    }
                },
                Err(RemoteReadError::UnsupportedFormat(f)) => {
                    &&& data@.len() > 0
                    &&& !known
                    &&& f == format
                },
                Err(RemoteReadError::Rows(_)) => {
                    &&& data@.len() > 0
                    &&& known
                    &&& rows is None
                },
                Err(_) => false,
            }
        }),
{
    match parse_mem_data(data) {
        Ok(None) => Ok(None),
        Ok(Some(parts)) => match construct_skip_list(parts.rows.as_slice()) {
            Ok(entries) => Ok(Some(MemTableData { entries, refs: parts.refs })),
            Err(e) => Err(e),
        },
        Err(e) => Err(e),
    }
}

/// How much memory a snapshot takes, if there is one: the bytes of the memory tables
/// and, where files are not kept remote, the estimated size of the tables.
pub fn snapshot_memory(
    has_snapshot: bool,
    mem_data_size: usize,
    ia_disabled: bool,
    estimated_tables_size: usize,
) -> (res: Result<u64, RemoteReadError>)
    requires
        mem_data_size + estimated_tables_size <= u64::MAX,
        mem_data_size + estimated_tables_size <= usize::MAX,
    ensures
        res is Ok == has_snapshot,
        res is Err ==> res->Err_0 is NoSnapshot,
        res is Ok ==> res->Ok_0 == mem_data_size + (if ia_disabled {
            estimated_tables_size as int
        } else {
            0
        }),
{
    if !has_snapshot {
        return Err(RemoteReadError::NoSnapshot);
    }
    if ia_disabled {
        Ok((mem_data_size + estimated_tables_size) as u64)
    } else {
        Ok(mem_data_size as u64)
    }
}

/// The rows as a memory table takes them.
pub fn entries_from_rows(rows: &Vec<PlainRow>) -> (res: Vec<MemEntry>)
    ensures
        entries_of(plain_rows(rows@), res@),
{
    let mut res: Vec<MemEntry> = Vec::new();
    let mut i: usize = 0;
    while i < rows.len()
        invariant
            i <= rows@.len(),
            entries_of(plain_rows(rows@).take(i as int), res@),
        decreases rows@.len() - i,
    {
        let row = &rows[i];
        let key = InnerKey::from_outer_key(row.0.as_slice());
        let ghost before = res@;
        res.push(
            MemEntry {
                key: slice_to_vec(key.deref()),
                user_meta: UserMeta::new(row.1, row.2),
                version: row.2,
                value: slice_to_vec(row.3.as_slice()),
            },
        );
        proof {
            let all = plain_rows(rows@);
            assert(all[i as int] == plain_row(*row));
            assert forall|j: int| 0 <= j < i + 1 implies {
                &&& (#[trigger] res@[j]).key@ == inner_of(all.take(i + 1)[j].0)
                &&& res@[j].user_meta == (UserMeta {
                    start_ts: all.take(i + 1)[j].1,
                    commit_ts: all.take(i + 1)[j].2,
                })
                &&& res@[j].version == all.take(i + 1)[j].2
                &&& res@[j].value@ == all.take(i + 1)[j].3
            } by {
                if j < i {
                    assert(res@[j] == before[j]);
                    assert(all.take(i as int)[j] == all.take(i + 1)[j]);
                }
            }
        }
        i = i + 1;
    }
    assert(plain_rows(rows@).take(rows@.len() as int) =~= plain_rows(rows@));
    res
}

} // verus!
