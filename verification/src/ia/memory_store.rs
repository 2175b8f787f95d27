//! Keeping segments in memory.
use bytes::Bytes;
use dashmap::DashMap;
use vstd::prelude::*;
use vstd::slice::slice_subrange;

use crate::buf::content;
use crate::ia::shared_map::{blobs_in, get_blob, new_blobs, remove_blob, set_blob};

verus! {

/// A read reaches beyond the data.
#[derive(Clone, Copy, Debug, PartialEq, Eq, Structural)]
pub struct ReadOutOfRange {
    /// Where the read ends.
    pub end_off: u64,
    /// How much data there is.
    pub data_len: u64,
}

/// Keeps data in memory, by key.
pub struct LocalMemoryStore {
    m: DashMap<String, Bytes>,
}

impl View for LocalMemoryStore {
    type V = Map<Seq<char>, Seq<u8>>;

    closed spec fn view(&self) -> Map<Seq<char>, Seq<u8>> {
        blobs_in(self.m)
    }
}

/// What a read gives: nothing where there is no data, an error where it reaches
/// beyond it, and the bytes otherwise.
pub open spec fn read_gives(
    m: Map<Seq<char>, Seq<u8>>,
    key: Seq<char>,
    start_off: u64,
    end_off: u64,
    res: Result<Option<Bytes>, ReadOutOfRange>,
) -> bool {
    if !m.contains_key(key) {
        res == Ok::<Option<Bytes>, ReadOutOfRange>(None)
    } else if end_off > m[key].len() {
        res matches Err(e) && e.end_off == end_off && e.data_len == m[key].len()
    } else {
        res matches Ok(Some(b)) && content(b) == m[key].subrange(start_off as int, end_off as int)
    }
}

impl LocalMemoryStore {
    /// No data yet.
    pub fn new() -> (res: Self)
        ensures
            res@ == Map::<Seq<char>, Seq<u8>>::empty(),
    {
        let res = LocalMemoryStore { m: new_blobs() };
        assert(res@ =~= Map::<Seq<char>, Seq<u8>>::empty());
        res
    }

    fn get_with_check(&self, key: &str, end_off: u64) -> (res: Result<
        Option<Bytes>,
        ReadOutOfRange,
    >)
        ensures
            if !self@.contains_key(key@) {
                res == Ok::<Option<Bytes>, ReadOutOfRange>(None)
            } else if end_off > self@[key@].len() {
                res matches Err(e) && e.end_off == end_off && e.data_len == self@[key@].len()
            } else {
                res matches Ok(Some(b)) && content(b) == self@[key@]
            },
    {
        let data = match get_blob(&self.m, key) {
            Some(data) => data,
            None => {
                return Ok(None);
            },
        };
        let bytes: &[u8] = &data;
        let data_len = bytes.len() as u64;
        if end_off > data_len {
            return Err(ReadOutOfRange { end_off, data_len });
        }
        Ok(Some(data))
    }

    /// Keeps the data.
    pub fn save(&mut self, key: &str, data: Bytes)
        ensures
            final(self)@ == old(self)@.insert(key@, content(data)),
    {
        set_blob(&mut self.m, key, data);
    }

    /// The bytes between two offsets.
    pub fn read(&self, key: &str, start_off: u64, end_off: u64) -> (res: Result<
        Option<Bytes>,
        ReadOutOfRange,
    >)
        requires
            start_off <= end_off,
        ensures
            read_gives(self@, key@, start_off, end_off, res),
    {
        match self.get_with_check(key, end_off) {
            Ok(Some(data)) => {
                let bytes: &[u8] = &data;
                let len = bytes.len();
                assert(end_off <= len);
                let part = slice_subrange(
                    bytes,
                    start_off as usize,
                    end_off as usize,
                );
                Ok(Some(Bytes::copy_from_slice(part)))
            },
            Ok(None) => Ok(None),
            Err(e) => Err(e),
        }
    }

    /// `length` bytes from an offset on.
    pub fn read_at(&self, key: &str, length: u64, offset: u64) -> (res: Result<
        Option<Bytes>,
        ReadOutOfRange,
    >)
        requires
            offset + length <= u64::MAX,
        ensures
            read_gives(self@, key@, offset, (offset + length) as u64, res),
    {
        self.read(key, offset, offset + length)
    }

    /// Forgets the data and tells whether there was any.
    pub fn remove(&mut self, key: &str) -> (res: Option<()>)
        ensures
            res is Some == old(self)@.contains_key(key@),
            final(self)@ == old(self)@.remove(key@),
    {
        if remove_blob(&mut self.m, key) {
            Some(())
        } else {
            None
        }
    }

    /// All of the data.
    pub fn handle(&self, key: &str) -> (res: Option<Bytes>)
        ensures
            match res {
                Some(b) => self@.contains_key(key@) && content(b) == self@[key@],
                None => !self@.contains_key(key@),
            },
    {
        get_blob(&self.m, key)
    }
}

/// What was saved is read back.
pub proof fn law_saved_data_is_read_back(
    m: Map<Seq<char>, Seq<u8>>,
    key: Seq<char>,
    data: Seq<u8>,
    res: Result<Option<Bytes>, ReadOutOfRange>,
)
    requires
        data.len() <= u64::MAX,
        read_gives(m.insert(key, data), key, 0, data.len() as u64, res),
    ensures
        res matches Ok(Some(b)) && content(b) == data,
{
    assert(data.subrange(0, data.len() as int) =~= data);
}

} // verus!
