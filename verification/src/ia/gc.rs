//! Which local files are garbage.
use vstd::prelude::*;

use crate::file_meta::FileType;
use crate::ia::filename::{names_meta_of, parse_table_meta_filename};
use crate::ia::segment::FileSegmentIdent;

verus! {

/// Nanoseconds of a second.
pub const NS_PER_SEC: u64 = 1_000_000_000;

/// Why garbage could not be collected.
#[derive(Debug)]
pub enum Error {
    /// A file or directory is not what it should be.
    IaGc(String),
    /// Input or output failed.
    Io(String),
}

impl Error {
    /// What is told of the error.
    pub open spec fn text(self) -> Seq<char> {
        match self {
            Error::IaGc(s) => "IA GC error "@ + s@,
            Error::Io(s) => "IA GC IO error "@ + s@,
        }
    }

    /// What is told of the error.
    pub fn message(&self) -> (res: String)
        ensures
            res@ == self.text(),
    {
        let mut res = String::new();
        match self {
            Error::IaGc(s) => {
                res.append("IA GC error ");
                res.append(s.as_str());
            },
            Error::Io(s) => {
                res.append("IA GC IO error ");
                res.append(s.as_str());
            },
        }
        assert(res@ =~= self.text());
        res
    }
}

/// When local files are garbage.
#[derive(Clone, Copy, Debug, PartialEq, Eq, Structural)]
pub struct IaGcConfig {
    /// How long table meta is kept that is not used, in nanoseconds.
    pub meta_lifetime_ns: u64,
    /// How often segments are looked at, in nanoseconds.
    pub segment_interval_ns: u64,
    /// How long temporary files are kept, in nanoseconds.
    pub tmp_lifetime_ns: u64,
}

impl Default for IaGcConfig {
    fn default() -> (res: Self)
        ensures
            res.meta_lifetime_ns == 86400 * NS_PER_SEC,
            res.segment_interval_ns == 86400 * NS_PER_SEC,
            res.tmp_lifetime_ns == 60 * NS_PER_SEC,
    {
        IaGcConfig {
            meta_lifetime_ns: 86400 * NS_PER_SEC,
            segment_interval_ns: 86400 * NS_PER_SEC,
            tmp_lifetime_ns: 60 * NS_PER_SEC,
        }
    }
}

/// What becomes of a local file.
#[derive(Clone, Copy, Debug, PartialEq, Eq, Structural)]
pub enum MetaFileFate {
    /// It is not named like table meta and stays.
    InvalidName,
    /// It stays.
    Keep,
    /// It is the table meta of the file, and garbage.
    Remove(u64),
}

/// What becomes of a local file of table meta. `age_ns` is how long ago it was
/// modified; files for which `ignore` says so stay.
pub fn handle_meta_file<F: Fn(u64) -> bool>(
    config: &IaGcConfig,
    filename: &str,
    age_ns: u64,
    ignore: F,
) -> (res: MetaFileFate)
    requires
        forall|id: u64| call_requires(ignore, (id,)),
    ensures
        match res {
            MetaFileFate::InvalidName => forall|id: u64, ft: FileType|
                !#[trigger] names_meta_of(filename@, id, ft),
            MetaFileFate::Keep => exists|id: u64, ft: FileType|
                {
                    &&& #[trigger] names_meta_of(filename@, id, ft)
                    &&& call_ensures(ignore, (id,), true) || age_ns <= config.meta_lifetime_ns
                },
            MetaFileFate::Remove(id) => {
                &&& exists|ft: FileType| #[trigger] names_meta_of(filename@, id, ft)
                &&& call_ensures(ignore, (id,), false)
                &&& age_ns > config.meta_lifetime_ns
            },
        },
{
    let (file_id, ft) = match parse_table_meta_filename(filename) {
        Some(parsed) => parsed,
        None => {
            return MetaFileFate::InvalidName;
        },
    };
    assert(names_meta_of(filename@, file_id, ft));
    if ignore(file_id) {
        return MetaFileFate::Keep;
    }
    if age_ns > config.meta_lifetime_ns {
        return MetaFileFate::Remove(file_id);
    }
    MetaFileFate::Keep
}

/// Whether the local file of a segment is garbage: it has the name of a segment
/// that is not cached, and `ignore` does not say that it stays.
pub fn handle_segment<F: Fn(u64) -> bool>(
    segment: Option<FileSegmentIdent>,
    is_cached: bool,
    ignore: F,
) -> (res: bool)
    requires
        forall|id: u64| call_requires(ignore, (id,)),
    ensures
        match segment {
            Some(ident) => if res {
                call_ensures(ignore, (ident.file_id,), false) && !is_cached
            } else {
                call_ensures(ignore, (ident.file_id,), true) || is_cached
            },
            None => !res,
        },
{
    match segment {
        Some(ident) => if ignore(ident.file_id) {
            false
        } else {
            !is_cached
        },
        None => false,
    }
}

/// Whether a temporary file is garbage.
pub fn handle_temp(config: &IaGcConfig, age_ns: u64) -> (res: bool)
    ensures
        res == (age_ns >= config.tmp_lifetime_ns),
{
    age_ns >= config.tmp_lifetime_ns
}

/// Whether segments are to be looked at: there is a place for them, and the last
/// look was long enough ago.
pub fn segment_gc_is_due(config: &IaGcConfig, num_paths: usize, elapsed_ns: u64) -> (res: bool)
    ensures
        res == (num_paths > 0 && elapsed_ns >= config.segment_interval_ns),
{
    num_paths > 0 && elapsed_ns >= config.segment_interval_ns
}

} // verus!
