//! Maps of the `dashmap` crate.
//!
//! Its operations are trusted declarations; what they are believed to do is said
//! above each of them. They all take the map exclusively or leave it as it is, so
//! nothing else changes it meanwhile.
use bytes::Bytes;
use dashmap::DashMap;
use vstd::prelude::*;

use crate::buf::content;

verus! {

/// The map type of the `dashmap` crate.
#[verifier::external_type_specification]
#[verifier::external_body]
#[verifier::reject_recursive_types(K)]
#[verifier::reject_recursive_types(V)]
#[verifier::reject_recursive_types(S)]
pub struct ExDashMap<K, V, S>(dashmap::DashMap<K, V, S>);

/// The times that a map holds by file.
pub uninterp spec fn times_in(m: DashMap<u64, i64>) -> Map<u64, i64>;

/// The byte strings that a map holds by key.
pub uninterp spec fn blobs_in(m: DashMap<String, Bytes>) -> Map<Seq<char>, Seq<u8>>;

/// `DashMap::new` makes a map that holds nothing.
#[verifier::external_body]
pub(crate) fn new_times() -> (res: DashMap<u64, i64>)
    ensures
        times_in(res).dom() == Set::<u64>::empty(),
{
    DashMap::new()
}

/// `DashMap::get` finds what the map holds for a key.
#[verifier::external_body]
pub(crate) fn get_time(m: &DashMap<u64, i64>, key: u64) -> (res: Option<i64>)
    ensures
        res == if times_in(*m).contains_key(key) {
            Some(times_in(*m)[key])
        } else {
            None
        },
{
    m.get(&key).map(|x| *x.value())
}

/// `DashMap::insert` sets what the map holds for a key.
#[verifier::external_body]
pub(crate) fn set_time(m: &mut DashMap<u64, i64>, key: u64, value: i64)
    ensures
        times_in(*final(m)) == times_in(*old(m)).insert(key, value),
{
    m.insert(key, value);
}

/// `DashMap::remove` makes the map hold nothing for a key.
#[verifier::external_body]
pub(crate) fn remove_time(m: &mut DashMap<u64, i64>, key: u64)
    ensures
        times_in(*final(m)) == times_in(*old(m)).remove(key),
{
    m.remove(&key);
}

/// `DashMap::new` makes a map that holds nothing.
#[verifier::external_body]
pub(crate) fn new_blobs() -> (res: DashMap<String, Bytes>)
    ensures
        blobs_in(res).dom() == Set::<Seq<char>>::empty(),
{
    DashMap::new()
}

/// `DashMap::get` finds what the map holds for a key.
#[verifier::external_body]
pub(crate) fn get_blob(m: &DashMap<String, Bytes>, key: &str) -> (res: Option<Bytes>)
    ensures
        match res {
            Some(b) => blobs_in(*m).contains_key(key@) && content(b) == blobs_in(*m)[key@],
            None => !blobs_in(*m).contains_key(key@),
        },
{
    m.get(key).map(|x| x.value().clone())
}

/// `DashMap::insert` sets what the map holds for a key.
#[verifier::external_body]
pub(crate) fn set_blob(m: &mut DashMap<String, Bytes>, key: &str, value: Bytes)
    ensures
        blobs_in(*final(m)) == blobs_in(*old(m)).insert(key@, content(value)),
{
    m.insert(key.to_owned(), value);
}

/// `DashMap::remove` makes the map hold nothing for a key and tells whether it held
/// something.
#[verifier::external_body]
pub(crate) fn remove_blob(m: &mut DashMap<String, Bytes>, key: &str) -> (res: bool)
    ensures
        res == blobs_in(*old(m)).contains_key(key@),
        blobs_in(*final(m)) == blobs_in(*old(m)).remove(key@),
{
    m.remove(key).is_some()
}

} // verus!
