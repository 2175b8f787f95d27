//! Which segments are cached, and where.
use bytes::Bytes;
use vstd::prelude::*;

use crate::ia::segment::FileSegmentIdent;
use crate::lists::retain_vec;

verus! {

/// Where the data of a cached segment is.
#[derive(Debug)]
pub enum FileSegmentData {
    /// In memory.
    InMem(Bytes),
    /// In the main store.
    InStore,
}

/// Where a segment is.
#[derive(Clone, Copy, Debug, PartialEq, Eq, Structural)]
pub enum FileSegmentPosition {
    /// In memory.
    InMem,
    /// In the main store.
    InStore,
    /// It is not cached.
    NotExist,
}

impl Clone for FileSegmentData {
    fn clone(&self) -> (res: Self)
        ensures
            res == *self,
    {
        match self {
            FileSegmentData::InMem(data) => FileSegmentData::InMem(data.clone()),
            FileSegmentData::InStore => FileSegmentData::InStore,
        }
    }
}

/// Where a segment is.
pub open spec fn position_of(data: Option<FileSegmentData>) -> FileSegmentPosition {
    match data {
        Some(FileSegmentData::InMem(_)) => FileSegmentPosition::InMem,
        Some(FileSegmentData::InStore) => FileSegmentPosition::InStore,
        None => FileSegmentPosition::NotExist,
    }
}

/// What a map holds for a key.
pub open spec fn lookup(
    m: Map<FileSegmentIdent, FileSegmentData>,
    ident: FileSegmentIdent,
) -> Option<FileSegmentData> {
    if m.contains_key(ident) {
        Some(m[ident])
    } else {
        None
    }
}

/// The map of the pairs; of two with one key, the later counts.
pub open spec fn map_of_pairs(s: Seq<(FileSegmentIdent, FileSegmentData)>) -> Map<
    FileSegmentIdent,
    FileSegmentData,
>
    decreases s.len(),
{
    if s.len() == 0 {
        Map::empty()
    } else {
        map_of_pairs(s.drop_last()).insert(s.last().0, s.last().1)
    }
}

proof fn lemma_without_key(s: Seq<(FileSegmentIdent, FileSegmentData)>, ident: FileSegmentIdent)
    ensures
        map_of_pairs(s.filter(|p: (FileSegmentIdent, FileSegmentData)| p.0 != ident))
            == map_of_pairs(s).remove(ident),
    decreases s.len(),
{
    reveal(Seq::filter);
    let f = |p: (FileSegmentIdent, FileSegmentData)| p.0 != ident;
    if s.len() == 0 {
        assert(map_of_pairs(s).remove(ident) =~= map_of_pairs(s));
    } else {
        lemma_without_key(s.drop_last(), ident);
        let rest = s.drop_last().filter(f);
        if f(s.last()) {
            assert(s.filter(f) =~= rest.push(s.last()));
            assert(rest.push(s.last()).drop_last() =~= rest);
        }
        assert(map_of_pairs(s.filter(f)) =~= map_of_pairs(s).remove(ident));
    }
}

proof fn lemma_has_key(s: Seq<(FileSegmentIdent, FileSegmentData)>, i: int)
    requires
        0 <= i < s.len(),
        forall|j: int| i < j < s.len() ==> (#[trigger] s[j]).0 != s[i].0,
    ensures
        map_of_pairs(s).contains_key(s[i].0),
        map_of_pairs(s)[s[i].0] == s[i].1,
    decreases s.len(),
{
    if i < s.len() - 1 {
        assert forall|j: int| i < j < s.len() - 1 implies (#[trigger] s.drop_last()[j]).0
            != s.drop_last()[i].0 by {
            assert(s[j].0 != s[i].0);
        }
        lemma_has_key(s.drop_last(), i);
        assert(s.last().0 != s[i].0);
    }
}

proof fn lemma_has_not_key(s: Seq<(FileSegmentIdent, FileSegmentData)>, ident: FileSegmentIdent)
    requires
        forall|j: int| 0 <= j < s.len() ==> (#[trigger] s[j]).0 != ident,
    ensures
        !map_of_pairs(s).contains_key(ident),
    decreases s.len(),
{
    if s.len() > 0 {
        assert forall|j: int| 0 <= j < s.len() - 1 implies (#[trigger] s.drop_last()[j]).0
            != ident by {
            assert(s[j].0 != ident);
        }
        lemma_has_not_key(s.drop_last(), ident);
        assert(s[s.len() - 1].0 != ident);
    }
}

/// The cached segments.
pub struct SegmentMap {
    pairs: Vec<(FileSegmentIdent, FileSegmentData)>,
}

impl View for SegmentMap {
    type V = Map<FileSegmentIdent, FileSegmentData>;

    closed spec fn view(&self) -> Map<FileSegmentIdent, FileSegmentData> {
        map_of_pairs(self.pairs@)
    }
}

impl SegmentMap {
    /// No segment.
    pub fn new() -> (res: Self)
        ensures
            res@ == Map::<FileSegmentIdent, FileSegmentData>::empty(),
    {
        SegmentMap { pairs: Vec::new() }
    }

    /// The data of a segment.
    pub fn get_segment(&self, ident: FileSegmentIdent) -> (res: Option<FileSegmentData>)
        ensures
            res == lookup(self@, ident),
    {
        let mut i: usize = self.pairs.len();
        while i > 0
            invariant
                i <= self.pairs@.len(),
                forall|j: int| i <= j < self.pairs@.len() ==> (#[trigger] self.pairs@[j]).0 != ident,
            decreases i,
        {
            i = i - 1;
            if self.pairs[i].0 == ident {
                proof {
                    lemma_has_key(self.pairs@, i as int);
                }
                return Some(self.pairs[i].1.clone());
            }
        }
        proof {
            lemma_has_not_key(self.pairs@, ident);
        }
        None
    }

    /// Whether the segment is cached.
    pub fn is_segment_cached(&self, ident: FileSegmentIdent) -> (res: bool)
        ensures
            res == self@.contains_key(ident),
    {
        self.get_segment(ident).is_some()
    }

    /// Where the segment is.
    pub fn segment_cached_position(&self, ident: FileSegmentIdent) -> (res: FileSegmentPosition)
        ensures
            res == position_of(lookup(self@, ident)),
    {
        match self.get_segment(ident) {
            Some(FileSegmentData::InMem(_)) => FileSegmentPosition::InMem,
            Some(FileSegmentData::InStore) => FileSegmentPosition::InStore,
            None => FileSegmentPosition::NotExist,
        }
    }

    /// Sets the data of a segment.
    pub fn set_segment_data(&mut self, ident: FileSegmentIdent, data: FileSegmentData)
        ensures
            final(self)@ == old(self)@.insert(ident, data),
    {
        self.remove(ident);
        let ghost rest = self.pairs@;
        self.pairs.push((ident, data));
        assert(self.pairs@.drop_last() =~= rest);
        assert(self@ =~= old(self)@.insert(ident, data));
    }

    /// Removes a segment and gives what it was.
    pub fn remove(&mut self, ident: FileSegmentIdent) -> (res: Option<FileSegmentData>)
        ensures
            res == lookup(old(self)@, ident),
            final(self)@ == old(self)@.remove(ident),
    {
        let res = self.get_segment(ident);
        let mut pairs: Vec<(FileSegmentIdent, FileSegmentData)> = Vec::new();
        std::mem::swap(&mut pairs, &mut self.pairs);
        proof {
            lemma_without_key(pairs@, ident);
        }
        let keep = |p: &(FileSegmentIdent, FileSegmentData)| -> (b: bool)
            ensures
                b == (p.0 != ident),
            { p.0 != ident };
        self.pairs = retain_vec(
            pairs,
            keep,
            Ghost(|p: (FileSegmentIdent, FileSegmentData)| p.0 != ident),
        );
        res
    }

    /// Moves a segment from memory to the main store. Where it is not in memory,
    /// nothing changes and the result says what there is.
    pub fn set_segment_data_from_mem_to_store(&mut self, ident: FileSegmentIdent) -> (res: Result<
        (),
        Option<FileSegmentData>,
    >)
        ensures
            match lookup(old(self)@, ident) {
                Some(FileSegmentData::InMem(_)) => res is Ok && final(self)@ == old(self)@.insert(
                    ident,
                    FileSegmentData::InStore,
                ),
                other => res == Err::<(), Option<FileSegmentData>>(other) && final(self)@ == old(self)@,
            },
    {
        match self.get_segment(ident) {
            Some(FileSegmentData::InMem(_)) => {
                self.set_segment_data(ident, FileSegmentData::InStore);
                Ok(())
            },
            other => Err(other),
        }
    }
}

} // verus!
