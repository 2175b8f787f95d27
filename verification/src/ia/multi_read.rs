//! Reads that reach over several segments of a file.
use bytes::Bytes;
use vstd::prelude::*;

use crate::buf::content;
use crate::ia::file::{IaFile, Remote};
use crate::ia::segment::{
    aligned, lemma_some_segment, nth_segment, segment_of, IaError,
};

verus! {

/// The parts begin where the range begins, each where the one before ends, and end where
/// the range ends.
pub open spec fn tile(parts: Seq<(u64, u64)>, start: u64, end: u64) -> bool {
    if start >= end {
        parts.len() == 0
    } else {
        &&& parts.len() > 0
        &&& parts[0].0 == start
        &&& parts.last().1 == end
        &&& forall|i: int| 0 < i < parts.len() ==> (#[trigger] parts[i]).0 == parts[i - 1].1
        &&& forall|i: int| 0 <= i < parts.len() ==> (#[trigger] parts[i]).0 < parts[i].1
    }
}

impl Remote {
    /// The part is in one segment.
    pub open spec fn in_one_segment(self, part: (u64, u64)) -> bool {
        aligned(self.id, self.segment_offsets, part.0, part.1) is Ok
    }
}

/// The bytes of the parts, one behind the other.
pub open spec fn joined(parts: Seq<Bytes>) -> Seq<u8>
    decreases parts.len(),
{
    if parts.len() == 0 {
        Seq::empty()
    } else {
        joined(parts.drop_last()) + content(parts.last())
    }
}

impl IaFile {
    /// The parts of a range that are read each from one segment.
    pub fn multi_read_parts(&self, off: u64, length: u64) -> (res: Result<Vec<(u64, u64)>, IaError>)
        requires
            self@.wf(),
            off + length <= u64::MAX,
        ensures
            match res {
                Ok(parts) => {
                    &&& !self@.outside((off, (off + length) as u64))
                    &&& tile(parts@, off, (off + length) as u64)
                    &&& forall|i: int|
                        0 <= i < parts@.len() ==> self@.in_one_segment(#[trigger] parts@[i])
                },
                Err(e) => {
                    &&& self@.outside((off, (off + length) as u64))
                    &&& e == self@.outside_error((off, (off + length) as u64))
                },
            },
    {
        let end_off = off + length;
        let mut parts: Vec<(u64, u64)> = Vec::new();
        let mut at = off;
        let ghost offsets = self@.segment_offsets;
        while at < end_off
            invariant
                self@.wf(),
                offsets == self@.segment_offsets,
                off <= at <= end_off,
                end_off == off + length,
                at == off || offsets[0] <= off < at <= offsets.last(),
                tile(parts@, off, at),
                forall|i: int|
                    0 <= i < parts@.len() ==> self@.in_one_segment(#[trigger] parts@[i]),
            decreases end_off - at,
        {
            let found = self.get_segment_ident(at);
            let ident = match found {
                Ok(ident) => ident,
                Err(e) => {
                    proof {
                        if offsets[0] <= at < offsets.last() {
                            lemma_some_segment(offsets, at);
                        }
                    }
                    return Err(e);
                },
            };
            proof {
                lemma_some_segment(offsets, at);
                assert(ident == nth_segment(self@.id, offsets, segment_of(offsets, at)));
                assert(ident.end_off <= offsets.last());
            }
            let part_end = if ident.end_off < end_off {
                ident.end_off
            } else {
                end_off
            };
            let ghost before = parts@;
            parts.push((at, part_end));
            proof {
                assert(self@.in_one_segment((at, part_end)));
                assert forall|i: int| 0 < i < parts@.len() implies (#[trigger] parts@[i]).0
                    == parts@[i - 1].1 by {
                    if i < before.len() {
                        assert(parts@[i] == before[i] && parts@[i - 1] == before[i - 1]);
                    } else {
                        assert(parts@[i - 1] == before.last());
                    }
                }
                assert forall|i: int| 0 <= i < parts@.len() implies (#[trigger] parts@[i]).0
                    < parts@[i].1 by {
                    if i < before.len() {
                        assert(parts@[i] == before[i]);
                    }
                }
                if before.len() > 0 {
                    assert(parts@[0] == before[0]);
                }
            }
            at = part_end;
        }
        Ok(parts)
    }
}

/// The bytes of the parts, one behind the other.
pub fn join_parts(parts: &Vec<Bytes>) -> (res: Vec<u8>)
    ensures
        res@ == joined(parts@),
{
    let mut res: Vec<u8> = Vec::new();
    let mut i: usize = 0;
    assert(parts@.take(0) =~= Seq::empty());
    while i < parts.len()
        invariant
            i <= parts@.len(),
            res@ =~= joined(parts@.take(i as int)),
        decreases parts@.len() - i,
    {
        assert(parts@.take(i + 1).drop_last() =~= parts@.take(i as int));
        res.extend_from_slice(&parts[i]);
        i = i + 1;
    }
    assert(parts@.take(i as int) =~= parts@);
    res
}

/// The parts of a range, read each by itself and joined, are the bytes of the range.
pub proof fn law_joined_parts_are_the_range(
    file: Seq<u8>,
    parts: Seq<(u64, u64)>,
    start: u64,
    end: u64,
    read: Seq<Bytes>,
)
    requires
        tile(parts, start, end),
        start <= end <= file.len(),
        read.len() == parts.len(),
        forall|i: int|
            0 <= i < parts.len() ==> content(#[trigger] read[i]) == file.subrange(
                parts[i].0 as int,
                parts[i].1 as int,
            ),
    ensures
        joined(read) == file.subrange(start as int, end as int),
    decreases parts.len(),
{
    if parts.len() == 0 {
        assert(file.subrange(start as int, end as int) =~= Seq::empty());
    } else {
        let rest = parts.drop_last();
        let mid = parts.last().0;
        assert(content(read.last()) == file.subrange(mid as int, end as int));
        if parts.len() == 1 {
            assert(read.drop_last() =~= Seq::empty());
            assert(joined(read.drop_last()) == Seq::<u8>::empty());
            assert(mid == start);
            assert(Seq::<u8>::empty() + content(read.last()) =~= content(read.last()));
        } else {
            assert(mid == rest.last().1);
            assert(rest[0] == parts[0]);
            lemma_start_grows(parts, parts.len() - 2);
            assert forall|i: int| 0 < i < rest.len() implies (#[trigger] rest[i]).0
                == rest[i - 1].1 by {
                assert(rest[i] == parts[i] && rest[i - 1] == parts[i - 1]);
            }
            assert forall|i: int| 0 <= i < rest.len() implies (#[trigger] rest[i]).0
                < rest[i].1 by {
                assert(rest[i] == parts[i]);
            }
            assert forall|i: int| 0 <= i < rest.len() implies content(
                #[trigger] read.drop_last()[i],
            ) == file.subrange(rest[i].0 as int, rest[i].1 as int) by {
                assert(read.drop_last()[i] == read[i]);
            }
            assert(tile(rest, start, mid));
            law_joined_parts_are_the_range(file, rest, start, mid, read.drop_last());
            assert(file.subrange(start as int, mid as int) + file.subrange(mid as int, end as int)
                =~= file.subrange(start as int, end as int));
        }
    }
}

/// The parts begin behind one another.
proof fn lemma_start_grows(parts: Seq<(u64, u64)>, i: int)
    requires
        0 <= i < parts.len(),
        forall|i: int| 0 < i < parts.len() ==> (#[trigger] parts[i]).0 == parts[i - 1].1,
        forall|i: int| 0 <= i < parts.len() ==> (#[trigger] parts[i]).0 < parts[i].1,
    ensures
        parts[0].0 <= parts[i].0,
    decreases i,
{
    if i > 0 {
        lemma_start_grows(parts, i - 1);
        assert(parts[i].0 == parts[i - 1].1);
    }
}

} // verus!
