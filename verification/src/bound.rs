//! Inner keys and the bounds of sets of keys.
use vstd::prelude::*;
use vstd::slice::slice_subrange;

use crate::key::{
    bytes_eq, bytes_le, bytes_lt, lemma_le_transitive, lemma_lt_irreflexive, lemma_not_lt, lex_le,
    lex_lt,
};
use crate::keyspace::{
    in_keyspace, inner_end_of, inner_of, GLOBAL_SHARD_END_KEY, KEYSPACE_PREFIX_LEN,
};

verus! {

/// A key without the prefix of its keyspace.
#[derive(Clone, Copy)]
pub struct InnerKey<'a> {
    inner: &'a [u8],
}

impl<'a> View for InnerKey<'a> {
    type V = Seq<u8>;

    closed spec fn view(&self) -> Seq<u8> {
        self.inner@
    }
}

impl<'a> InnerKey<'a> {
    /// The bytes taken as an inner key.
    pub fn from_inner_buf(buf: &'a [u8]) -> (res: Self)
        ensures
            res@ == buf@,
    {
        InnerKey { inner: buf }
    }

    /// The inner key of a key.
    pub fn from_outer_key(outer_key: &'a [u8]) -> (res: Self)
        ensures
            res@ == inner_of(outer_key@),
    {
        if in_keyspace(outer_key) {
            let inner = slice_subrange(outer_key, KEYSPACE_PREFIX_LEN, outer_key.len());
            assert(inner@ =~= outer_key@.skip(KEYSPACE_PREFIX_LEN as int));
            InnerKey { inner }
        } else {
            InnerKey { inner: outer_key }
        }
    }

    /// The inner key of a key that ends a range.
    pub fn from_outer_end_key(outer_end_key: &'a [u8]) -> (res: Self)
        ensures
            res@ == inner_end_of(outer_end_key@),
    {
        if in_keyspace(outer_end_key) && outer_end_key.len() == KEYSPACE_PREFIX_LEN {
            InnerKey { inner: &GLOBAL_SHARD_END_KEY }
        } else {
            InnerKey::from_outer_key(outer_end_key)
        }
    }

    /// The bytes of the inner key.
    pub fn deref(&self) -> (res: &'a [u8])
        ensures
            res@ == self@,
    {
        self.inner
    }

    /// Whether this key is before the other.
    pub fn lt(&self, other: InnerKey<'_>) -> (res: bool)
        ensures
            res == lex_lt(self@, other@),
    {
        bytes_lt(self.inner, other.inner)
    }

    /// Whether this key is at or before the other.
    pub fn le(&self, other: InnerKey<'_>) -> (res: bool)
        ensures
            res == lex_le(self@, other@),
    {
        bytes_le(self.inner, other.inner)
    }

    /// Whether both are the same key.
    pub fn equal(&self, other: InnerKey<'_>) -> (res: bool)
        ensures
            res == (self@ == other@),
    {
        bytes_eq(self.inner, other.inner)
    }
}

/// A lowest key and where the keys end.
#[verifier::ext_equal]
pub struct Bound {
    /// The lowest key.
    pub lower: Seq<u8>,
    /// The highest key, or the key that ends the bound.
    pub upper: Seq<u8>,
    /// `upper` itself is inside.
    pub inclusive: bool,
}

impl Bound {
    /// `k` does not lie beyond the upper end.
    pub open spec fn reaches(self, k: Seq<u8>) -> bool {
        if self.inclusive {
            lex_le(k, self.upper)
        } else {
            lex_lt(k, self.upper)
        }
    }

    /// `k` lies inside.
    pub open spec fn has(self, k: Seq<u8>) -> bool {
        lex_le(self.lower, k) && self.reaches(k)
    }

    /// Some key lies inside, which the lowest then does.
    pub open spec fn inhabited(self) -> bool {
        self.reaches(self.lower)
    }

    /// Each of the two reaches the lowest key of the other.
    pub open spec fn overlaps(self, other: Bound) -> bool {
        self.reaches(other.lower) && other.reaches(self.lower)
    }

    /// `other` begins and ends inside.
    pub open spec fn covers(self, other: Bound) -> bool {
        &&& lex_le(self.lower, other.lower)
        &&& if self.inclusive || !other.inclusive {
            lex_le(other.upper, self.upper)
        } else {
            lex_lt(other.upper, self.upper)
        }
    }
}

/// A lowest inner key and where the inner keys end.
#[derive(Clone, Copy)]
pub struct DataBound<'a> {
    /// The lowest key.
    pub lower_bound: InnerKey<'a>,
    /// The highest key, or the key that ends the bound.
    pub upper_bound: InnerKey<'a>,
    /// `upper_bound` itself is inside.
    pub upper_bound_include: bool,
}

impl<'a> View for DataBound<'a> {
    type V = Bound;

    open spec fn view(&self) -> Bound {
        Bound {
            lower: self.lower_bound@,
            upper: self.upper_bound@,
            inclusive: self.upper_bound_include,
        }
    }
}

impl<'a> DataBound<'a> {
    /// The bound from one key to the other.
    pub fn new(
        lower_bound: InnerKey<'a>,
        upper_bound: InnerKey<'a>,
        upper_bound_include: bool,
    ) -> (res: Self)
        ensures
            res@ == (Bound {
                lower: lower_bound@,
                upper: upper_bound@,
                inclusive: upper_bound_include,
            }),
    {
        DataBound { lower_bound, upper_bound, upper_bound_include }
    }

    /// Whether the key does not lie beyond the upper end.
    pub fn reaches_key(&self, key: InnerKey<'_>) -> (res: bool)
        ensures
            res == self@.reaches(key@),
    {
        if self.upper_bound_include {
            key.le(self.upper_bound)
        } else {
            key.lt(self.upper_bound)
        }
    }

    /// Whether the two have a key in common.
    pub fn overlap_bound(&self, other: DataBound<'_>) -> (res: bool)
        ensures
            res == self@.overlaps(other@),
    {
        self.reaches_key(other.lower_bound) && other.reaches_key(self.lower_bound)
    }

    /// Whether the other bound lies inside this one.
    pub fn contains_bound(&self, other: DataBound<'_>) -> (res: bool)
        ensures
            res == self@.covers(other@),
    {
        if !self.lower_bound.le(other.lower_bound) {
            return false;
        }
        if self.upper_bound_include || !other.upper_bound_include {
            other.upper_bound.le(self.upper_bound)
        } else {
            other.upper_bound.lt(self.upper_bound)
        }
    }
}

/// Something that has a bound.
pub trait BoundedDataSet {
    /// The bound, as a value.
    spec fn bound(&self) -> Bound;

    /// The bound.
    fn data_bound(&self) -> (res: DataBound<'_>)
        ensures
            res@ == self.bound(),
    ;
}

/// The sets are in order: both their lower and their upper ends increase.
pub open spec fn ordered<T: BoundedDataSet>(sets: Seq<T>) -> bool {
    &&& forall|i: int|
        0 <= i < sets.len() ==> (#[trigger] sets[i].bound()).inclusive && lex_le(
            sets[i].bound().lower,
            sets[i].bound().upper,
        )
    &&& forall|i: int, j: int|
        0 <= i < j < sets.len() ==> lex_lt(
            (#[trigger] sets[i].bound()).lower,
            (#[trigger] sets[j].bound()).lower,
        ) && lex_lt(sets[i].bound().upper, sets[j].bound().upper)
}

/// The first of the sets that reaches `key`.
pub fn first_reaching<T: BoundedDataSet>(sets: &[T], key: InnerKey<'_>) -> (res: usize)
    requires
        ordered(sets@),
    ensures
        res <= sets@.len(),
        forall|i: int| 0 <= i < res ==> lex_lt((#[trigger] sets@[i].bound()).upper, key@),
        forall|i: int| res <= i < sets@.len() ==> lex_le(key@, (#[trigger] sets@[i].bound()).upper),
{
    let mut low: usize = 0;
    let mut high: usize = sets.len();
    while low < high
        invariant
            low <= high <= sets@.len(),
            ordered(sets@),
            forall|i: int| 0 <= i < low ==> lex_lt((#[trigger] sets@[i].bound()).upper, key@),
            forall|i: int|
                high <= i < sets@.len() ==> lex_le(key@, (#[trigger] sets@[i].bound()).upper),
        decreases high - low,
    {
        let mid: usize = low + (high - low) / 2;
        let b = sets[mid].data_bound();
        if b.upper_bound.lt(key) {
            assert forall|i: int| 0 <= i < mid + 1 implies lex_lt(
                (#[trigger] sets@[i].bound()).upper,
                key@,
            ) by {
                if i < mid {
                    lemma_le_transitive(sets@[i].bound().upper, b.upper_bound@, key@);
                }
            }
            low = mid + 1;
        } else {
            proof {
                lemma_not_lt(b.upper_bound@, key@);
            }
            assert forall|i: int| mid <= i < sets@.len() implies lex_le(
                key@,
                (#[trigger] sets@[i].bound()).upper,
            ) by {
                if i > mid {
                    lemma_le_transitive(key@, b.upper_bound@, sets@[i].bound().upper);
                }
            }
            high = mid;
        }
    }
    low
}

fn first_beyond<T: BoundedDataSet>(sets: &[T], bound: DataBound<'_>) -> (res: usize)
    requires
        ordered(sets@),
    ensures
        res <= sets@.len(),
        forall|i: int| 0 <= i < res ==> bound@.reaches((#[trigger] sets@[i].bound()).lower),
        forall|i: int|
            res <= i < sets@.len() ==> !bound@.reaches((#[trigger] sets@[i].bound()).lower),
{
    let mut low: usize = 0;
    let mut high: usize = sets.len();
    while low < high
        invariant
            low <= high <= sets@.len(),
            ordered(sets@),
            forall|i: int| 0 <= i < low ==> bound@.reaches((#[trigger] sets@[i].bound()).lower),
            forall|i: int|
                high <= i < sets@.len() ==> !bound@.reaches((#[trigger] sets@[i].bound()).lower),
        decreases high - low,
    {
        let mid: usize = low + (high - low) / 2;
        let b = sets[mid].data_bound();
        if bound.reaches_key(b.lower_bound) {
            assert forall|i: int| 0 <= i < mid + 1 implies bound@.reaches(
                (#[trigger] sets@[i].bound()).lower,
            ) by {
                if i < mid {
                    lemma_le_transitive(sets@[i].bound().lower, b.lower_bound@, bound@.upper);
                }
            }
            low = mid + 1;
        } else {
            assert forall|i: int| mid <= i < sets@.len() implies !bound@.reaches(
                (#[trigger] sets@[i].bound()).lower,
            ) by {
                if i > mid && bound@.reaches(sets@[i].bound().lower) {
                    lemma_le_transitive(b.lower_bound@, sets@[i].bound().lower, bound@.upper);
                }
            }
            high = mid;
        }
    }
    low
}

impl<'a> DataBound<'a> {
    /// Which of the ordered sets have a key in common with this bound: those from
    /// the first index up to the second.
    pub fn get_overlap_data_sets<T: BoundedDataSet>(&self, sets: &[T]) -> (res: (usize, usize))
        requires
            ordered(sets@),
        ensures
            res.0 <= res.1 <= sets@.len(),
            forall|i: int|
                0 <= i < sets@.len() ==> ((#[trigger] sets@[i].bound()).overlaps(self@) <==> res.0
                    <= i < res.1),
    {
        let left = first_reaching(sets, self.lower_bound);
        let right = first_beyond(sets, *self);
        let end: usize = if right < left {
            left
        } else {
            right
        };
        assert forall|i: int| 0 <= i < sets@.len() implies ((
        #[trigger] sets@[i].bound()).overlaps(self@) <==> left <= i < end) by {
            lemma_not_lt(sets@[i].bound().upper, self@.lower);
        }
        (left, end)
    }

    /// The first of the sets that has a key in common with this bound.
    ///
    /// `is_sorted` says that the lower ends of the sets do not decrease, which
    /// allows to stop at the first set that lies beyond this bound.
    pub fn find_overlap<T: BoundedDataSet>(&self, sets: &[T], is_sorted: bool) -> (res: Option<
        usize,
    >)
        requires
            is_sorted ==> lower_ends_sorted(sets@),
        ensures
            match res {
                Some(i) => i < sets@.len() && self@.overlaps(sets@[i as int].bound()) && forall|j: int|
                    0 <= j < i ==> !self@.overlaps((#[trigger] sets@[j].bound())),
                None => forall|j: int|
                    0 <= j < sets@.len() ==> !self@.overlaps((#[trigger] sets@[j].bound())),
            },
    {
        let mut i: usize = 0;
        while i < sets.len()
            invariant
                i <= sets@.len(),
                is_sorted ==> lower_ends_sorted(sets@),
                forall|j: int| 0 <= j < i ==> !self@.overlaps((#[trigger] sets@[j].bound())),
            decreases sets@.len() - i,
        {
            let b = sets[i].data_bound();
            if self.overlap_bound(b) {
                return Some(i);
            }
            if is_sorted && !self.reaches_key(b.lower_bound) {
                assert forall|j: int| 0 <= j < sets@.len() implies !self@.overlaps(
                    (#[trigger] sets@[j].bound()),
                ) by {
                    if j > i && self@.reaches(sets@[j].bound().lower) {
                        lemma_le_transitive(b.lower_bound@, sets@[j].bound().lower, self@.upper);
                    }
                }
                return None;
            }
            i = i + 1;
        }
        None
    }
}

/// The lower ends of the sets do not decrease.
pub open spec fn lower_ends_sorted<T: BoundedDataSet>(sets: Seq<T>) -> bool {
    forall|i: int, j: int|
        0 <= i < j < sets.len() ==> lex_le(
            (#[trigger] sets[i].bound()).lower,
            (#[trigger] sets[j].bound()).lower,
        )
}

/// Whether the lower ends of the sets do not decrease.
pub fn is_sorted_by_lower_bound<T: BoundedDataSet>(sets: &[T]) -> (res: bool)
    ensures
        res == lower_ends_sorted(sets@),
{
    if sets.len() == 0 {
        return true;
    }
    let mut i: usize = 1;
    while i < sets.len()
        invariant
            1 <= i <= sets@.len(),
            lower_ends_sorted(sets@.take(i as int)),
        decreases sets@.len() - i,
    {
        let last = sets[i - 1].data_bound();
        let next = sets[i].data_bound();
        if !last.lower_bound.le(next.lower_bound) {
            assert(!lex_le(sets@[i - 1].bound().lower, sets@[i as int].bound().lower));
            return false;
        }
        let ghost taken = sets@.take(i as int);
        let ghost more = sets@.take(i + 1);
        assert forall|a: int, b: int| 0 <= a < b < more.len() implies lex_le(
            (#[trigger] more[a].bound()).lower,
            (#[trigger] more[b].bound()).lower,
        ) by {
            assert(more[a] == taken[a]);
            if b < i {
                assert(more[b] == taken[b]);
            } else if a < i - 1 {
                assert(more[i - 1] == taken[i - 1]);
                assert(lex_le(taken[a].bound().lower, taken[i - 1].bound().lower));
                lemma_le_transitive(
                    more[a].bound().lower,
                    more[i - 1].bound().lower,
                    more[b].bound().lower,
                );
            }
        }
        i = i + 1;
    }
    assert(sets@.take(i as int) =~= sets@);
    true
}

/// Two bounds overlap exactly when some key lies in both.
pub proof fn law_overlap_is_a_common_key(a: Bound, b: Bound)
    requires
        a.inhabited(),
        b.inhabited(),
    ensures
        a.overlaps(b) <==> exists|k: Seq<u8>| a.has(k) && b.has(k),
{
    if a.overlaps(b) {
        lemma_not_lt(a.lower, b.lower);
        if lex_lt(a.lower, b.lower) {
            assert(a.has(b.lower) && b.has(b.lower));
        } else {
            assert(a.has(a.lower) && b.has(a.lower));
        }
    }
    if exists|k: Seq<u8>| a.has(k) && b.has(k) {
        let k = choose|k: Seq<u8>| a.has(k) && b.has(k);
        lemma_le_transitive(a.lower, k, b.upper);
        lemma_le_transitive(b.lower, k, a.upper);
    }
}

/// A bound that covers another holds all of its keys.
pub proof fn law_covered_keys_are_inside(a: Bound, b: Bound, k: Seq<u8>)
    requires
        a.covers(b),
        b.has(k),
    ensures
        a.has(k),
{
    lemma_le_transitive(a.lower, b.lower, k);
    lemma_le_transitive(k, b.upper, a.upper);
}

/// A bound that covers an inhabited one overlaps it.
pub proof fn law_covering_is_overlapping(a: Bound, b: Bound)
    requires
        a.covers(b),
        b.inhabited(),
    ensures
        a.overlaps(b),
{
    law_covered_keys_are_inside(a, b, b.lower);
    lemma_lt_irreflexive(b.lower);
    lemma_le_transitive(a.lower, b.lower, b.upper);
}

} // verus!
