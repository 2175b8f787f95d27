//! Byte-wise order of keys, key prefixes and the key after a prefix.
use vstd::prelude::*;
use vstd::slice::slice_subrange;

verus! {

/// The order of keys: byte by byte, a proper prefix first.
pub open spec fn lex_lt(a: Seq<u8>, b: Seq<u8>) -> bool
    decreases a.len(),
{
    if b.len() == 0 {
        false
    } else if a.len() == 0 {
        true
    } else if a[0] != b[0] {
        a[0] < b[0]
    } else {
        lex_lt(a.drop_first(), b.drop_first())
    }
}

/// `a` is before `b` or is `b`.
pub open spec fn lex_le(a: Seq<u8>, b: Seq<u8>) -> bool {
    a == b || lex_lt(a, b)
}

/// No key is before itself.
pub proof fn lemma_lt_irreflexive(a: Seq<u8>)
    ensures
        !lex_lt(a, a),
    decreases a.len(),
{
    if a.len() > 0 {
        lemma_lt_irreflexive(a.drop_first());
    }
}

/// The order of keys is transitive.
pub proof fn lemma_lt_transitive(a: Seq<u8>, b: Seq<u8>, c: Seq<u8>)
    requires
        lex_lt(a, b),
        lex_lt(b, c),
    ensures
        lex_lt(a, c),
    decreases a.len(),
{
    if a.len() > 0 && a[0] == b[0] && b[0] == c[0] {
        lemma_lt_transitive(a.drop_first(), b.drop_first(), c.drop_first());
    }
}

/// Of two different keys one is before the other.
pub proof fn lemma_lt_total(a: Seq<u8>, b: Seq<u8>)
    ensures
        lex_lt(a, b) || a == b || lex_lt(b, a),
    decreases a.len(),
{
    if a.len() > 0 && b.len() > 0 && a[0] == b[0] {
        lemma_lt_total(a.drop_first(), b.drop_first());
        if a.drop_first() == b.drop_first() {
            assert(a =~= seq![a[0]] + a.drop_first());
            assert(b =~= seq![b[0]] + b.drop_first());
        }
    } else if a.len() == 0 && b.len() == 0 {
        assert(a =~= b);
    }
}

/// No two keys are each before the other.
pub proof fn lemma_lt_asymmetric(a: Seq<u8>, b: Seq<u8>)
    requires
        lex_lt(a, b),
    ensures
        !lex_lt(b, a),
        a != b,
{
    lemma_lt_irreflexive(a);
    if lex_lt(b, a) {
        lemma_lt_transitive(a, b, a);
    }
}

/// "Not before" is "at or after".
pub proof fn lemma_not_lt(a: Seq<u8>, b: Seq<u8>)
    ensures
        !lex_lt(a, b) <==> lex_le(b, a),
{
    lemma_lt_total(a, b);
    lemma_lt_irreflexive(a);
    if lex_lt(b, a) {
        lemma_lt_asymmetric(b, a);
    }
}

/// "At or before" is transitive, and strict as soon as one of its steps is.
pub proof fn lemma_le_transitive(a: Seq<u8>, b: Seq<u8>, c: Seq<u8>)
    requires
        lex_le(a, b),
        lex_le(b, c),
    ensures
        lex_le(a, c),
        lex_lt(a, b) || lex_lt(b, c) ==> lex_lt(a, c),
{
    if lex_lt(a, b) && lex_lt(b, c) {
        lemma_lt_transitive(a, b, c);
    }
}

/// A common beginning does not bear on the order.
pub proof fn lemma_lt_common_prefix(p: Seq<u8>, a: Seq<u8>, b: Seq<u8>)
    ensures
        lex_lt(p + a, p + b) == lex_lt(a, b),
    decreases p.len(),
{
    if p.len() == 0 {
        assert(p + a =~= a);
        assert(p + b =~= b);
    } else {
        assert((p + a).drop_first() =~= p.drop_first() + a);
        assert((p + b).drop_first() =~= p.drop_first() + b);
        lemma_lt_common_prefix(p.drop_first(), a, b);
    }
}

/// A prefix of a key is at or before the key.
pub proof fn lemma_prefix_le(p: Seq<u8>, k: Seq<u8>)
    requires
        p.is_prefix_of(k),
    ensures
        lex_le(p, k),
{
    let rest = k.skip(p.len() as int);
    assert(k =~= p + rest);
    assert(p =~= p + Seq::<u8>::empty());
    lemma_lt_common_prefix(p, Seq::<u8>::empty(), rest);
    if rest.len() == 0 {
        assert(k =~= p);
    }
}

/// Whether `a` is before `b`.
pub fn bytes_lt(a: &[u8], b: &[u8]) -> (res: bool)
    ensures
        res == lex_lt(a@, b@),
{
    let mut i: usize = 0;
    assert(a@.skip(0) =~= a@);
    assert(b@.skip(0) =~= b@);
    while i < a.len() && i < b.len()
        invariant
            i <= a@.len(),
            i <= b@.len(),
            lex_lt(a@, b@) == lex_lt(a@.skip(i as int), b@.skip(i as int)),
        decreases a@.len() - i,
    {
        if a[i] != b[i] {
            return a[i] < b[i];
        }
        assert(a@.skip(i as int).drop_first() =~= a@.skip(i + 1));
        assert(b@.skip(i as int).drop_first() =~= b@.skip(i + 1));
        i = i + 1;
    }
    i < b.len()
}

/// Whether `a` is at or before `b`.
pub fn bytes_le(a: &[u8], b: &[u8]) -> (res: bool)
    ensures
        res == lex_le(a@, b@),
{
    proof {
        lemma_not_lt(b@, a@);
    }
    !bytes_lt(b, a)
}

/// Whether the two keys are the same.
pub fn bytes_eq(a: &[u8], b: &[u8]) -> (res: bool)
    ensures
        res == (a@ == b@),
{
    if a.len() != b.len() {
        return false;
    }
    let mut i: usize = 0;
    while i < a.len()
        invariant
            i <= a@.len(),
            a@.len() == b@.len(),
            forall|j: int| 0 <= j < i ==> a@[j] == b@[j],
        decreases a@.len() - i,
    {
        if a[i] != b[i] {
            return false;
        }
        i = i + 1;
    }
    assert(a@ =~= b@);
    true
}

/// Whether `key` begins with `prefix`.
pub fn starts_with(key: &[u8], prefix: &[u8]) -> (res: bool)
    ensures
        res == prefix@.is_prefix_of(key@),
{
    if key.len() < prefix.len() {
        return false;
    }
    bytes_eq(slice_subrange(key, 0, prefix.len()), prefix)
}

/// Every byte is 255.
pub open spec fn all_max(k: Seq<u8>) -> bool {
    forall|i: int| 0 <= i < k.len() ==> k[i] == 255
}

/// What follows a prefix: the last byte that is not 255 is raised by one and
/// the bytes after it become zero. A key of nothing but 255 grows by a zero.
pub open spec fn prefix_next(k: Seq<u8>) -> Seq<u8>
    decreases k.len(),
{
    if all_max(k) {
        k.push(0)
    } else if k.last() != 255 {
        k.update(k.len() - 1, (k.last() + 1) as u8)
    } else {
        prefix_next(k.drop_last()).push(0)
    }
}

proof fn lemma_prefix_next_shape(k: Seq<u8>, i: int)
    requires
        0 <= i < k.len(),
        k[i] != 255,
        forall|j: int| i < j < k.len() ==> k[j] == 255,
    ensures
        prefix_next(k).len() == k.len(),
        forall|j: int| 0 <= j < i ==> prefix_next(k)[j] == k[j],
        prefix_next(k)[i] == k[i] + 1,
        forall|j: int| i < j < k.len() ==> prefix_next(k)[j] == 0,
    decreases k.len(),
{
    assert(!all_max(k));
    if i + 1 < k.len() {
        let head = k.drop_last();
        lemma_prefix_next_shape(head, i);
        assert forall|j: int| 0 <= j < i implies prefix_next(k)[j] == k[j] by {
            assert(prefix_next(head)[j] == head[j]);
        }
    }
}

/// Turns a key into the one that follows it as a prefix.
pub fn convert_to_prefix_next(key: &mut Vec<u8>)
    ensures
        final(key)@ == prefix_next(old(key)@),
{
    let n: usize = key.len();
    let mut i: usize = n;
    while i > 0 && key[i - 1] == 255
        invariant
            i <= n,
            n == key@.len(),
            forall|j: int| i <= j < n ==> key@[j] == 255,
        decreases i,
    {
        i = i - 1;
    }
    if i == 0 {
        key.push(0);
        return;
    }
    let ghost before = key@;
    proof {
        lemma_prefix_next_shape(before, i - 1);
    }
    let raised: u8 = key[i - 1] + 1;
    key[i - 1] = raised;
    while i < n
        invariant
            0 < i <= n,
            n == key@.len(),
            n == before.len(),
            prefix_next(before).len() == n,
            forall|j: int| 0 <= j < i ==> key@[j] == prefix_next(before)[j],
            forall|j: int| i <= j < n ==> prefix_next(before)[j] == 0,
        decreases n - i,
    {
        key[i] = 0;
        i = i + 1;
    }
    assert(key@ =~= prefix_next(before));
}

/// The keys that begin with a prefix lie between the prefix and what follows it.
pub proof fn lemma_prefix_next_bounds(p: Seq<u8>, k: Seq<u8>)
    requires
        p.is_prefix_of(k),
        !all_max(p),
    ensures
        lex_le(p, k),
        lex_lt(k, prefix_next(p)),
    decreases p.len(),
{
    lemma_prefix_le(p, k);
    if p.last() != 255 {
        let head = p.drop_last();
        let next = prefix_next(p);
        assert(k =~= head + k.skip(head.len() as int));
        assert(next =~= head + next.skip(head.len() as int));
        lemma_lt_common_prefix(head, k.skip(head.len() as int), next.skip(head.len() as int));
    } else {
        let q = p.drop_last();
        let i = choose|i: int| 0 <= i < p.len() && p[i] != 255;
        assert(q[i] != 255);
        assert(q.is_prefix_of(k));
        lemma_prefix_next_bounds(q, k);
        lemma_prefix_le(prefix_next(q), prefix_next(p));
        lemma_le_transitive(k, prefix_next(q), prefix_next(p));
    }
}

/// Where the last byte of the prefix is not 255, the keys between the prefix and
/// what follows it are those that begin with the prefix, and no others.
pub proof fn lemma_prefix_next_exact(p: Seq<u8>, k: Seq<u8>)
    requires
        p.len() > 0,
        p.last() != 255,
    ensures
        p.is_prefix_of(k) <==> lex_le(p, k) && lex_lt(k, prefix_next(p)),
    decreases p.len(),
{
    let next = prefix_next(p);
    assert(!all_max(p));
    if p.is_prefix_of(k) {
        lemma_prefix_next_bounds(p, k);
    } else if lex_le(p, k) && lex_lt(k, next) {
        assert(k != p);
        assert(lex_lt(p, k));
        if p.len() == 1 {
            assert(next[0] == p[0] + 1);
            assert(!lex_lt(k.drop_first(), next.drop_first()));
            assert(k[0] == p[0]);
            assert(p =~= k.subrange(0, 1));
        } else {
            assert(next[0] == p[0]);
            assert(k[0] == p[0]);
            let tail = p.drop_first();
            assert(next.drop_first() =~= prefix_next(tail)) by {
                assert(tail.last() == p.last());
                assert(!all_max(tail));
            }
            lemma_prefix_next_exact(tail, k.drop_first());
            assert(p =~= k.subrange(0, p.len() as int)) by {
                assert(tail =~= k.drop_first().subrange(0, tail.len() as int));
                assert forall|j: int| 0 <= j < p.len() implies p[j] == k.subrange(
                    0,
                    p.len() as int,
                )[j] by {
                    if j > 0 {
                        assert(p[j] == tail[j - 1]);
                        assert(tail[j - 1] == k.drop_first()[j - 1]);
                    }
                }
            }
        }
    }
}

/// Every key is before what follows it.
pub proof fn lemma_prefix_next_greater(k: Seq<u8>)
    ensures
        lex_lt(k, prefix_next(k)),
{
    if all_max(k) {
        lemma_prefix_le(k, k.push(0));
        assert(k != k.push(0)) by {
            assert(k.len() != k.push(0).len());
        }
    } else {
        assert(k.is_prefix_of(k));
        lemma_prefix_next_bounds(k, k);
    }
}

} // verus!
