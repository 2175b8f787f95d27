//! Keys of tables.
//!
//! The keys of a table begin with the letter `t` and eight bytes that hold the table id
//! with its sign turned, the highest byte first, so that keys are ordered as table ids.
use vstd::prelude::*;

use crate::key::{lemma_lt_common_prefix, lex_lt};

verus! {

/// First byte of the keys of a table, the letter `t`.
pub const TABLE_PREFIX: u8 = 116;

/// How many bytes the keys of one table have in common.
pub const TABLE_PREFIX_KEY_LEN: usize = 9;

/// Half of what eight bytes can hold.
pub const SIGN_MARK: u64 = 0x8000_0000_0000_0000;

/// The number that stands for a table id: ids and these numbers have the same order.
pub open spec fn unsigned_id(id: i64) -> nat {
    (id + SIGN_MARK) as nat
}

/// The `len` lowest bytes of a number, the highest first.
pub open spec fn be_bytes(n: nat, len: nat) -> Seq<u8>
    decreases len,
{
    if len == 0 {
        Seq::empty()
    } else {
        be_bytes(n / 256, (len - 1) as nat).push((n % 256) as u8)
    }
}

/// The number that bytes write, the highest first.
pub open spec fn be_value(s: Seq<u8>) -> nat
    decreases s.len(),
{
    if s.len() == 0 {
        0
    } else {
        be_value(s.drop_last()) * 256 + s.last() as nat
    }
}

/// 256 to the power of `len`.
pub open spec fn limit(len: nat) -> nat
    decreases len,
{
    if len == 0 {
        1
    } else {
        256 * limit((len - 1) as nat)
    }
}

/// What the keys of a table begin with.
pub open spec fn table_prefix(id: i64) -> Seq<u8> {
    seq![TABLE_PREFIX] + be_bytes(unsigned_id(id), 8)
}

/// The table that a key belongs to, if it is the key of a table.
pub open spec fn table_id_of(key: Seq<u8>) -> Option<i64> {
    if key.len() >= TABLE_PREFIX_KEY_LEN && key[0] == TABLE_PREFIX {
        Some((be_value(key.subrange(1, 9)) - SIGN_MARK) as i64)
    } else {
        None
    }
}

proof fn lemma_limit()
    ensures
        limit(8) == 0x1_0000_0000_0000_0000,
{
    reveal_with_fuel(limit, 9);
}

proof fn lemma_be_len(n: nat, len: nat)
    ensures
        be_bytes(n, len).len() == len,
    decreases len,
{
    if len > 0 {
        lemma_be_len(n / 256, (len - 1) as nat);
    }
}

proof fn lemma_be_value(n: nat, len: nat)
    requires
        n < limit(len),
    ensures
        be_value(be_bytes(n, len)) == n,
    decreases len,
{
    if len > 0 {
        lemma_be_value(n / 256, (len - 1) as nat);
        let s = be_bytes(n, len);
        assert(s.drop_last() =~= be_bytes(n / 256, (len - 1) as nat));
    }
}

proof fn lemma_value_below(s: Seq<u8>)
    ensures
        be_value(s) < limit(s.len()),
    decreases s.len(),
{
    if s.len() > 0 {
        lemma_value_below(s.drop_last());
    }
}

proof fn lemma_value_bytes(s: Seq<u8>)
    ensures
        be_bytes(be_value(s), s.len()) == s,
    decreases s.len(),
{
    if s.len() > 0 {
        lemma_value_bytes(s.drop_last());
        let rest = be_value(s.drop_last());
        assert((rest * 256 + s.last() as nat) / 256 == rest);
        assert((rest * 256 + s.last() as nat) % 256 == s.last() as nat);
        assert(be_bytes(be_value(s), s.len()) =~= s.drop_last().push(s.last()));
        assert(s.drop_last().push(s.last()) =~= s);
    } else {
        assert(be_bytes(be_value(s), s.len()) =~= s);
    }
}

/// What is behind two byte strings of one length does not matter to their order.
proof fn lemma_lt_extends(a: Seq<u8>, b: Seq<u8>, x: Seq<u8>, y: Seq<u8>)
    requires
        a.len() == b.len(),
        lex_lt(a, b),
    ensures
        lex_lt(a + x, b + y),
    decreases a.len(),
{
    assert((a + x)[0] == a[0]);
    assert((b + y)[0] == b[0]);
    if a[0] == b[0] {
        lemma_lt_extends(a.drop_first(), b.drop_first(), x, y);
        assert((a + x).drop_first() =~= a.drop_first() + x);
        assert((b + y).drop_first() =~= b.drop_first() + y);
    }
}

proof fn lemma_be_order(n: nat, m: nat, len: nat)
    requires
        n < m < limit(len),
    ensures
        lex_lt(be_bytes(n, len), be_bytes(m, len)),
    decreases len,
{
    let (a, b) = (be_bytes(n / 256, (len - 1) as nat), be_bytes(m / 256, (len - 1) as nat));
    let (x, y) = (seq![(n % 256) as u8], seq![(m % 256) as u8]);
    lemma_be_len(n / 256, (len - 1) as nat);
    lemma_be_len(m / 256, (len - 1) as nat);
    assert(be_bytes(n, len) =~= a + x);
    assert(be_bytes(m, len) =~= b + y);
    if n / 256 < m / 256 {
        lemma_be_order(n / 256, m / 256, (len - 1) as nat);
        lemma_lt_extends(a, b, x, y);
    } else {
        assert(n % 256 < m % 256);
        lemma_lt_common_prefix(a, x, y);
    }
}

/// A key begins with what the keys of a table begin with if and only if the table is the
/// one that it belongs to.
pub proof fn law_table_of_a_key(id: i64, key: Seq<u8>)
    ensures
        table_prefix(id).is_prefix_of(key) <==> table_id_of(key) == Some(id),
        table_prefix(id).len() == TABLE_PREFIX_KEY_LEN,
{
    lemma_limit();
    lemma_be_len(unsigned_id(id), 8);
    let p = table_prefix(id);
    if p.is_prefix_of(key) {
        assert(key.subrange(0, 9) =~= p);
        assert(key.subrange(1, 9) =~= be_bytes(unsigned_id(id), 8)) by {
            assert forall|i: int| 0 <= i < 8 implies key.subrange(1, 9)[i] == be_bytes(
                unsigned_id(id),
                8,
            )[i] by {
                assert(key.subrange(0, 9)[i + 1] == p[i + 1]);
            }
        }
        assert(key[0] == key.subrange(0, 9)[0]);
        lemma_be_value(unsigned_id(id), 8);
    }
    if table_id_of(key) == Some(id) {
        let s = key.subrange(1, 9);
        lemma_value_below(s);
        lemma_value_bytes(s);
        assert(unsigned_id(id) == be_value(s));
        assert(p =~= key.subrange(0, 9));
    }
}

/// The keys of tables have the order of the table ids.
pub proof fn law_tables_are_in_order(a: i64, b: i64, x: Seq<u8>, y: Seq<u8>)
    requires
        a < b,
    ensures
        lex_lt(table_prefix(a) + x, table_prefix(b) + y),
{
    lemma_limit();
    lemma_be_order(unsigned_id(a), unsigned_id(b), 8);
    lemma_be_len(unsigned_id(a), 8);
    lemma_be_len(unsigned_id(b), 8);
    lemma_lt_common_prefix(
        seq![TABLE_PREFIX],
        be_bytes(unsigned_id(a), 8),
        be_bytes(unsigned_id(b), 8),
    );
    lemma_lt_extends(table_prefix(a), table_prefix(b), x, y);
}

/// The number that stands for a table id.
fn to_unsigned(id: i64) -> (res: u64)
    ensures
        res == unsigned_id(id),
{
    if id >= 0 {
        id as u64 + SIGN_MARK
    } else {
        (id + 0x7fff_ffff_ffff_ffff + 1) as u64
    }
}

/// What the keys of a table begin with.
pub fn encode_table_prefix_key(id: i64) -> (res: Vec<u8>)
    ensures
        res@ == table_prefix(id),
{
    let n = to_unsigned(id);
    let mut digits: Vec<u8> = Vec::new();
    let mut rest = n;
    let mut i: usize = 0;
    assert(be_bytes(rest as nat, 8) =~= be_bytes(rest as nat, 8) + digits@.reverse());
    while i < 8
        invariant
            i <= 8,
            digits@.len() == i,
            be_bytes(n as nat, 8) == be_bytes(rest as nat, (8 - i) as nat) + digits@.reverse(),
        decreases 8 - i,
    {
        let ghost was = digits@;
        let ghost part = be_bytes(rest as nat, (8 - i) as nat);
        digits.push((rest % 256) as u8);
        proof {
            let less = be_bytes((rest / 256) as nat, (8 - i - 1) as nat);
            assert(part =~= less.push((rest % 256) as u8));
            assert(digits@.reverse() =~= seq![(rest % 256) as u8] + was.reverse());
            assert(part + was.reverse() =~= less + digits@.reverse());
        }
        rest = rest / 256;
        i = i + 1;
    }
    let mut res: Vec<u8> = Vec::new();
    res.push(TABLE_PREFIX);
    let mut k: usize = 8;
    while k > 0
        invariant
            k <= 8,
            digits@.len() == 8,
            res@ =~= seq![TABLE_PREFIX] + digits@.skip(k as int).reverse(),
        decreases k,
    {
        k = k - 1;
        res.push(digits[k]);
        assert(digits@.skip(k as int).reverse() =~= digits@.skip(k + 1).reverse().push(
            digits@[k as int],
        ));
    }
    proof {
        assert(digits@.skip(0) =~= digits@);
        assert(be_bytes(rest as nat, 0) =~= Seq::<u8>::empty());
        assert(be_bytes(n as nat, 8) =~= digits@.reverse());
    }
    res
}

/// The table that a key belongs to, if it is the key of a table.
pub fn decode_table_id(key: &[u8]) -> (res: Option<i64>)
    ensures
        res == table_id_of(key@),
{
    if key.len() < TABLE_PREFIX_KEY_LEN || key[0] != TABLE_PREFIX {
        return None;
    }
    let mut n: u64 = 0;
    let mut i: usize = 1;
    let ghost s = key@.subrange(1, 9);
    assert(s.take(0) =~= Seq::<u8>::empty());
    while i < 9
        invariant
            1 <= i <= 9,
            key@.len() >= 9,
            s == key@.subrange(1, 9),
            n == be_value(s.take(i - 1)),
        decreases 9 - i,
    {
        proof {
            assert(s.take(i as int).drop_last() =~= s.take(i - 1));
            assert(s.take(i as int).last() == key@[i as int]);
            lemma_value_below(s.take(i as int));
            lemma_limit();
            lemma_limit_grows(i as nat, 8);
        }
        n = n * 256 + key[i] as u64;
        i = i + 1;
    }
    assert(s.take(8) =~= s);
    if n >= SIGN_MARK {
        Some((n - SIGN_MARK) as i64)
    } else {
        Some(n as i64 - 0x7fff_ffff_ffff_ffff - 1)
    }
}

proof fn lemma_limit_grows(a: nat, b: nat)
    requires
        a <= b,
    ensures
        limit(a) <= limit(b),
    decreases b,
{
    if a < b {
        lemma_limit_grows(a, (b - 1) as nat);
    }
}

} // verus!
