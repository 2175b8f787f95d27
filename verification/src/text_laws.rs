//! What text tells of numbers and bytes, and the keys of answers of what they answer.
use vstd::prelude::*;

use crate::buf::content;
use crate::read::change_set::{cache_key_of, ranges_bytes, KeyRange};
use crate::text::{dec_text, hex_digit, hex_of};

verus! {

/// The number that a digit stands for.
pub open spec fn digit(c: char) -> int {
    if c <= '9' {
        c as int - '0' as int
    } else {
        c as int - 'a' as int + 10
    }
}

/// The number that digits of base ten stand for.
pub open spec fn read_dec(s: Seq<char>) -> int
    decreases s.len(),
{
    if s.len() == 0 {
        0
    } else {
        read_dec(s.drop_last()) * 10 + digit(s.last())
    }
}

proof fn lemma_digit(d: nat)
    requires
        d < 16,
    ensures
        digit(hex_digit(d)) == d,
        hex_digit(d) != ':',
        d < 10 ==> '0' <= hex_digit(d) <= '9',
{
}

/// A number is read back from its text, which has only digits.
pub proof fn law_number_is_read_back(n: nat)
    ensures
        read_dec(dec_text(n)) == n,
        dec_text(n).len() > 0,
        forall|i: int| 0 <= i < dec_text(n).len() ==> '0' <= #[trigger] dec_text(n)[i] <= '9',
    decreases n,
{
    lemma_digit(n % 10);
    let s = dec_text(n);
    if n < 10 {
        assert(s.drop_last().len() == 0);
        assert(read_dec(s.drop_last()) == 0);
    } else {
        law_number_is_read_back(n / 10);
        assert(s.drop_last() =~= dec_text(n / 10));
        assert(s.last() == hex_digit(n % 10));
    }
}

/// Each byte is read back from its two digits.
pub proof fn law_bytes_are_read_back(data: Seq<u8>)
    ensures
        hex_of(data).len() == 2 * data.len(),
        forall|i: int|
            0 <= i < data.len() ==> #[trigger] data[i] == digit(hex_of(data)[2 * i]) * 16 + digit(
                hex_of(data)[2 * i + 1],
            ),
    decreases data.len(),
{
    if data.len() > 0 {
        let init = data.drop_last();
        law_bytes_are_read_back(init);
        let h = hex_of(data);
        let b = data.last();
        lemma_digit((b / 16) as nat);
        lemma_digit((b % 16) as nat);
        assert forall|i: int| 0 <= i < data.len() implies #[trigger] data[i] == digit(h[2 * i])
            * 16 + digit(h[2 * i + 1]) by {
            if i < init.len() {
                assert(data[i] == init[i]);
                assert(h[2 * i] == hex_of(init)[2 * i]);
                assert(h[2 * i + 1] == hex_of(init)[2 * i + 1]);
            } else {
                assert(h[2 * i] == hex_digit((b / 16) as nat));
                assert(h[2 * i + 1] == hex_digit((b % 16) as nat));
            }
        }
    }
}

/// Two parts with a colon between them, of which the first has none, are told apart.
proof fn lemma_parts(a: Seq<char>, b: Seq<char>, c: Seq<char>, d: Seq<char>)
    requires
        a + seq![':'] + b == c + seq![':'] + d,
        forall|i: int| 0 <= i < a.len() ==> #[trigger] a[i] != ':',
        forall|i: int| 0 <= i < c.len() ==> #[trigger] c[i] != ':',
    ensures
        a == c,
        b == d,
{
    let x = a + seq![':'] + b;
    let y = c + seq![':'] + d;
    assert(x[a.len() as int] == ':');
    assert(y[c.len() as int] == ':');
    if a.len() < c.len() {
        assert(y[a.len() as int] == c[a.len() as int]);
    } else if c.len() < a.len() {
        assert(x[c.len() as int] == a[c.len() as int]);
    }
    assert(a =~= c) by {
        assert forall|i: int| 0 <= i < a.len() implies a[i] == c[i] by {
            assert(x[i] == a[i]);
            assert(y[i] == c[i]);
        }
    }
    assert(b =~= d) by {
        assert(x.len() == a.len() + 1 + b.len());
        assert forall|i: int| 0 <= i < b.len() implies b[i] == d[i] by {
            assert(x[a.len() + 1 + i] == b[i]);
            assert(y[a.len() + 1 + i] == d[i]);
        }
    }
}

/// An answer is cached under a key that another shard, version, sequence or list of keys does
/// not have.
pub proof fn law_cache_keys_differ(
    id: u64,
    ver: u64,
    seq: u64,
    ranges: Seq<KeyRange>,
    id2: u64,
    ver2: u64,
    seq2: u64,
    ranges2: Seq<KeyRange>,
)
    requires
        cache_key_of(id, ver, seq, ranges) == cache_key_of(id2, ver2, seq2, ranges2),
    ensures
        id == id2,
        ver == ver2,
        seq == seq2,
        ranges_bytes(ranges) == ranges_bytes(ranges2),
{
    let (a, b, c) = (dec_text(id as nat), dec_text(ver as nat), dec_text(seq as nat));
    let (a2, b2, c2) = (dec_text(id2 as nat), dec_text(ver2 as nat), dec_text(seq2 as nat));
    let (h, h2) = (hex_of(ranges_bytes(ranges)), hex_of(ranges_bytes(ranges2)));
    let colon = seq![':'];
    law_number_is_read_back(id as nat);
    law_number_is_read_back(ver as nat);
    law_number_is_read_back(seq as nat);
    law_number_is_read_back(id2 as nat);
    law_number_is_read_back(ver2 as nat);
    law_number_is_read_back(seq2 as nat);
    assert(cache_key_of(id, ver, seq, ranges) =~= a + colon + (b + colon + (c + colon + h)));
    assert(cache_key_of(id2, ver2, seq2, ranges2) =~= a2 + colon + (b2 + colon + (c2 + colon
        + h2)));
    lemma_parts(a, b + colon + (c + colon + h), a2, b2 + colon + (c2 + colon + h2));
    lemma_parts(b, c + colon + h, b2, c2 + colon + h2);
    lemma_parts(c, h, c2, h2);
    let (x, y) = (ranges_bytes(ranges), ranges_bytes(ranges2));
    law_bytes_are_read_back(x);
    law_bytes_are_read_back(y);
    assert forall|i: int| 0 <= i < x.len() implies x[i] == y[i] by {
        assert(x[i] == digit(h[2 * i]) * 16 + digit(h[2 * i + 1]));
        assert(y[i] == digit(h2[2 * i]) * 16 + digit(h2[2 * i + 1]));
    }
    assert(x =~= y);
}

/// Lists of as many ranges with keys of the same lengths have the same bytes only where they
/// are the same.
pub proof fn law_ranges_have_their_bytes(ranges: Seq<KeyRange>, other: Seq<KeyRange>, i: int)
    requires
        ranges_bytes(ranges) == ranges_bytes(other),
        ranges.len() == other.len(),
        forall|j: int|
            0 <= j < ranges.len() ==> content((#[trigger] ranges[j]).0).len() == content(
                other[j].0,
            ).len() && content(ranges[j].1).len() == content(other[j].1).len(),
        0 <= i < ranges.len(),
    ensures
        content(ranges[i].0) == content(other[i].0),
        content(ranges[i].1) == content(other[i].1),
    decreases ranges.len(),
{
    let (x, y) = (ranges.drop_last(), other.drop_last());
    let n = ranges.len() - 1;
    let (a, b) = (content(ranges[n].0), content(ranges[n].1));
    let (c, d) = (content(other[n].0), content(other[n].1));
    let (r, s) = (ranges_bytes(x), ranges_bytes(y));
    let all = ranges_bytes(ranges);
    assert(all == r + a + b);
    assert(all == s + c + d);
    assert(r.len() == s.len());
    assert(b =~= d) by {
        assert forall|k: int| 0 <= k < b.len() implies b[k] == d[k] by {
            assert((r + a + b)[r.len() + a.len() + k] == b[k]);
            assert((s + c + d)[r.len() + a.len() + k] == d[k]);
        }
    }
    assert(a =~= c) by {
        assert forall|k: int| 0 <= k < a.len() implies a[k] == c[k] by {
            assert((r + a + b)[r.len() + k] == a[k]);
            assert((s + c + d)[r.len() + k] == c[k]);
        }
    }
    assert(r =~= s) by {
        assert forall|k: int| 0 <= k < r.len() implies r[k] == s[k] by {
            assert((r + a + b)[k] == r[k]);
            assert((s + c + d)[k] == s[k]);
        }
    }
    if i < n {
        assert forall|j: int| 0 <= j < x.len() implies content((#[trigger] x[j]).0).len()
            == content(y[j].0).len() && content(x[j].1).len() == content(y[j].1).len() by {
            assert(x[j] == ranges[j] && y[j] == other[j]);
        }
        law_ranges_have_their_bytes(x, y, i);
    }
}

} // verus!
