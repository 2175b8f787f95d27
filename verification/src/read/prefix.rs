//! Whether a shard has data under a prefix.
use vstd::prelude::*;
use vstd::slice::{slice_subrange, slice_to_vec};

use crate::bound::InnerKey;
use crate::del_prefixes::{covers_inner, DeletePrefixes};
use crate::key::{bytes_eq, lemma_not_lt, lemma_prefix_le, lex_le, lex_lt};
use crate::keyspace::inner_of;
use crate::read::iter::{lemma_passed, lemma_stop_at, seen, stop_at, Iterator, Window};
use crate::read::mem_rows::{lemma_place, place_from};
use crate::read::rows::{before, is_place_of, rows_wf, Row, TableIterator};

verus! {

/// The prefix and what the keys of the shard begin with agree as far as both go.
pub open spec fn agree(prefix: Seq<u8>, keyspace: Seq<u8>) -> bool {
    let n = if prefix.len() < keyspace.len() {
        prefix.len() as int
    } else {
        keyspace.len() as int
    };
    prefix.take(n) == keyspace.take(n)
}

/// What the keys that are looked for begin with: what all keys of the shard begin with,
/// where the prefix is shorter and not empty.
pub open spec fn widened(prefix: Seq<u8>, keyspace: Seq<u8>) -> Seq<u8> {
    if 0 < prefix.len() < keyspace.len() {
        keyspace
    } else {
        prefix
    }
}

/// A deleted prefix covers the inner prefix.
pub open spec fn is_deleted(del: DeletePrefixes, inner_prefix: Seq<u8>) -> bool {
    exists|i: int|
        0 <= i < del@.prefixes.len() && covers_inner(
            del@.keyspace_prefix_len,
            #[trigger] del@.prefixes[i],
            inner_prefix,
        )
}

/// A row that is seen and that the walk comes to before its window ends begins with the
/// inner prefix.
pub open spec fn row_under(
    rows: Seq<Row>,
    window: Window,
    ts: u64,
    inner_prefix: Seq<u8>,
    i: int,
) -> bool {
    &&& 0 <= i < rows.len()
    &&& inner_prefix.is_prefix_of(rows[i].key)
    &&& !window.passed(rows[i].key, false)
    &&& seen(rows[i], ts) is Some
}

/// What lies between a prefix and a key that begins with it begins with it too.
proof fn lemma_between_prefix(p: Seq<u8>, a: Seq<u8>, b: Seq<u8>)
    requires
        lex_le(p, a),
        lex_le(a, b),
        p.is_prefix_of(b),
    ensures
        p.is_prefix_of(a),
    decreases p.len(),
{
    if p.len() == 0 {
        assert(p =~= a.subrange(0, 0));
    } else {
        assert(p[0] == b.subrange(0, p.len() as int)[0]);
        assert(p[0] == b[0]);
        assert(a.len() > 0);
        assert(a[0] == p[0]);
        assert(p.drop_first() =~= b.drop_first().subrange(0, p.len() - 1)) by {
            assert(p =~= b.subrange(0, p.len() as int));
        }
        lemma_between_prefix(p.drop_first(), a.drop_first(), b.drop_first());
        assert(p.drop_first() =~= a.drop_first().subrange(0, p.len() - 1));
        assert(p =~= a.subrange(0, p.len() as int)) by {
            assert forall|i: int| 0 <= i < p.len() implies p[i] == a[i] by {
                if i > 0 {
                    assert(p.drop_first()[i - 1] == a.drop_first().subrange(0, p.len() - 1)[i - 1]);
                }
            }
        }
    }
}

/// A walk that goes to a prefix stops at a row that begins with it if and only if there
/// is one to be seen.
pub proof fn law_first_row_tells_of_the_prefix(
    rows: Seq<Row>,
    window: Window,
    ts: u64,
    inner_prefix: Seq<u8>,
)
    requires
        rows_wf(rows, false),
    ensures
        ({
            let at = stop_at(rows, false, window, ts, place_from(rows, inner_prefix, 0));
            row_under(rows, window, ts, inner_prefix, at) <==> exists|i: int|
                row_under(rows, window, ts, inner_prefix, i)
        }),
{
    let start = place_from(rows, inner_prefix, 0);
    lemma_place_from(rows, inner_prefix, 0);
    let at = stop_at(rows, false, window, ts, start);
    lemma_stop_at(rows, false, window, ts, start);
    if exists|i: int| row_under(rows, window, ts, inner_prefix, i) {
        let i = choose|i: int| row_under(rows, window, ts, inner_prefix, i);
        lemma_prefix_le(inner_prefix, rows[i].key);
        lemma_not_lt(rows[i].key, inner_prefix);
        assert(i >= start);
        assert(i >= at);
        assert(inner_prefix.is_prefix_of(rows[at].key) && !window.passed(rows[at].key, false)) by {
            lemma_not_lt(rows[at].key, inner_prefix);
            lemma_first_not_before(rows, inner_prefix, start, at);
            if i > at {
                assert(before(rows[at].key, rows[i].key, false));
                if window.passed(rows[at].key, false) {
                    lemma_passed(rows[at].key, rows[i].key, false, window);
                }
                lemma_between_prefix(inner_prefix, rows[at].key, rows[i].key);
            }
        }
    }
}

/// The rows before the place are before the key, and the row at it is not.
proof fn lemma_place_from(rows: Seq<Row>, key: Seq<u8>, i: int)
    requires
        0 <= i <= rows.len(),
        forall|j: int| 0 <= j < i ==> lex_lt((#[trigger] rows[j]).key, key),
    ensures
        i <= place_from(rows, key, i) <= rows.len(),
        forall|j: int| 0 <= j < place_from(rows, key, i) ==> lex_lt((#[trigger] rows[j]).key, key),
        place_from(rows, key, i) < rows.len() ==> !lex_lt(rows[place_from(rows, key, i)].key, key),
    decreases rows.len() - i,
{
    if i < rows.len() && lex_lt(rows[i].key, key) {
        lemma_place_from(rows, key, i + 1);
    }
}

/// Behind a row that is not before the key there is none that is.
proof fn lemma_first_not_before(rows: Seq<Row>, key: Seq<u8>, start: int, at: int)
    requires
        rows_wf(rows, false),
        0 <= start <= at < rows.len(),
        !lex_lt(rows[start].key, key),
    ensures
        !lex_lt(rows[at].key, key),
{
    if at > start {
        assert(before(rows[start].key, rows[at].key, false));
        crate::read::rows::lemma_before(rows[start].key, rows[at].key, key, false);
    }
}

/// Whether the shard has a key under the prefix. What deleted prefixes cover does not
/// count.
pub fn has_data_in_prefix<I: TableIterator>(
    it: &mut Iterator<I>,
    deleting: &DeletePrefixes,
    prefix: &[u8],
) -> (res: bool)
    requires
        old(it).wf(),
        !old(it).reversed,
        old(it).range is None,
    ensures
        final(it).wf(),
        final(it).same_but_place(*old(it)),
        final(it).range == old(it).range,
        ({
            let keyspace = old(it).data@.prefix();
            let wide = widened(prefix@, keyspace);
            let inner = inner_of(wide);
            &&& !agree(prefix@, keyspace) ==> !res
            &&& is_deleted(*deleting, inner) ==> !res
            &&& agree(prefix@, keyspace) && !is_deleted(*deleting, inner) ==> {
                &&& res == (final(it).val is Some && wide.is_prefix_of(final(it).key@))
                &&& wide.len() <= old(it).inner_key_off ==> final(it).shows_from(0)
                &&& wide.len() > old(it).inner_key_off ==> exists|at: int|
                    is_place_of(old(it).inner.walk().rows, false, inner, at)
                        && #[trigger] final(it).shows_from(at)
            }
            &&& agree(prefix@, keyspace) && !is_deleted(*deleting, inner) && wide.len()
                > old(it).inner_key_off && wide == keyspace + inner ==> (res <==> exists|i: int|
                row_under(
                    old(it).inner.walk().rows,
                    old(it).window(),
                    old(it).read_ts,
                    inner,
                    i,
                ))
        }),
{
    let ghost rows = it.inner.walk().rows;
    let ghost window = it.window();
    let ghost ts = it.read_ts;
    let keyspace_len: usize;
    let wide: Vec<u8>;
    {
        let keyspace_prefix = it.data.keyspace_prefix();
        keyspace_len = keyspace_prefix.len();
        let min_off: usize = if prefix.len() < keyspace_len {
            prefix.len()
        } else {
            keyspace_len
        };
        if min_off > 0 {
            let a = slice_subrange(prefix, 0, min_off);
            let b = slice_subrange(keyspace_prefix, 0, min_off);
            assert(a@ =~= prefix@.take(min_off as int));
            assert(b@ =~= keyspace_prefix@.take(min_off as int));
            if !bytes_eq(a, b) {
                return false;
            }
        } else {
            assert(prefix@.take(0) =~= keyspace_prefix@.take(0));
        }
        wide =
        if min_off > 0 && prefix.len() < keyspace_len {
            slice_to_vec(keyspace_prefix)
        } else {
            slice_to_vec(prefix)
        };
    }
    let inner_prefix = InnerKey::from_outer_key(wide.as_slice());
    if deleting.cover_prefix(inner_prefix) {
        return false;
    }
    it.seek(wide.as_slice());
    let res = it.valid() && it.valid_for_prefix(wide.as_slice());
    proof {
        let keyspace = it.data@.prefix();
        let inner = inner_of(wide@);
        if wide@.len() > it.inner_key_off && wide@ == keyspace + inner {
            let p = choose|p: int|
                is_place_of(rows, false, inner, p) && #[trigger] it.shows_from(p);
            lemma_place(rows, inner, p, 0);
            law_first_row_tells_of_the_prefix(rows, window, ts, inner);
            lemma_stop_at(rows, false, window, ts, p);
            let at = it.inner.walk().at;
            if it.val is Some {
                let key = rows[at].key;
                assert((keyspace + inner).is_prefix_of(keyspace + key) <==> inner.is_prefix_of(
                    key,
                )) by {
                    lemma_common_prefix(keyspace, inner, key);
                }
            }
        }
    }
    res
}

/// A common beginning does not matter to whether a key begins with a prefix.
proof fn lemma_common_prefix(common: Seq<u8>, p: Seq<u8>, k: Seq<u8>)
    ensures
        (common + p).is_prefix_of(common + k) <==> p.is_prefix_of(k),
{
    let n = common.len() as int;
    if (common + p).is_prefix_of(common + k) {
        assert(p =~= k.subrange(0, p.len() as int)) by {
            assert forall|i: int| 0 <= i < p.len() implies p[i] == k[i] by {
                assert((common + p)[n + i] == (common + k).subrange(0, n + p.len())[n + i]);
            }
        }
    }
    if p.is_prefix_of(k) {
        assert((common + p) =~= (common + k).subrange(0, n + p.len())) by {
            assert forall|i: int| 0 <= i < n + p.len() implies (common + p)[i] == (common
                + k)[i] by {
                if i >= n {
                    assert(p[i - n] == k.subrange(0, p.len() as int)[i - n]);
                }
            }
        }
    }
}

} // verus!
