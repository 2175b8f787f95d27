//! What walks over rows show, told by the versions that the rows have.
use bytes::Bytes;
use vstd::prelude::*;

use crate::buf::content;
use crate::key::{
    lemma_le_transitive, lemma_lt_common_prefix, lemma_lt_transitive, lemma_not_lt, lex_le, lex_lt,
};
use crate::keyspace::{inner_end_of, inner_of};
use crate::lists::lemma_joined;
use crate::range::Range;
use crate::read::get::{Ask, CfTables, ValueTable};
use crate::read::iter::{
    law_walk_shows_the_window, lemma_passed, lemma_stop_at, rows_shown, seen, stop_at, Iterator,
    Window,
};
use crate::read::laws::lemma_first_not_newer;
use crate::read::mem_rows::{law_turned_rows, place_from, turned, RowData, Scan};
use crate::read::prefix::{agree, widened};
use crate::read::rows::{is_place_of, rows_wf, version_at, Row, TableIterator};
use crate::read::txn_file::{conflicts, exists_already, locked, TxnKeys};

verus! {

/// The version is the first that is not newer than `ts`, and it is no deletion.
pub open spec fn visible(row: Row, ts: u64, k: int) -> bool {
    &&& 0 <= k < row.versions.len()
    &&& row.versions[k].version <= ts
    &&& !row.versions[k].deleted
    &&& forall|j: int| 0 <= j < k ==> (#[trigger] row.versions[j]).version > ts
}

/// A reader sees the first version of a row that is not newer than its time, unless that is a
/// deletion.
pub proof fn law_first_version_is_seen(row: Row, ts: u64)
    ensures
        seen(row, ts) matches Some(k) ==> visible(row, ts, k),
        forall|k: int| #[trigger] visible(row, ts, k) ==> seen(row, ts) == Some(k),
{
    lemma_first_not_newer(row.versions, 0, ts);
    let at = version_at(row.versions, 0, ts);
    assert forall|k: int| #[trigger] visible(row, ts, k) implies seen(row, ts) == Some(k) by {
        if k < at {
            assert(row.versions[k].version > ts);
        } else if at < k {
            assert(row.versions[at].version > ts);
        }
    }
}

/// A walk shows a row if and only if its key is in the window and the first version that is
/// not newer than the time of the reader is no deletion.
pub proof fn law_walk_shows_what_is_visible(
    rows: Seq<Row>,
    reversed: bool,
    window: Window,
    ts: u64,
    start: int,
    i: int,
)
    requires
        rows_wf(rows, reversed),
        window.starts_at(rows, reversed, start),
        0 <= i < rows.len(),
    ensures
        rows_shown(rows, reversed, window, ts, start).contains(i) <==> lex_le(
            window.lower,
            rows[i].key,
        ) && lex_lt(rows[i].key, window.upper) && exists|k: int| #[trigger]
            visible(rows[i], ts, k),
{
    law_walk_shows_the_window(rows, reversed, window, ts, start);
    law_first_version_is_seen(rows[i], ts);
    let holds = rows_shown(rows, reversed, window, ts, start).contains(i);
    if seen(rows[i], ts) is Some {
        assert(visible(rows[i], ts, seen(rows[i], ts)->0));
    }
}

/// The version is `k` or, where older versions are shown, one behind it with no deletion
/// between them.
pub open spec fn runs_to(s: Scan, row: Row, k: int, n: int) -> bool {
    ||| n == k
    ||| {
        &&& s.all_versions
        &&& k < n < row.versions.len()
        &&& forall|j: int| k < j <= n ==> !(#[trigger] row.versions[j]).deleted
    }
}

/// The key of the row lies before the end of the range and of the window.
pub open spec fn before_end(s: Scan, end: Seq<u8>, i: int) -> bool {
    &&& 0 <= i < s.rows.len()
    &&& lex_lt(s.rows[i].key, s.window.upper)
    &&& lex_lt(s.prefix + s.rows[i].key, end)
}

proof fn lemma_before_end(s: Scan, end: Seq<u8>, i: int, j: int)
    requires
        rows_wf(s.rows, false),
        0 <= i <= j,
        before_end(s, end, j),
    ensures
        before_end(s, end, i),
{
    if i < j {
        assert(lex_lt(s.rows[i].key, s.rows[j].key));
        lemma_lt_transitive(s.rows[i].key, s.rows[j].key, s.window.upper);
        lemma_lt_common_prefix(s.prefix, s.rows[i].key, s.rows[j].key);
        lemma_lt_transitive(s.prefix + s.rows[i].key, s.prefix + s.rows[j].key, end);
    }
}

proof fn lemma_items(s: Scan, at: int, nth: int, end: Seq<u8>, i: int, n: int)
    requires
        rows_wf(s.rows, false),
        0 <= at <= s.rows.len(),
        at < s.rows.len() ==> 0 <= nth < s.rows[at].versions.len(),
    ensures
        s.items_from(at, nth, end).contains((i, n)) <==> before_end(s, end, i) && {
            ||| i == at && runs_to(s, s.rows[at], nth, n)
            ||| i > at && exists|k: int| #[trigger]
                visible(s.rows[i], s.ts, k) && runs_to(s, s.rows[i], k, n)
        },
    decreases s.rows.len() - at, s.rows[at].versions.len() - nth,
{
    let all = s.items_from(at, nth, end);
    if at < s.rows.len() && before_end(s, end, at) {
        let row = s.rows[at];
        let older = nth + 1;
        let next = stop_at(s.rows, false, s.window, s.ts, at + 1);
        lemma_stop_at(s.rows, false, s.window, s.ts, at + 1);
        let first = seq![(at, nth)];
        assert(first.contains((i, n)) <==> i == at && n == nth) by {
            assert(first[0] == (at, nth));
        }
        if s.all_versions && older < row.versions.len() && !row.versions[older].deleted {
            lemma_items(s, at, older, end, i, n);
            lemma_joined(first, s.items_from(at, older, end), (i, n));
            if runs_to(s, row, older, n) {
                assert(runs_to(s, row, nth, n));
            }
            if runs_to(s, row, nth, n) && n != nth {
                assert(runs_to(s, row, older, n));
            }
        } else {
            law_first_version_is_seen(s.rows[next], s.ts);
            if next < s.rows.len() {
                assert(s.rows[next].versions.len() > 0);
            }
            lemma_items(s, next, s.nth(next), end, i, n);
            lemma_joined(first, s.items_from(next, s.nth(next), end), (i, n));
            if runs_to(s, row, nth, n) && n != nth {
                assert(row.versions[older].deleted || !s.all_versions);
            }
            if at < i < next && i < s.rows.len() {
                law_first_version_is_seen(s.rows[i], s.ts);
                assert(seen(s.rows[i], s.ts) is None);
            }
            if i == next && before_end(s, end, i) {
                assert(visible(s.rows[i], s.ts, s.nth(next)));
            }
        }
    } else {
        assert(all.len() == 0);
        if at <= i && before_end(s, end, i) {
            lemma_before_end(s, end, at, i);
        }
    }
}

proof fn lemma_place_from(rows: Seq<Row>, key: Seq<u8>, i: int)
    requires
        0 <= i <= rows.len(),
    ensures
        i <= place_from(rows, key, i) <= rows.len(),
        forall|j: int|
            i <= j < place_from(rows, key, i) ==> lex_lt((#[trigger] rows[j]).key, key),
        place_from(rows, key, i) < rows.len() ==> !lex_lt(
            rows[place_from(rows, key, i)].key,
            key,
        ),
    decreases rows.len() - i,
{
    if i < rows.len() && lex_lt(rows[i].key, key) {
        lemma_place_from(rows, key, i + 1);
    }
}

/// The range reaches back to the key: it begins there or before it. A key that is no longer
/// than what all keys begin with is before all.
pub open spec fn begun(s: Scan, start: Seq<u8>, key: Seq<u8>) -> bool {
    start.len() <= s.inner_key_off || lex_le(inner_of(start), key)
}

/// The range shows the version of the row: the key is in it, and the version is the first that
/// is not newer than the time of the reader or, where older versions are shown, one behind that
/// with no deletion between them.
pub open spec fn in_range(s: Scan, start: Seq<u8>, end: Seq<u8>, i: int, n: int) -> bool {
    &&& before_end(s, end, i)
    &&& begun(s, start, s.rows[i].key)
    &&& exists|k: int| #[trigger] visible(s.rows[i], s.ts, k) && runs_to(s, s.rows[i], k, n)
}

/// A range shows what is in it and visible, and nothing else.
pub proof fn law_range_shows_its_rows(s: Scan, start: Seq<u8>, end: Seq<u8>, i: int, n: int)
    requires
        rows_wf(s.rows, false),
    ensures
        s.range_items(start, end).contains((i, n)) <==> in_range(s, start, end, i, n),
{
    let from = s.begin(start);
    lemma_place_from(s.rows, inner_of(start), 0);
    let at = stop_at(s.rows, false, s.window, s.ts, from);
    lemma_stop_at(s.rows, false, s.window, s.ts, from);
    law_first_version_is_seen(s.rows[at], s.ts);
    if at < s.rows.len() {
        assert(s.rows[at].versions.len() > 0);
    }
    lemma_items(s, at, s.nth(at), end, i, n);
    if 0 <= i < s.rows.len() {
        law_first_version_is_seen(s.rows[i], s.ts);
        if start.len() > s.inner_key_off {
            if i < from {
                assert(lex_lt(s.rows[i].key, inner_of(start)));
                lemma_not_lt(inner_of(start), s.rows[i].key);
                lemma_not_lt(s.rows[i].key, inner_of(start));
            } else {
                lemma_not_lt(s.rows[from].key, inner_of(start));
                if from < i {
                    assert(lex_lt(s.rows[from].key, s.rows[i].key));
                    if lex_lt(s.rows[i].key, inner_of(start)) {
                        lemma_lt_transitive(s.rows[from].key, s.rows[i].key, inner_of(start));
                    }
                }
                lemma_not_lt(s.rows[i].key, inner_of(start));
            }
        }
        if from <= i < at {
            assert(seen(s.rows[i], s.ts) is None);
        }
        if i == at && before_end(s, end, i) {
            assert(visible(s.rows[i], s.ts, s.nth(at)));
        }
    }
}

/// The row is that of the version: the key with what all keys begin with before it, when it
/// was begun and committed, and the value.
pub open spec fn told(s: Scan, i: int, n: int, x: RowData) -> bool {
    let val = s.rows[i].versions[n];
    &&& x.0 == s.prefix + s.rows[i].key
    &&& x.1 == val.user_meta->0.start_ts
    &&& x.2 == val.user_meta->0.commit_ts
    &&& x.3 == content(val.value)
}

/// One of the ranges shows the row.
pub open spec fn ranges_show(s: Scan, ranges: Seq<(Bytes, Bytes)>, len: int, x: RowData) -> bool {
    exists|r: int, i: int, n: int|
        0 <= r < len && #[trigger] in_range(
            s,
            content(ranges[r].0),
            content(ranges[r].1),
            i,
            n,
        ) && told(s, i, n, x)
}

proof fn lemma_ranges_data(s: Scan, ranges: Seq<(Bytes, Bytes)>, len: int, x: RowData)
    requires
        rows_wf(s.rows, false),
        0 <= len <= ranges.len(),
    ensures
        s.ranges_data(ranges, len).contains(x) <==> ranges_show(s, ranges, len, x),
    decreases len,
{
    if len > 0 {
        let (start, end) = (content(ranges[len - 1].0), content(ranges[len - 1].1));
        let items = s.range_items(start, end);
        lemma_ranges_data(s, ranges, len - 1, x);
        lemma_joined(s.ranges_data(ranges, len - 1), s.data(items), x);
        if s.data(items).contains(x) {
            let m = choose|m: int| 0 <= m < items.len() && s.data(items)[m] == x;
            law_range_shows_its_rows(s, start, end, items[m].0, items[m].1);
            assert(items.contains(items[m]));
            assert(items[m] == (items[m].0, items[m].1));
            assert(in_range(
                s,
                content(ranges[len - 1].0),
                content(ranges[len - 1].1),
                items[m].0,
                items[m].1,
            ));
            assert(told(s, items[m].0, items[m].1, x));
        }
        if ranges_show(s, ranges, len, x) {
            let (r, i, n) = choose|r: int, i: int, n: int|
                0 <= r < len && #[trigger] in_range(
                    s,
                    content(ranges[r].0),
                    content(ranges[r].1),
                    i,
                    n,
                ) && told(s, i, n, x);
            if r == len - 1 {
                law_range_shows_its_rows(s, start, end, i, n);
                let m = choose|m: int| 0 <= m < items.len() && items[m] == (i, n);
                assert(s.data(items)[m] == x);
            }
        }
        if ranges_show(s, ranges, len - 1, x) {
            let (r, i, n) = choose|r: int, i: int, n: int|
                0 <= r < len - 1 && #[trigger] in_range(
                    s,
                    content(ranges[r].0),
                    content(ranges[r].1),
                    i,
                    n,
                ) && told(s, i, n, x);
            assert(0 <= r < len);
        }
    }
}

/// What is collected of ranges are the rows that they show, each with its key, times and
/// value; and nothing else.
pub proof fn law_rows_of_the_ranges_are_collected(
    s: Scan,
    ranges: Seq<(Bytes, Bytes)>,
    x: RowData,
)
    requires
        rows_wf(s.rows, false),
    ensures
        turned(s.ranges_data(ranges, ranges.len() as int)).contains(x) <==> ranges_show(
            s,
            ranges,
            ranges.len() as int,
            x,
        ),
{
    broadcast use vstd::seq_lib::group_to_multiset_ensures;

    let rows = s.ranges_data(ranges, ranges.len() as int);
    lemma_ranges_data(s, ranges, ranges.len() as int, x);
    law_turned_rows(rows);
    assert(rows.contains(x) == rows.to_multiset().contains(x));
    assert(turned(rows).contains(x) == turned(rows).to_multiset().contains(x));
}

/// Of a shard whose keys all begin alike, those that begin with the prefix are looked for: none
/// where the two do not agree, all where the prefix is shorter, else those of the prefix.
pub proof fn law_prefix_is_looked_for(prefix: Seq<u8>, keyspace: Seq<u8>, key: Seq<u8>)
    requires
        keyspace.is_prefix_of(key),
    ensures
        prefix.is_prefix_of(key) ==> agree(prefix, keyspace),
        prefix.len() > 0 && agree(prefix, keyspace) ==> (prefix.is_prefix_of(key) <==> widened(
            prefix,
            keyspace,
        ).is_prefix_of(key)),
        prefix.len() > 0 && agree(prefix, keyspace) ==> keyspace.is_prefix_of(
            widened(prefix, keyspace),
        ),
{
    let n = if prefix.len() < keyspace.len() {
        prefix.len() as int
    } else {
        keyspace.len() as int
    };
    assert(keyspace =~= key.take(keyspace.len() as int));
    assert(keyspace.take(n) =~= key.take(n));
    if prefix.is_prefix_of(key) {
        assert(prefix =~= key.take(prefix.len() as int));
        assert(prefix.take(n) =~= key.take(n));
    }
    if agree(prefix, keyspace) {
        if prefix.len() < keyspace.len() {
            assert(prefix.take(n) =~= prefix);
            assert(prefix =~= key.take(prefix.len() as int));
        } else {
            assert(keyspace.take(n) =~= keyspace);
            assert(keyspace =~= prefix.take(keyspace.len() as int));
        }
    }
}

/// A row conflicts with a transaction file if and only if its newest version is no deletion, the
/// file holds its key and, where a time is given, the version was committed after it.
pub proof fn law_conflicting_row(txn: TxnKeys, row: Row, since: Option<u64>)
    requires
        row.versions.len() > 0,
    ensures
        conflicts(txn, row, since) ==> exists|i: int|
            0 <= i < txn.keys@.len() && (#[trigger] txn.keys@[i])@ == row.key,
        conflicts(txn, row, since) ==> !row.versions[0].deleted,
        conflicts(txn, row, None) && row.versions[0].user_meta is Some ==> {
            let at = row.versions[0].user_meta->0.commit_ts;
            forall|t: u64| #[trigger] conflicts(txn, row, Some(t)) <==> t < at
        },
        row.versions[0].user_meta is None && since is Some ==> !conflicts(txn, row, since),
        forall|i: int|
            0 <= i < txn.keys@.len() && (#[trigger] txn.keys@[i])@ == row.key
                && !row.versions[0].deleted ==> conflicts(txn, row, None),
{
}

/// A key that must not exist does so if and only if it is in the shard and what is read of it
/// is not empty; a lock is there if and only if what is read is no deletion.
pub proof fn law_key_that_exists<T: ValueTable>(
    tables: CfTables<T>,
    others: Seq<(u64, T)>,
    range: Range,
    key: Seq<u8>,
    ts: u64,
)
    ensures
        exists_already(tables, range, key, ts) ==> lex_le(inner_of(range.start), key) && lex_lt(
            key,
            inner_end_of(range.end),
        ),
        match tables.found(Seq::empty(), Ask { key, version: ts }).0 {
            None => !exists_already(tables, range, key, ts),
            Some(v) => content(v.value).len() == 0 ==> !exists_already(tables, range, key, ts),
        },
        tables.found(Seq::empty(), Ask { key, version: ts }).0 matches Some(v)
            ==> content(v.value).len() > 0 && lex_le(inner_of(range.start), key) && lex_lt(
            key,
            inner_end_of(range.end),
        ) ==> exists_already(tables, range, key, ts),
        locked(tables, others, key, ts) <==> match tables.found(others, Ask { key, version: ts }).0 {
            None => false,
            Some(v) => !v.deleted,
        },
{
}

/// A walk that goes to a key leaves behind it the rows with lower keys and no others, or those
/// with higher keys where it goes against the order.
pub proof fn law_place_of_a_key(rows: Seq<Row>, reversed: bool, key: Seq<u8>, place: int, i: int)
    requires
        is_place_of(rows, reversed, key, place),
        0 <= i < rows.len(),
    ensures
        !reversed ==> (i < place <==> lex_lt(rows[i].key, key)),
        reversed ==> (i < place <==> lex_lt(key, rows[i].key)),
{
}

/// A walk comes to a window behind the rows with keys below it, or not below its end where it
/// goes against the order.
pub proof fn law_start_of_a_window(
    rows: Seq<Row>,
    reversed: bool,
    window: Window,
    at: int,
    i: int,
)
    requires
        window.starts_at(rows, reversed, at),
        0 <= i < rows.len(),
    ensures
        !reversed ==> (i < at <==> lex_lt(rows[i].key, window.lower)),
        reversed ==> (i < at <==> !lex_lt(rows[i].key, window.upper)),
{
}

/// A window that follows another has no key of it.
pub proof fn law_windows_in_a_row_are_apart(a: Window, b: Window, reversed: bool, key: Seq<u8>)
    requires
        b.follows(a, reversed),
        b.has(key),
    ensures
        !a.has(key),
{
    if a.has(key) {
        if reversed {
            lemma_le_transitive(b.upper, a.lower, key);
            lemma_not_lt(key, b.upper);
        } else {
            lemma_le_transitive(a.upper, b.lower, key);
            lemma_not_lt(key, a.upper);
        }
    }
}

/// The row is visible and lies before the end of the window, in the order of the walk.
pub open spec fn to_be_shown<I: TableIterator>(it: Iterator<I>, i: int) -> bool {
    let row = it.inner.walk().rows[i];
    &&& 0 <= i < it.inner.walk().rows.len()
    &&& if it.reversed {
        lex_le(it.window().lower, row.key)
    } else {
        lex_lt(row.key, it.window().upper)
    }
    &&& exists|k: int| #[trigger] visible(row, it.read_ts, k)
}

/// A walk that goes on from a row shows the first from there on that is to be shown, by the
/// version that is visible; and nothing if and only if there is none.
pub proof fn law_next_visible_row_is_shown<I: TableIterator>(it: Iterator<I>, from: int, i: int)
    requires
        it.shows_from(from),
        rows_wf(it.inner.walk().rows, it.reversed),
        0 <= from <= it.inner.walk().rows.len(),
    ensures
        it.val is Some ==> {
            let at = it.inner.walk().at;
            &&& from <= at
            &&& to_be_shown(it, at)
            &&& visible(it.inner.walk().rows[at], it.read_ts, it.inner.walk().nth)
            &&& from <= i < at ==> !to_be_shown(it, i)
        },
        it.val is None && from <= i ==> !to_be_shown(it, i),
{
    let rows = it.inner.walk().rows;
    let at = stop_at(rows, it.reversed, it.window(), it.read_ts, from);
    lemma_stop_at(rows, it.reversed, it.window(), it.read_ts, from);
    if at < rows.len() {
        law_first_version_is_seen(rows[at], it.read_ts);
        lemma_not_lt(rows[at].key, it.window().lower);
    }
    if 0 <= i < rows.len() {
        law_first_version_is_seen(rows[i], it.read_ts);
        lemma_not_lt(rows[i].key, it.window().lower);
        if at < i && it.val is None {
            lemma_passed(rows[at].key, rows[i].key, it.reversed, it.window());
        }
    }
}

} // verus!
