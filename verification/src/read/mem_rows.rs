//! Collecting the rows of memory tables.
use bytes::Bytes;
use vstd::prelude::*;
use vstd::slice::slice_to_vec;

use crate::buf::content;
use crate::key::{bytes_eq, bytes_lt, lex_lt};
use crate::keyspace::inner_of;
use crate::read::iter::{lemma_stop_at, seen, stop_at, Iterator, Window};
use crate::read::mem_data::{plain_row, plain_rows, PlainRow};
use crate::read::rows::{is_place_of, Row, TableIterator};

verus! {

/// A row as it is written.
pub type RowData = (Seq<u8>, u64, u64, Seq<u8>);

/// What a walk in the order of keys goes over.
#[verifier::ext_equal]
pub struct Scan {
    /// The rows.
    pub rows: Seq<Row>,
    /// What is shown of them.
    pub window: Window,
    /// Versions that are newer than this are not seen.
    pub ts: u64,
    /// Older versions are shown too.
    pub all_versions: bool,
    /// What keys begin with.
    pub prefix: Seq<u8>,
    /// How many leading bytes of a key are not part of the inner key.
    pub inner_key_off: usize,
}

impl Scan {
    /// Which version of a row is seen.
    pub open spec fn nth(self, at: int) -> int {
        if at < self.rows.len() && seen(self.rows[at], self.ts) is Some {
            seen(self.rows[at], self.ts)->0
        } else {
            0
        }
    }

    /// The versions that are shown from a version of a row on, up to the key that ends
    /// a range.
    pub open spec fn items_from(self, at: int, nth: int, end: Seq<u8>) -> Seq<(int, int)>
        decreases self.rows.len() - at, self.rows[at].versions.len() - nth,
    {
        if at < 0 || at >= self.rows.len() || self.window.passed(self.rows[at].key, false) || nth
            < 0 || nth >= self.rows[at].versions.len() || !lex_lt(
            self.prefix + self.rows[at].key,
            end,
        ) {
            Seq::empty()
        } else {
            let older = nth + 1;
            let next = stop_at(self.rows, false, self.window, self.ts, at + 1);
            seq![(at, nth)] + (if self.all_versions && older < self.rows[at].versions.len()
                && !self.rows[at].versions[older].deleted {
                self.items_from(at, older, end)
            } else if at < next <= self.rows.len() {
                self.items_from(next, self.nth(next), end)
            } else {
                Seq::empty()
            })
        }
    }

    /// The row at which a walk begins that goes to a key.
    pub open spec fn begin(self, key: Seq<u8>) -> int {
        if key.len() <= self.inner_key_off {
            0
        } else {
            place_from(self.rows, inner_of(key), 0)
        }
    }

    /// The versions that a range shows.
    pub open spec fn range_items(self, start: Seq<u8>, end: Seq<u8>) -> Seq<(int, int)> {
        let at = stop_at(self.rows, false, self.window, self.ts, self.begin(start));
        self.items_from(at, self.nth(at), end)
    }

    /// The row of a version.
    pub open spec fn row(self, item: (int, int)) -> RowData {
        let val = self.rows[item.0].versions[item.1];
        (
            self.prefix + self.rows[item.0].key,
            val.user_meta->0.start_ts,
            val.user_meta->0.commit_ts,
            content(val.value),
        )
    }

    /// The rows of versions.
    pub open spec fn data(self, items: Seq<(int, int)>) -> Seq<RowData> {
        Seq::new(items.len(), |i: int| self.row(items[i]))
    }

    /// The rows that the first `n` ranges show.
    pub open spec fn ranges_data(self, ranges: Seq<(Bytes, Bytes)>, n: int) -> Seq<RowData>
        decreases n,
    {
        if n <= 0 {
            Seq::empty()
        } else {
            self.ranges_data(ranges, n - 1) + self.data(
                self.range_items(content(ranges[n - 1].0), content(ranges[n - 1].1)),
            )
        }
    }
}

/// The first row from `i` on that is not before the key.
pub open spec fn place_from(rows: Seq<Row>, key: Seq<u8>, i: int) -> int
    decreases rows.len() - i,
{
    if i >= rows.len() || !lex_lt(rows[i].key, key) {
        i
    } else {
        place_from(rows, key, i + 1)
    }
}

/// What is known of the place of a key makes it the place.
pub proof fn lemma_place(rows: Seq<Row>, key: Seq<u8>, place: int, i: int)
    requires
        0 <= i <= place,
        is_place_of(rows, false, key, place),
    ensures
        place_from(rows, key, i) == place,
    decreases place - i,
{
    if i < place {
        assert(lex_lt(rows[i].key, key));
        lemma_place(rows, key, place, i + 1);
    } else if place < rows.len() {
        assert(!lex_lt(rows[place].key, key));
    }
}

/// The rows with the order of those of one key turned round: what is complete, and the
/// rows of the last key.
pub open spec fn turned_parts(rows: Seq<RowData>) -> (Seq<RowData>, Seq<RowData>)
    decreases rows.len(),
{
    if rows.len() == 0 {
        (Seq::empty(), Seq::empty())
    } else {
        let (done, last) = turned_parts(rows.drop_last());
        let row = rows.last();
        if last.len() > 0 && last.last().0 != row.0 {
            (done + last.reverse(), seq![row])
        } else {
            (done, last.push(row))
        }
    }
}

/// The rows with the order of those of one key turned round.
pub open spec fn turned(rows: Seq<RowData>) -> Seq<RowData> {
    let (done, last) = turned_parts(rows);
    done + last.reverse()
}

/// What is complete and the rows of the last key, together in the order in which they
/// came, are as many as there are rows; the rows of the last key are the last rows, and
/// all of one key.
proof fn lemma_turned_parts(rows: Seq<RowData>)
    ensures
        ({
            let (done, last) = turned_parts(rows);
            &&& done.len() + last.len() == rows.len()
            &&& rows.len() > 0 ==> last.len() > 0
            &&& forall|i: int|
                0 <= i < last.len() ==> #[trigger] last[i] == rows[done.len() + i]
            &&& forall|i: int| 0 <= i < last.len() ==> (#[trigger] last[i]).0 == last.last().0
            &&& forall|i: int| 0 <= i < done.len() ==> (#[trigger] done[i]).0 == rows[i].0
            &&& (done + last).to_multiset() =~= rows.to_multiset()
        }),
    decreases rows.len(),
{
    let (done, last) = turned_parts(rows);
    if rows.len() > 0 {
        let rest = rows.drop_last();
        let row = rows.last();
        lemma_turned_parts(rest);
        let (d, l) = turned_parts(rest);
        assert(rows =~= rest.push(row));
        rest.to_multiset_ensures();
        vstd::seq_lib::lemma_multiset_commutative(d, l);
        if l.len() > 0 && l.last().0 != row.0 {
            l.lemma_reverse_to_multiset();
            vstd::seq_lib::lemma_multiset_commutative(d, l.reverse());
            assert((done + last) =~= done.push(row));
            done.to_multiset_ensures();
            assert((done + last).to_multiset() =~= rows.to_multiset());
            assert forall|i: int| 0 <= i < done.len() implies (#[trigger] done[i]).0
                == rows[i].0 by {
                if i >= d.len() {
                    let k = l.len() - 1 - (i - d.len());
                    assert(done[i] == l[k]);
                    assert(l[i - d.len()] == rest[i]);
                    assert(l[k].0 == l.last().0);
                    assert(l[i - d.len()].0 == l.last().0);
                } else {
                    assert(done[i] == d[i]);
                }
            }
        } else {
            assert((done + last) =~= (d + l).push(row));
            (d + l).to_multiset_ensures();
            assert forall|i: int| 0 <= i < last.len() implies (#[trigger] last[i]).0
                == last.last().0 by {
                if i < l.len() {
                    assert(last[i] == l[i]);
                }
            }
            assert forall|i: int| 0 <= i < last.len() implies #[trigger] last[i] == rows[done.len()
                + i] by {
                if i < l.len() {
                    assert(l[i] == rest[d.len() + i]);
                }
            }
            assert((done + last).to_multiset() =~= rows.to_multiset());
        }
    } else {
        assert((done + last) =~= rows);
    }
}

/// Turning round the order of the rows of each key keeps the rows and leaves the keys
/// where they are.
pub proof fn law_turned_rows(rows: Seq<RowData>)
    ensures
        turned(rows).len() == rows.len(),
        turned(rows).to_multiset() == rows.to_multiset(),
        forall|i: int| 0 <= i < rows.len() ==> (#[trigger] turned(rows)[i]).0 == rows[i].0,
{
    let (done, last) = turned_parts(rows);
    lemma_turned_parts(rows);
    last.lemma_reverse_to_multiset();
    vstd::seq_lib::lemma_multiset_commutative(done, last);
    vstd::seq_lib::lemma_multiset_commutative(done, last.reverse());
    assert forall|i: int| 0 <= i < rows.len() implies (#[trigger] turned(rows)[i]).0
        == rows[i].0 by {
        if i >= done.len() {
            let k = last.len() - 1 - (i - done.len());
            assert(turned(rows)[i] == last[k]);
            assert(last[k].0 == last.last().0);
            assert(last[i - done.len()] == rows[i]);
            assert(last[i - done.len()].0 == last.last().0);
        }
    }
}

/// Each version of a row says when it was written.
pub open spec fn all_committed(rows: Seq<Row>) -> bool {
    forall|i: int, j: int|
        0 <= i < rows.len() && 0 <= j < rows[i].versions.len() ==> (
        #[trigger] rows[i].versions[j]).user_meta is Some
}

/// What an iterator goes over.
pub open spec fn scan_of<I: TableIterator>(it: Iterator<I>) -> Scan {
    Scan {
        rows: it.inner.walk().rows,
        window: it.window(),
        ts: it.read_ts,
        all_versions: it.all_versions,
        prefix: it.data@.prefix(),
        inner_key_off: it.inner_key_off,
    }
}

/// Puts the rows behind the others, the last first.
fn append_turned(rows: &mut Vec<PlainRow>, last: Vec<PlainRow>)
    ensures
        plain_rows(final(rows)@) == plain_rows(old(rows)@) + plain_rows(last@).reverse(),
{
    let ghost all = plain_rows(last@);
    let ghost done = plain_rows(rows@);
    let mut last = last;
    let mut n = last.len();
    while n > 0
        invariant
            n == last@.len(),
            n <= all.len(),
            plain_rows(last@) == all.take(n as int),
            plain_rows(rows@) == done + all.skip(n as int).reverse(),
        decreases n,
    {
        let ghost was = plain_rows(rows@);
        let row = last.pop().unwrap();
        n = n - 1;
        assert(plain_row(row) == all[n as int]) by {
            assert(all.take(n + 1)[n as int] == all[n as int]);
        }
        rows.push(row);
        assert(plain_rows(rows@) =~= was.push(all[n as int]));
        assert(all.skip(n as int).reverse() =~= all.skip(n + 1).reverse().push(all[n as int]));
        assert(plain_rows(last@) =~= all.take(n as int));
    }
    assert(all.skip(0) =~= all);
}

/// The rows that the ranges show, those of one key with the oldest first.
pub fn collect_rows<I: TableIterator>(it: &mut Iterator<I>, ranges: &Vec<(Bytes, Bytes)>) -> (res:
    Vec<PlainRow>)
    requires
        old(it).wf(),
        !old(it).reversed,
        all_committed(old(it).inner.walk().rows),
    ensures
        plain_rows(res@) == turned(
            scan_of(*old(it)).ranges_data(ranges@, ranges@.len() as int),
        ),
        final(it).wf(),
        final(it).same_but_place(*old(it)),
        final(it).range == old(it).range,
{
    let ghost scan = scan_of(*it);
    let mut rows: Vec<PlainRow> = Vec::new();
    let mut last: Vec<PlainRow> = Vec::new();
    let ghost mut got: Seq<RowData> = Seq::empty();
    assert(plain_rows(rows@) =~= Seq::<RowData>::empty());
    assert(plain_rows(last@) =~= Seq::<RowData>::empty());
    let mut r: usize = 0;
    while r < ranges.len()
        invariant
            r <= ranges@.len(),
            it.wf(),
            !it.reversed,
            it.same_but_place(*old(it)),
            it.range == old(it).range,
            scan == scan_of(*old(it)),
            all_committed(scan.rows),
            got == scan.ranges_data(ranges@, r as int),
            turned_parts(got) == (plain_rows(rows@), plain_rows(last@)),
        decreases ranges@.len() - r,
    {
        let start: &[u8] = &ranges[r].0;
        let end: &[u8] = &ranges[r].1;
        it.seek(start);
        let ghost at = stop_at(scan.rows, false, scan.window, scan.ts, scan.begin(start@));
        proof {
            if start@.len() > scan.inner_key_off {
                let p = choose|p: int|
                    is_place_of(scan.rows, false, inner_of(start@), p) && #[trigger] it.shows_from(p);
                lemma_place(scan.rows, inner_of(start@), p, 0);
                lemma_stop_at(scan.rows, false, scan.window, scan.ts, p);
            } else {
                lemma_stop_at(scan.rows, false, scan.window, scan.ts, 0);
            }
        }
        let ghost before = got;
        let ghost all = scan.data(scan.range_items(start@, end@));
        let ghost mut n: int = 0;
        proof {
            lemma_shown(*it, at);
            assert(all.take(0) =~= Seq::<RowData>::empty());
            assert(before + all.take(0) =~= before);
        }
        while it.valid()
            invariant_except_break
                0 <= n <= all.len(),
                all.skip(n) == scan.data(
                    scan.items_from(it.inner.walk().at, it.inner.walk().nth, end@),
                ),
            invariant
                it.wf(),
                !it.reversed,
                it.same_but_place(*old(it)),
                it.range == old(it).range,
                scan == scan_of(*old(it)),
                all_committed(scan.rows),
                0 <= n <= all.len(),
                got == before + all.take(n),
                turned_parts(got) == (plain_rows(rows@), plain_rows(last@)),
                it.val is None ==> it.inner.walk().at >= scan.rows.len() || scan.window.passed(
                    scan.rows[it.inner.walk().at].key,
                    false,
                ),
            ensures
                n == all.len(),
            decreases
                scan.rows.len() - it.inner.walk().at,
                if it.val is Some {
                    it.inner.walk().row().versions.len() - it.inner.walk().nth
                } else {
                    0
                },
        {
            let ghost walk = it.inner.walk();
            let ghost items = scan.items_from(walk.at, walk.nth, end@);
            let key = slice_to_vec(it.key());
            assert(key@ == scan.prefix + walk.row().key);
            if !bytes_lt(key.as_slice(), end) {
                proof {
                    assert(scan.data(items).len() == 0);
                }
                break;
            }
            let mut fresh = false;
            if last.len() > 0 {
                fresh = !bytes_eq(last[last.len() - 1].0.as_slice(), key.as_slice());
                assert(plain_rows(last@).last() == plain_row(last@.last()));
            }
            if fresh {
                append_turned(&mut rows, last);
                last = Vec::new();
            }
            let val = match &it.val {
                Some(val) => val.clone(),
                None => return rows,
            };
            let (start_ts, commit_ts) = match val.user_meta {
                Some(m) => (m.start_ts, m.commit_ts),
                None => (0, 0),
            };
            let ghost tail = plain_rows(last@);
            last.push((key, start_ts, commit_ts, slice_to_vec(&val.value)));
            proof {
                let row = scan.row((walk.at, walk.nth));
                assert(plain_row(last@.last()) == row);
                assert(plain_rows(last@) =~= tail.push(row));
                assert(items[0] == (walk.at, walk.nth));
                assert(scan.data(items)[0] == row);
                assert(all[n] == all.skip(n)[0]);
                assert(all.take(n + 1) =~= all.take(n).push(row));
                assert((got.push(row)).drop_last() =~= got);
                got = got.push(row);
                assert(scan.data(items.drop_first()) =~= all.skip(n).drop_first());
                assert(all.skip(n).drop_first() =~= all.skip(n + 1));
                n = n + 1;
                lemma_stop_at(scan.rows, false, scan.window, scan.ts, walk.at + 1);
            }
            it.next();
            proof {
                let older = walk.nth + 1;
                let next = stop_at(scan.rows, false, scan.window, scan.ts, walk.at + 1);
                if scan.all_versions && older < walk.row().versions.len()
                    && !walk.row().versions[older].deleted {
                    assert(items.drop_first() =~= scan.items_from(walk.at, older, end@));
                } else {
                    assert(items.drop_first() =~= scan.items_from(next, scan.nth(next), end@));
                }
            }
        }
        assert(all.take(all.len() as int) =~= all);
        r = r + 1;
    }
    append_turned(&mut rows, last);
    rows
}

/// Where an iterator stopped, the items go on with what it shows.
proof fn lemma_shown<I: TableIterator>(it: Iterator<I>, at: int)
    requires
        it.wf(),
        it.inner.walk().at == at,
        it.val is Some ==> Some(it.inner.walk().nth) == seen(it.inner.walk().rows[at], it.read_ts),
        it.val is None ==> at >= it.inner.walk().rows.len() || it.window().passed(
            it.inner.walk().rows[at].key,
            it.reversed,
        ),
        !it.reversed,
    ensures
        forall|end: Seq<u8>|
            scan_of(it).items_from(at, it.inner.walk().nth, end) == #[trigger] scan_of(it).items_from(
                at,
                scan_of(it).nth(at),
                end,
            ),
{
}

} // verus!
