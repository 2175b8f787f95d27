//! Walking over what a reader sees of a shard.
use bytes::Bytes;
use vstd::prelude::*;
use vstd::slice::slice_to_vec;

use crate::bound::InnerKey;
use crate::buf::content;
use crate::key::{
    lemma_le_transitive, lemma_lt_asymmetric, lemma_lt_irreflexive, lemma_lt_transitive, lemma_not_lt, lex_le, lex_lt,
    starts_with,
};
use crate::keyspace::{inner_end_of, inner_of};
use crate::range::ShardRange;
use crate::read::rows::{
    before, is_place_of, lemma_before, lemma_version_at, rows_wf, version_at, Row, TableIterator, Walk,
};
use crate::read::value::{UserMeta, Value};

verus! {

/// The inner keys that a walk shows: from the first to the one that ends them.
#[verifier::ext_equal]
pub struct Window {
    /// Lowest inner key.
    pub lower: Seq<u8>,
    /// Inner key that ends the window.
    pub upper: Seq<u8>,
}

impl Window {
    /// The window between two keys.
    pub open spec fn of(lower: Seq<u8>, upper: Seq<u8>) -> Window {
        Window { lower: inner_of(lower), upper: inner_end_of(upper) }
    }

    /// The key is in the window.
    pub open spec fn has(self, key: Seq<u8>) -> bool {
        lex_le(self.lower, key) && lex_lt(key, self.upper)
    }

    /// A walk has left the window behind when it comes to the key.
    pub open spec fn passed(self, key: Seq<u8>, reversed: bool) -> bool {
        if reversed {
            lex_lt(key, self.lower)
        } else {
            !lex_lt(key, self.upper)
        }
    }

    /// A walk has not come to the window yet when it comes to the key.
    pub open spec fn ahead(self, key: Seq<u8>, reversed: bool) -> bool {
        if reversed {
            !lex_lt(key, self.upper)
        } else {
            lex_lt(key, self.lower)
        }
    }

    /// The row at which a walk comes to the window.
    pub open spec fn starts_at(self, rows: Seq<Row>, reversed: bool, at: int) -> bool {
        &&& 0 <= at <= rows.len()
        &&& forall|i: int| 0 <= i < at ==> self.ahead((#[trigger] rows[i]).key, reversed)
        &&& forall|i: int| at <= i < rows.len() ==> !self.ahead((#[trigger] rows[i]).key, reversed)
    }

    /// Everything before the row lies before the end of the window.
    pub open spec fn reached(self, rows: Seq<Row>, reversed: bool, at: int) -> bool {
        forall|i: int| 0 <= i < at ==> !self.passed((#[trigger] rows[i]).key, reversed)
    }

    /// A walk comes to this window when it has left the other behind.
    pub open spec fn follows(self, other: Window, reversed: bool) -> bool {
        if reversed {
            lex_le(self.upper, other.lower)
        } else {
            lex_le(other.upper, self.lower)
        }
    }
}

/// The version that a reader sees at `ts`, if there is one.
pub open spec fn seen(row: Row, ts: u64) -> Option<int> {
    let k = version_at(row.versions, 0, ts);
    if k < row.versions.len() && !row.versions[k].deleted {
        Some(k)
    } else {
        None
    }
}

/// The first row from `from` on at which a walk stops: it shows something, or the
/// window ends there.
pub open spec fn stop_at(
    rows: Seq<Row>,
    reversed: bool,
    window: Window,
    ts: u64,
    from: int,
) -> int
    decreases rows.len() - from,
{
    if from >= rows.len() || window.passed(rows[from].key, reversed) || seen(
        rows[from],
        ts,
    ) is Some {
        from
    } else {
        stop_at(rows, reversed, window, ts, from + 1)
    }
}

/// The rows that a walk shows from `from` on.
pub open spec fn rows_shown(
    rows: Seq<Row>,
    reversed: bool,
    window: Window,
    ts: u64,
    from: int,
) -> Seq<int>
    decreases rows.len() - from,
{
    let at = stop_at(rows, reversed, window, ts, from);
    if from <= at < rows.len() && !window.passed(rows[at].key, reversed) {
        seq![at] + rows_shown(rows, reversed, window, ts, at + 1)
    } else {
        Seq::empty()
    }
}

/// Places below `len`, each behind the one before it.
pub open spec fn in_order(places: Seq<int>, len: nat) -> bool {
    &&& forall|a: int| 0 <= a < places.len() ==> 0 <= #[trigger] places[a] < len
    &&& forall|a: int, b: int|
        0 <= a < b < places.len() ==> #[trigger] places[a] < #[trigger] places[b]
}

/// A walk stops at or behind where it begins.
pub proof fn lemma_stop_at(rows: Seq<Row>, reversed: bool, window: Window, ts: u64, from: int)
    requires
        0 <= from <= rows.len(),
    ensures
        from <= stop_at(rows, reversed, window, ts, from) <= rows.len(),
        forall|i: int|
            from <= i < stop_at(rows, reversed, window, ts, from) ==> !window.passed(
                (#[trigger] rows[i]).key,
                reversed,
            ) && seen(rows[i], ts) is None,
        ({
            let at = stop_at(rows, reversed, window, ts, from);
            at < rows.len() ==> window.passed(rows[at].key, reversed) || seen(rows[at], ts) is Some
        }),
    decreases rows.len() - from,
{
    if from < rows.len() && !window.passed(rows[from].key, reversed) && seen(
        rows[from],
        ts,
    ) is None {
        lemma_stop_at(rows, reversed, window, ts, from + 1);
    }
}

/// What comes behind the window stays behind it.
pub proof fn lemma_passed(a: Seq<u8>, b: Seq<u8>, reversed: bool, window: Window)
    requires
        before(a, b, reversed),
        window.passed(a, reversed),
    ensures
        window.passed(b, reversed),
{
    if reversed {
        lemma_lt_transitive(b, a, window.lower);
    } else {
        lemma_before(a, b, window.upper, false);
    }
}

/// A walk over a window shows exactly the rows of the window of which the reader
/// sees a version, each once and in the order of the walk.
pub proof fn law_walk_shows_the_window(
    rows: Seq<Row>,
    reversed: bool,
    window: Window,
    ts: u64,
    start: int,
)
    requires
        rows_wf(rows, reversed),
        window.starts_at(rows, reversed, start),
    ensures
        forall|i: int|
            0 <= i < rows.len() ==> (#[trigger] rows_shown(
                rows,
                reversed,
                window,
                ts,
                start,
            ).contains(i) <==> window.has(rows[i].key) && seen(rows[i], ts) is Some),
        in_order(rows_shown(rows, reversed, window, ts, start), rows.len()),
{
    let shown = rows_shown(rows, reversed, window, ts, start);
    lemma_rows_shown(rows, reversed, window, ts, start);
    assert forall|i: int| 0 <= i < rows.len() implies (#[trigger] shown.contains(i)
        <==> window.has(rows[i].key) && seen(rows[i], ts) is Some) by {
        let k = rows[i].key;
        if i < start {
            assert(window.ahead(rows[i].key, reversed));
        } else {
            assert(!window.ahead(rows[i].key, reversed));
        }
        lemma_window(window, k, reversed);
    }
    assert forall|a: int| 0 <= a < shown.len() implies 0 <= #[trigger] shown[a]
        < rows.len() by {
        assert(shown.contains(shown[a]));
    }
}

/// A key is in the window if a walk is neither before it nor behind it.
proof fn lemma_window(window: Window, key: Seq<u8>, reversed: bool)
    ensures
        window.has(key) <==> !window.passed(key, reversed) && !window.ahead(key, reversed),
{
    lemma_not_lt(key, window.lower);
}

/// The rows that are shown are those that are seen and do not lie behind the
/// window.
proof fn lemma_rows_shown(rows: Seq<Row>, reversed: bool, window: Window, ts: u64, from: int)
    requires
        rows_wf(rows, reversed),
        0 <= from <= rows.len(),
    ensures
        ({
            let shown = rows_shown(rows, reversed, window, ts, from);
            &&& forall|i: int| #[trigger]
                shown.contains(i) <==> (from <= i < rows.len() && !window.passed(
                    rows[i].key,
                    reversed,
                ) && seen(rows[i], ts) is Some)
            &&& forall|a: int, b: int|
                0 <= a < b < shown.len() ==> #[trigger] shown[a] < #[trigger] shown[b]
        }),
    decreases rows.len() - from,
{
    let shown = rows_shown(rows, reversed, window, ts, from);
    let at = stop_at(rows, reversed, window, ts, from);
    lemma_stop_at(rows, reversed, window, ts, from);
    if at < rows.len() && !window.passed(rows[at].key, reversed) {
        lemma_rows_shown(rows, reversed, window, ts, at + 1);
        let rest = rows_shown(rows, reversed, window, ts, at + 1);
        assert(shown =~= seq![at] + rest);
        assert(shown[0] == at);
        assert forall|i: int| #[trigger]
            shown.contains(i) <==> (from <= i < rows.len() && !window.passed(
                rows[i].key,
                reversed,
            ) && seen(rows[i], ts) is Some) by {
            if shown.contains(i) {
                let j = shown.index_of(i);
                if j > 0 {
                    assert(rest[j - 1] == i);
                    assert(rest.contains(i));
                }
            }
            if rest.contains(i) {
                let j = rest.index_of(i);
                assert(shown[j + 1] == i);
            }
            assert(rest.contains(i) <==> (at + 1 <= i < rows.len() && !window.passed(
                rows[i].key,
                reversed,
            ) && seen(rows[i], ts) is Some));
        }
        assert forall|a: int, b: int| 0 <= a < b < shown.len() implies #[trigger] shown[a]
            < #[trigger] shown[b] by {
            assert(shown[b] == rest[b - 1]);
            assert(rest.contains(rest[b - 1]));
            if a > 0 {
                assert(shown[a] == rest[a - 1]);
            }
        }
    } else {
        assert(shown =~= Seq::<int>::empty());
        assert forall|i: int| from <= i < rows.len() && !window.passed(
            (#[trigger] rows[i]).key,
            reversed,
        ) implies seen(rows[i], ts) is None by {
            if at < rows.len() && i > at {
                lemma_passed(rows[at].key, rows[i].key, reversed, window);
            }
        }
    }
}

/// A walk over what a reader sees of a shard.
pub struct Iterator<I: TableIterator> {
    /// Shows the older versions of a row too.
    pub all_versions: bool,
    /// Walks against the order of keys.
    pub reversed: bool,
    /// Versions that are newer than this are not seen.
    pub read_ts: u64,
    /// The key that is shown.
    pub key: Vec<u8>,
    /// The version that is shown, if there is one.
    pub val: Option<Value>,
    /// The walk over the rows of all tables.
    pub inner: I,
    /// Range of the shard.
    pub data: ShardRange,
    /// How many leading bytes of a key are not part of the inner key.
    pub inner_key_off: usize,
    /// The range that is walked over, where it is not that of the shard: the first
    /// key and the key that ends it.
    pub range: Option<(Bytes, Bytes)>,
}

impl<I: TableIterator> Iterator<I> {
    /// The window that is walked over.
    pub open spec fn window(self) -> Window {
        match self.range {
            Some((lower, upper)) => Window::of(content(lower), content(upper)),
            None => Window::of(self.data@.start, self.data@.end),
        }
    }

    /// What is shown is a row of the walk that the window holds.
    pub open spec fn wf(self) -> bool {
        let walk = self.inner.walk();
        &&& walk.wf()
        &&& walk.reversed == self.reversed
        &&& self.data@.valid()
        &&& self.key@.len() >= self.data@.prefix().len()
        &&& self.key@.take(self.data@.prefix().len() as int) == self.data@.prefix()
        &&& match self.val {
            Some(val) => {
                &&& walk.valid()
                &&& !self.window().passed(walk.row().key, self.reversed)
                &&& val == walk.row().versions[walk.nth]
                &&& self.key@ == self.data@.prefix() + walk.row().key
            },
            None => walk.nth == 0,
        }
    }

    /// All but the place of the walk and what is shown.
    pub open spec fn same_but_place(self, other: Self) -> bool {
        &&& self.all_versions == other.all_versions
        &&& self.reversed == other.reversed
        &&& self.read_ts == other.read_ts
        &&& self.data == other.data
        &&& self.inner_key_off == other.inner_key_off
        &&& self.inner.walk().rows == other.inner.walk().rows
    }

    /// The walk goes on from the row and stops at the first that it shows.
    pub open spec fn shows_from(self, from: int) -> bool {
        let walk = self.inner.walk();
        let at = stop_at(walk.rows, self.reversed, self.window(), self.read_ts, from);
        &&& walk.at == at
        &&& self.val is Some <==> at < walk.rows.len() && !self.window().passed(
            walk.rows[at].key,
            self.reversed,
        )
        &&& self.val is Some ==> Some(walk.nth) == seen(walk.rows[at], self.read_ts)
    }

    /// Everything that the walk has come by lies before the end of the window.
    pub open spec fn snug(self) -> bool {
        self.window().reached(self.inner.walk().rows, self.reversed, self.inner.walk().at)
    }

    /// A walk that shows nothing yet.
    pub fn new(
        inner: I,
        data: ShardRange,
        inner_key_off: usize,
        reversed: bool,
        all_versions: bool,
        read_ts: u64,
    ) -> (res: Self)
        requires
            inner.walk().wf(),
            inner.walk().nth == 0,
            inner.walk().reversed == reversed,
            data@.valid(),
        ensures
            res.wf(),
            res.all_versions == all_versions,
            res.reversed == reversed,
            res.read_ts == read_ts,
            res.val is None,
            res.inner == inner,
            res.data == data,
            res.inner_key_off == inner_key_off,
            res.range is None,
    {
        let key = slice_to_vec(data.keyspace_prefix());
        assert(key@.take(key@.len() as int) =~= key@);
        Iterator {
            all_versions,
            reversed,
            read_ts,
            key,
            val: None,
            inner,
            data,
            inner_key_off,
            range: None,
        }
    }

    /// Whether something is shown.
    pub fn valid(&self) -> (res: bool)
        ensures
            res == self.val is Some,
    {
        self.val.is_some()
    }

    /// The key that is shown.
    pub fn key(&self) -> (res: &[u8])
        ensures
            res@ == self.key@,
    {
        self.key.as_slice()
    }

    /// The version number of what is shown.
    pub fn version(&self) -> (res: u64)
        ensures
            res == (match self.val {
                Some(val) => val.version,
                None => 0,
            }),
    {
        match &self.val {
            Some(val) => val.version,
            None => 0,
        }
    }

    /// The flags of what is shown.
    pub fn meta(&self) -> (res: u8)
        ensures
            res == (match self.val {
                Some(val) => val.meta,
                None => 0,
            }),
    {
        match &self.val {
            Some(val) => val.meta,
            None => 0,
        }
    }

    /// The bytes of what is shown. Where a blob table holds them they are not here.
    pub fn val(&self) -> (res: &[u8])
        requires
            self.val is Some,
        ensures
            res@ == content(self.val->0.value),
    {
        &self.val.as_ref().unwrap().value
    }

    /// When what is shown was written, if that is known.
    pub fn user_meta(&self) -> (res: Option<UserMeta>)
        ensures
            res == (match self.val {
                Some(val) => val.user_meta,
                None => None,
            }),
    {
        match &self.val {
            Some(val) => val.user_meta,
            None => None,
        }
    }

    /// Whether the key that is shown begins with the prefix.
    pub fn valid_for_prefix(&self, prefix: &[u8]) -> (res: bool)
        ensures
            res == prefix@.is_prefix_of(self.key@),
    {
        starts_with(self.key.as_slice(), prefix)
    }

    /// Makes the walk show older versions, or not.
    pub fn set_all_versions(&mut self, all_versions: bool)
        requires
            old(self).wf(),
        ensures
            final(self).wf(),
            *final(self) == (Iterator { all_versions, ..*old(self) }),
    {
        self.all_versions = all_versions;
    }

    /// Whether the walk is against the order of keys.
    pub fn is_reverse(&self) -> (res: bool)
        ensures
            res == self.reversed,
    {
        self.reversed
    }

    /// Whether the walk has left the window.
    fn is_inner_key_over_bound(&self) -> (res: bool)
        requires
            self.inner.walk().wf(),
            self.inner.walk().valid(),
        ensures
            res == self.window().passed(self.inner.walk().row().key, self.reversed),
    {
        let key = InnerKey::from_inner_buf(self.inner.key());
        match &self.range {
            Some((lower, upper)) => {
                if self.reversed {
                    key.lt(InnerKey::from_outer_key(lower))
                } else {
                    !key.lt(InnerKey::from_outer_end_key(upper))
                }
            },
            None => {
                if self.reversed {
                    key.lt(self.data.inner_start())
                } else {
                    !key.lt(self.data.inner_end())
                }
            },
        }
    }

    /// Shows the version that the inner walk is at.
    fn update_item(&mut self)
        requires
            old(self).inner.walk().wf(),
            old(self).inner.walk().valid(),
            old(self).inner.walk().reversed == old(self).reversed,
            old(self).data@.valid(),
            !old(self).window().passed(old(self).inner.walk().row().key, old(self).reversed),
        ensures
            final(self).wf(),
            final(self).same_but_place(*old(self)),
            final(self).range == old(self).range,
            final(self).inner == old(self).inner,
            final(self).val is Some,
    {
        let key = self.data.to_outer_key(InnerKey::from_inner_buf(self.inner.key()));
        assert(key@.take(self.data@.prefix().len() as int) =~= self.data@.prefix());
        self.key = key;
        self.val = Some(self.inner.value());
    }

    /// Goes on from the row that the inner walk is at to the first that is shown.
    fn parse_item(&mut self)
        requires
            old(self).inner.walk().wf(),
            old(self).inner.walk().nth == 0,
            old(self).inner.walk().reversed == old(self).reversed,
            old(self).data@.valid(),
            old(self).key@.len() >= old(self).data@.prefix().len(),
            old(self).key@.take(old(self).data@.prefix().len() as int)
                == old(self).data@.prefix(),
        ensures
            final(self).wf(),
            final(self).same_but_place(*old(self)),
            final(self).range == old(self).range,
            final(self).shows_from(old(self).inner.walk().at),
    {
        let ghost from = self.inner.walk().at;
        let ghost rows = self.inner.walk().rows;
        let ghost window = self.window();
        while self.inner.valid()
            invariant_except_break
                stop_at(rows, self.reversed, window, self.read_ts, self.inner.walk().at)
                    == stop_at(rows, self.reversed, window, self.read_ts, from),
            invariant
                self.inner.walk().wf(),
                self.inner.walk().nth == 0,
                self.inner.walk().reversed == self.reversed,
                self.inner.walk().rows == rows,
                self.window() == window,
                window == old(self).window(),
                self.range == old(self).range,
                self.data@.valid(),
                self.same_but_place(*old(self)),
                self.key == old(self).key,
                from == old(self).inner.walk().at,
                rows == old(self).inner.walk().rows,
            ensures
                self.inner.walk().at == stop_at(rows, self.reversed, window, self.read_ts, from),
                self.inner.walk().valid() ==> window.passed(
                    self.inner.walk().row().key,
                    self.reversed,
                ),
            decreases rows.len() - self.inner.walk().at,
        {
            if self.is_inner_key_over_bound() {
                break;
            }
            let val = self.inner.value();
            let ghost row = self.inner.walk().row();
            if val.version > self.read_ts && !self.inner.seek_to_version(self.read_ts) {
                assert(seen(row, self.read_ts) is None);
                self.inner.next();
                continue;
            }
            proof {
                lemma_version_at(row.versions, 0, self.read_ts);
            }
            assert(self.inner.walk().nth == version_at(row.versions, 0, self.read_ts));
            if self.inner.value().deleted {
                assert(seen(row, self.read_ts) is None);
                self.inner.next();
                continue;
            }
            self.update_item();
            return;
        }
        self.val = None;
    }

    /// Goes to what is shown next: an older version of the row that is shown, where all
    /// versions are shown and the next one is no deletion, or else the next row. The walk may
    /// also go on from a row that is not shown, such as one behind the range.
    pub fn next(&mut self)
        requires
            old(self).wf(),
            old(self).inner.walk().valid(),
        ensures
            final(self).wf(),
            final(self).same_but_place(*old(self)),
            final(self).range == old(self).range,
            ({
                let walk = old(self).inner.walk();
                let older = walk.nth + 1;
                if old(self).all_versions && old(self).val is Some && older
                    < walk.row().versions.len() && !walk.row().versions[older].deleted {
                    &&& final(self).inner.walk() == (Walk { nth: older, ..walk })
                    &&& final(self).val is Some
                } else {
                    final(self).shows_from(walk.at + 1)
                }
            }),
            old(self).snug() && !old(self).window().passed(
                old(self).inner.walk().row().key,
                old(self).reversed,
            ) ==> final(self).snug(),
    {
        let ghost walk = self.inner.walk();
        if self.all_versions && self.valid() && self.inner.next_version()
            && !self.inner.value().deleted {
            self.update_item();
            return;
        }
        self.inner.next();
        proof {
            lemma_stop_at(walk.rows, self.reversed, self.window(), self.read_ts, walk.at + 1);
        }
        self.parse_item();
    }

    /// Goes to the key, or to the first behind it. A key that has no inner key is
    /// where the walk begins.
    pub fn seek(&mut self, key: &[u8])
        requires
            old(self).wf(),
        ensures
            final(self).wf(),
            final(self).same_but_place(*old(self)),
            final(self).range == old(self).range,
            key@.len() <= old(self).inner_key_off ==> final(self).shows_from(0),
            key@.len() > old(self).inner_key_off ==> exists|at: int|
                is_place_of(
                    old(self).inner.walk().rows,
                    old(self).reversed,
                    inner_of(key@),
                    at,
                ) && #[trigger] final(self).shows_from(at),
    {
        let ghost mut at: int = 0;
        if key.len() <= self.inner_key_off {
            self.inner.rewind();
        } else {
            self.inner.seek(InnerKey::from_outer_key(key).deref());
            proof {
                at = self.inner.walk().at;
            }
        }
        self.parse_item();
        assert(self.shows_from(at));
    }

    /// Goes to the first key of the shard.
    pub fn rewind(&mut self)
        requires
            old(self).wf(),
        ensures
            final(self).wf(),
            final(self).same_but_place(*old(self)),
            final(self).range == old(self).range,
            exists|at: int|
                Window::of(old(self).data@.start, old(self).data@.end).starts_at(
                    old(self).inner.walk().rows,
                    old(self).reversed,
                    at,
                ) && #[trigger] final(self).shows_from(at),
    {
        let ghost shard = Window::of(self.data@.start, self.data@.end);
        let ghost rows = self.inner.walk().rows;
        self.inner.rewind();
        if self.inner.valid() {
            let end = self.data.inner_end();
            let start = self.data.inner_start();
            let first = InnerKey::from_inner_buf(self.inner.key());
            if self.reversed {
                if !first.lt(end) {
                    self.inner.seek(end.deref());
                    if self.inner.valid() && InnerKey::from_inner_buf(self.inner.key()).equal(end) {
                        self.inner.next();
                    }
                }
            } else if first.lt(start) {
                self.inner.seek(start.deref());
            }
        }
        let ghost at = self.inner.walk().at;
        proof {
            if self.reversed {
                if rows.len() > 0 && !lex_lt(rows[0].key, shard.upper) {
                    lemma_starts_below(rows, shard, choose|p: int| is_place_of(rows, true, shard.upper, p), at);
                } else {
                    lemma_starts(rows, true, shard, at);
                }
            } else {
                lemma_starts(rows, false, shard, at);
            }
        }
        self.parse_item();
        assert(self.shows_from(at));
    }

    /// Whether the walk comes to the window when it has left the current one
    /// behind.
    fn is_reset_monotonic_range(&self, lower: InnerKey<'_>, upper: InnerKey<'_>) -> (res: bool)
        ensures
            res == (self.range is Some && (Window { lower: lower@, upper: upper@ }).follows(
                self.window(),
                self.reversed,
            )),
    {
        match &self.range {
            Some((old_lower, old_upper)) => {
                if self.reversed {
                    upper.le(InnerKey::from_outer_key(old_lower))
                } else {
                    InnerKey::from_outer_end_key(old_upper).le(lower)
                }
            },
            None => false,
        }
    }

    /// Walks over another range, and goes to its first key. A walk that comes to the
    /// range anyway goes on from where it is. The result says whether it did not.
    pub fn set_range(&mut self, lower: Bytes, upper: Bytes) -> (res: bool)
        requires
            old(self).wf(),
        ensures
            final(self).wf(),
            final(self).same_but_place(*old(self)),
            final(self).range == Some((lower, upper)),
            ({
                let window = Window::of(content(lower), content(upper));
                let walk = old(self).inner.walk();
                let key = walk.row().key;
                &&& res == !(old(self).range is Some && window.follows(
                    old(self).window(),
                    old(self).reversed,
                ) && (walk.valid() ==> if old(self).reversed {
                    !lex_lt(window.upper, key)
                } else {
                    !lex_lt(key, window.lower)
                }))
                &&& exists|at: int|
                    {
                        &&& #[trigger] final(self).shows_from(at)
                        &&& res || old(self).snug() ==> window.starts_at(
                            walk.rows,
                            old(self).reversed,
                            at,
                        )
                        &&& !res ==> at == (if walk.valid() && old(self).reversed && key
                            == window.upper {
                            walk.at + 1
                        } else {
                            walk.at
                        })
                    }
                &&& (res || old(self).snug()) && lex_le(window.lower, window.upper)
                    ==> final(self).snug()
            }),
    {
        let ghost window = Window::of(content(lower), content(upper));
        let ghost before_range = self.window();
        let ghost walk = self.inner.walk();
        let ghost rows = walk.rows;
        let inner_lower = InnerKey::from_outer_key(&lower);
        let inner_upper = InnerKey::from_outer_end_key(&upper);
        let mut seeked = false;
        let ghost mut place: int = 0;
        if self.is_reset_monotonic_range(inner_lower, inner_upper) {
            if self.inner.valid() {
                let ghost key = walk.row().key;
                if self.reversed {
                    if inner_upper.lt(InnerKey::from_inner_buf(self.inner.key())) {
                        self.inner.seek(inner_upper.deref());
                        seeked = true;
                        proof {
                            place = self.inner.walk().at;
                        }
                    } else {
                        proof {
                            if self.val is Some {
                                lemma_not_lt(key, before_range.lower);
                                lemma_not_lt(inner_upper@, key);
                                lemma_le_transitive(inner_upper@, before_range.lower, key);
                            }
                        }
                    }
                    if self.inner.valid() && InnerKey::from_inner_buf(self.inner.key()).equal(
                        inner_upper,
                    ) {
                        self.inner.next();
                    }
                } else {
                    if InnerKey::from_inner_buf(self.inner.key()).lt(inner_lower) {
                        self.inner.seek(inner_lower.deref());
                        seeked = true;
                    } else {
                        proof {
                            if self.val is Some {
                                lemma_le_transitive(key, before_range.upper, inner_lower@);
                            }
                        }
                    }
                }
            }
        } else {
            if self.reversed {
                self.inner.seek(inner_upper.deref());
                proof {
                    place = self.inner.walk().at;
                }
                if self.inner.valid() && InnerKey::from_inner_buf(self.inner.key()).equal(
                    inner_upper,
                ) {
                    self.inner.next();
                }
            } else {
                self.inner.seek(inner_lower.deref());
            }
            seeked = true;
        }
        let ghost at = self.inner.walk().at;
        proof {
            if seeked {
                if self.reversed {
                    lemma_starts_below(rows, window, place, at);
                } else {
                    lemma_starts(rows, false, window, at);
                }
            } else if old(self).snug() {
                lemma_follows(rows, self.reversed, before_range, window, walk.at, at);
            }
        }
        self.range = Some((lower, upper));
        assert(self.window() == window);
        self.parse_item();
        assert(self.shows_from(at));
        proof {
            if lex_le(window.lower, window.upper) && (seeked || old(self).snug()) {
                lemma_stop_at(rows, self.reversed, window, self.read_ts, at);
                lemma_snug(rows, self.reversed, window, at, self.inner.walk().at);
            }
        }
        seeked
    }
}

/// A walk that has come by nothing behind a window comes to the window that follows
/// it at the first row that is not before it.
proof fn lemma_follows(
    rows: Seq<Row>,
    reversed: bool,
    earlier: Window,
    window: Window,
    was_at: int,
    at: int,
)
    requires
        rows_wf(rows, reversed),
        window.follows(earlier, reversed),
        0 <= was_at <= rows.len(),
        earlier.reached(rows, reversed, was_at),
        was_at < rows.len() ==> if reversed {
            !lex_lt(window.upper, rows[was_at].key)
        } else {
            !lex_lt(rows[was_at].key, window.lower)
        },
        at == (if was_at < rows.len() && reversed && rows[was_at].key == window.upper {
            was_at + 1
        } else {
            was_at
        }),
    ensures
        window.starts_at(rows, reversed, at),
{
    if was_at > 0 {
        let k = rows[was_at - 1].key;
        assert(!earlier.passed(k, reversed));
        if reversed {
            lemma_not_lt(k, earlier.lower);
            lemma_le_transitive(window.upper, earlier.lower, k);
            lemma_not_lt(k, window.upper);
        } else {
            lemma_le_transitive(k, earlier.upper, window.lower);
        }
    }
    if was_at < rows.len() {
        lemma_not_lt(window.upper, rows[was_at].key);
        lemma_lt_irreflexive(window.upper);
        if reversed && at < rows.len() && at > was_at {
            assert(before(rows[was_at].key, rows[at].key, true));
        }
    }
    lemma_starts(rows, reversed, window, at);
}

/// A walk that began where it came to the window has come by nothing behind it.
proof fn lemma_snug(rows: Seq<Row>, reversed: bool, window: Window, start: int, at: int)
    requires
        window.starts_at(rows, reversed, start),
        lex_le(window.lower, window.upper),
        0 <= start <= at <= rows.len(),
        forall|i: int| start <= i < at ==> !window.passed((#[trigger] rows[i]).key, reversed),
    ensures
        window.reached(rows, reversed, at),
{
    assert forall|i: int| 0 <= i < at implies !window.passed((#[trigger] rows[i]).key, reversed) by {
        if i < start {
            let k = rows[i].key;
            assert(window.ahead(k, reversed));
            if reversed {
                lemma_not_lt(k, window.upper);
                lemma_le_transitive(window.lower, window.upper, k);
                lemma_not_lt(k, window.lower);
            } else {
                lemma_le_transitive(k, window.lower, window.upper);
            }
        }
    }
}

/// A walk against the order of keys comes to the window at the first row that is
/// below its end.
proof fn lemma_starts_below(rows: Seq<Row>, window: Window, place: int, at: int)
    requires
        rows_wf(rows, true),
        is_place_of(rows, true, window.upper, place),
        at == (if place < rows.len() && rows[place].key == window.upper {
            place + 1
        } else {
            place
        }),
    ensures
        window.starts_at(rows, true, at),
{
    let end = window.upper;
    lemma_lt_irreflexive(end);
    if place < rows.len() {
        assert(!before(rows[place].key, end, true));
        lemma_not_lt(end, rows[place].key);
    }
    if at > place && at < rows.len() {
        assert(before(rows[place].key, rows[at].key, true));
    }
    if at == place && at > 0 {
        assert(before(rows[at - 1].key, end, true));
        lemma_lt_asymmetric(end, rows[at - 1].key);
    }
    lemma_starts(rows, true, window, at);
}

/// The row at which a walk comes to the window is known by its neighbours.
proof fn lemma_starts(rows: Seq<Row>, reversed: bool, window: Window, at: int)
    requires
        rows_wf(rows, reversed),
        0 <= at <= rows.len(),
        at > 0 ==> window.ahead(rows[at - 1].key, reversed),
        at < rows.len() ==> !window.ahead(rows[at].key, reversed),
    ensures
        window.starts_at(rows, reversed, at),
{
    assert forall|i: int| 0 <= i < at implies window.ahead((#[trigger] rows[i]).key, reversed) by {
        if i < at - 1 {
            let (a, b) = (rows[i].key, rows[at - 1].key);
            assert(before(a, b, reversed));
            if reversed {
                if lex_lt(a, window.upper) {
                    lemma_lt_transitive(b, a, window.upper);
                }
            } else {
                lemma_lt_transitive(a, b, window.lower);
            }
        }
    }
    assert forall|i: int| at <= i < rows.len() implies !window.ahead(
        (#[trigger] rows[i]).key,
        reversed,
    ) by {
        if i > at {
            let (a, b) = (rows[at].key, rows[i].key);
            assert(before(a, b, reversed));
            if reversed {
                lemma_lt_transitive(b, a, window.upper);
            } else {
                lemma_before(a, b, window.lower, false);
            }
        }
    }
}

} // verus!
