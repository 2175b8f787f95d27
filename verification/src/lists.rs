//! Lists that stand for sets.
use vstd::prelude::*;

verus! {

/// The items for which `keep` says so, in their order.
pub(crate) fn retain_vec<T, F: Fn(&T) -> bool>(
    v: Vec<T>,
    keep: F,
    Ghost(p): Ghost<spec_fn(T) -> bool>,
) -> (res: Vec<T>)
    requires
        forall|x: T| call_requires(keep, (&x,)),
        forall|x: T, b: bool| call_ensures(keep, (&x,), b) ==> b == p(x),
    ensures
        res@ == v@.filter(p),
{
    let ghost all = v@;
    let mut res: Vec<T> = Vec::new();
    proof {
        reveal(Seq::filter);
    }
    assert(all.take(0).filter(p) =~= Seq::empty());
    for x in it: v
        invariant
            it.seq() == all,
            res@ == all.take(it.index()).filter(p),
            forall|x: T| call_requires(keep, (&x,)),
            forall|x: T, b: bool| call_ensures(keep, (&x,), b) ==> b == p(x),
    {
        proof {
            reveal(Seq::filter);
            let i = it.index();
            assert(all.take(i + 1).drop_last() =~= all.take(i));
            assert(all.take(i + 1).last() == x);
        }
        if keep(&x) {
            res.push(x);
        }
    }
    assert(all.take(all.len() as int) =~= all);
    res
}

/// Whether the list holds the id.
pub fn contains_u64(v: &Vec<u64>, id: u64) -> (res: bool)
    ensures
        res == v@.contains(id),
{
    let mut i: usize = 0;
    while i < v.len()
        invariant
            i <= v@.len(),
            forall|j: int| 0 <= j < i ==> v@[j] != id,
        decreases v@.len() - i,
    {
        if v[i] == id {
            return true;
        }
        i = i + 1;
    }
    false
}

/// Whether the list holds the id.
pub fn contains_i64(v: &Vec<i64>, id: i64) -> (res: bool)
    ensures
        res == v@.contains(id),
{
    let mut i: usize = 0;
    while i < v.len()
        invariant
            i <= v@.len(),
            forall|j: int| 0 <= j < i ==> v@[j] != id,
        decreases v@.len() - i,
    {
        if v[i] == id {
            return true;
        }
        i = i + 1;
    }
    false
}

/// Some id of the list lies between the two, ends included.
pub open spec fn any_between(ids: Seq<i64>, min: i64, max: i64) -> bool {
    exists|i: int| 0 <= i < ids.len() && min <= #[trigger] ids[i] <= max
}

/// Whether some id of the list lies between the two, ends included.
pub fn has_between(ids: &Vec<i64>, min: i64, max: i64) -> (res: bool)
    ensures
        res == any_between(ids@, min, max),
{
    let mut i: usize = 0;
    while i < ids.len()
        invariant
            i <= ids@.len(),
            forall|j: int| 0 <= j < i ==> !(min <= #[trigger] ids@[j] <= max),
        decreases ids@.len() - i,
    {
        if min <= ids[i] && ids[i] <= max {
            return true;
        }
        i = i + 1;
    }
    false
}

/// A sorted list with one more id, unless it has it.
pub open spec fn insert_sorted(s: Seq<i64>, x: i64) -> Seq<i64>
    decreases s.len(),
{
    if s.len() == 0 {
        seq![x]
    } else if x < s[0] {
        seq![x] + s
    } else if x == s[0] {
        s
    } else {
        seq![s[0]] + insert_sorted(s.drop_first(), x)
    }
}

/// The ids in increasing order, each once.
pub open spec fn sort_dedup(s: Seq<i64>) -> Seq<i64>
    decreases s.len(),
{
    if s.len() == 0 {
        Seq::empty()
    } else {
        insert_sorted(sort_dedup(s.drop_last()), s.last())
    }
}

/// The ids increase.
pub open spec fn increasing(s: Seq<i64>) -> bool {
    forall|i: int, j: int| 0 <= i < j < s.len() ==> s[i] < s[j]
}

proof fn lemma_insert_sorted(s: Seq<i64>, x: i64)
    requires
        increasing(s),
    ensures
        increasing(insert_sorted(s, x)),
        forall|y: i64| #[trigger] insert_sorted(s, x).contains(y) <==> s.contains(y) || y == x,
    decreases s.len(),
{
    let r = insert_sorted(s, x);
    if s.len() == 0 {
        assert(r[0] == x);
    } else if x < s[0] {
        assert(r[0] == x);
        assert forall|y: i64| #[trigger] r.contains(y) <==> s.contains(y) || y == x by {
            if s.contains(y) {
                let i = choose|i: int| 0 <= i < s.len() && s[i] == y;
                assert(r[i + 1] == y);
            }
        }
    } else if x == s[0] {
    } else {
        let t = s.drop_first();
        lemma_insert_sorted(t, x);
        let u = insert_sorted(t, x);
        assert forall|y: i64| #[trigger] r.contains(y) <==> s.contains(y) || y == x by {
            if s.contains(y) {
                let i = choose|i: int| 0 <= i < s.len() && s[i] == y;
                if i > 0 {
                    assert(t[i - 1] == y);
                    assert(u.contains(y));
                    let j = choose|j: int| 0 <= j < u.len() && u[j] == y;
                    assert(r[j + 1] == y);
                } else {
                    assert(r[0] == y);
                }
            }
            if y == x {
                assert(u.contains(x));
                let j = choose|j: int| 0 <= j < u.len() && u[j] == x;
                assert(r[j + 1] == x);
            }
            if r.contains(y) {
                let i = choose|i: int| 0 <= i < r.len() && r[i] == y;
                if i > 0 {
                    assert(u[i - 1] == y);
                    assert(u.contains(y));
                    if t.contains(y) {
                        let j = choose|j: int| 0 <= j < t.len() && t[j] == y;
                        assert(s[j + 1] == y);
                    }
                } else {
                    assert(s[0] == y);
                }
            }
        }
        assert forall|i: int, j: int| 0 <= i < j < r.len() implies r[i] < r[j] by {
            if i == 0 {
                assert(u.contains(u[j - 1]));
                if u[j - 1] != x {
                    let l = choose|l: int| 0 <= l < t.len() && t[l] == u[j - 1];
                    assert(s[l + 1] == t[l]);
                }
            }
        }
    }
}

/// Sorting and dropping repeats keeps the ids, in increasing order.
pub proof fn law_sort_dedup(s: Seq<i64>)
    ensures
        increasing(sort_dedup(s)),
        forall|y: i64| #[trigger] sort_dedup(s).contains(y) <==> s.contains(y),
    decreases s.len(),
{
    if s.len() > 0 {
        let head = s.drop_last();
        law_sort_dedup(head);
        lemma_insert_sorted(sort_dedup(head), s.last());
        assert forall|y: i64| #[trigger] sort_dedup(s).contains(y) <==> s.contains(y) by {
            if s.contains(y) {
                let i = choose|i: int| 0 <= i < s.len() && s[i] == y;
                if i < head.len() {
                    assert(head[i] == y);
                }
            }
            if head.contains(y) {
                let i = choose|i: int| 0 <= i < head.len() && head[i] == y;
                assert(s[i] == y);
            }
            assert(s[s.len() - 1] == s.last());
        }
    }
}

fn insert_id(v: &mut Vec<i64>, x: i64)
    ensures
        final(v)@ == insert_sorted(old(v)@, x),
{
    let ghost before = v@;
    let mut i: usize = 0;
    assert(before.take(0) + insert_sorted(before.skip(0), x) =~= insert_sorted(before, x)) by {
        assert(before.skip(0) =~= before);
    }
    while i < v.len() && v[i] < x
        invariant
            v@ == before,
            i <= v@.len(),
            before.take(i as int) + insert_sorted(before.skip(i as int), x) == insert_sorted(
                before,
                x,
            ),
        decreases v@.len() - i,
    {
        proof {
            let rest = before.skip(i as int);
            assert(rest.drop_first() =~= before.skip(i + 1));
            assert(before.take(i + 1) + insert_sorted(before.skip(i + 1), x) =~= before.take(
                i as int,
            ) + (seq![rest[0]] + insert_sorted(rest.drop_first(), x)));
        }
        i = i + 1;
    }
    if i < v.len() && v[i] == x {
        assert(before.take(i as int) + before.skip(i as int) =~= before);
        return;
    }
    v.insert(i, x);
    assert(v@ =~= before.take(i as int) + insert_sorted(before.skip(i as int), x));
}

/// The ids in increasing order, each once.
pub fn sorted_ids(v: &Vec<i64>) -> (res: Vec<i64>)
    ensures
        res@ == sort_dedup(v@),
{
    let mut res: Vec<i64> = Vec::new();
    let mut i: usize = 0;
    assert(v@.take(0) =~= Seq::empty());
    while i < v.len()
        invariant
            i <= v@.len(),
            res@ == sort_dedup(v@.take(i as int)),
        decreases v@.len() - i,
    {
        assert(v@.take(i + 1).drop_last() =~= v@.take(i as int));
        insert_id(&mut res, v[i]);
        i = i + 1;
    }
    assert(v@.take(i as int) =~= v@);
    res
}

/// A copy of the ids.
pub fn copy_u64s(v: &Vec<u64>) -> (res: Vec<u64>)
    ensures
        res@ == v@,
{
    let res = v.clone();
    assert(res@ =~= v@);
    res
}

/// A copy of the ids.
pub fn copy_i64s(v: &Vec<i64>) -> (res: Vec<i64>)
    ensures
        res@ == v@,
{
    let res = v.clone();
    assert(res@ =~= v@);
    res
}

/// Appends the ids.
pub fn extend_i64s(v: &mut Vec<i64>, more: &Vec<i64>)
    ensures
        final(v)@ == old(v)@ + more@,
{
    let ghost before = v@;
    v.extend_from_slice(more.as_slice());
    assert(v@ =~= before + more@);
}

/// Pairs of a table and an index, each once.
pub struct IndexSet {
    items: Vec<(i64, i64)>,
}

impl View for IndexSet {
    type V = Set<(i64, i64)>;

    closed spec fn view(&self) -> Set<(i64, i64)> {
        self.items@.to_set()
    }
}

impl Default for IndexSet {
    fn default() -> (res: Self)
        ensures
            res@ == Set::<(i64, i64)>::empty(),
    {
        Self::new()
    }
}

impl IndexSet {
    #[verifier::type_invariant]
    spec fn wf(self) -> bool {
        self.items@.no_duplicates()
    }

    /// No pair.
    pub fn new() -> (res: Self)
        ensures
            res@ == Set::<(i64, i64)>::empty(),
    {
        let res = IndexSet { items: Vec::new() };
        assert(res@ =~= Set::<(i64, i64)>::empty());
        res
    }

    /// A copy.
    pub fn copy(&self) -> (res: Self)
        ensures
            res@ == self@,
    {
        IndexSet { items: self.to_vec() }
    }

    /// Whether there is no pair.
    pub fn is_empty(&self) -> (res: bool)
        ensures
            res == (self@ == Set::<(i64, i64)>::empty()),
    {
        let res = self.items.len() == 0;
        proof {
            if res {
                assert(self@ =~= Set::<(i64, i64)>::empty());
            } else {
                assert(self@.contains(self.items@[0]));
            }
        }
        res
    }

    fn position(&self, item: (i64, i64)) -> (res: Option<usize>)
        ensures
            match res {
                Some(i) => i < self.items@.len() && self.items@[i as int] == item,
                None => !self.items@.contains(item),
            },
    {
        let mut i: usize = 0;
        while i < self.items.len()
            invariant
                i <= self.items@.len(),
                forall|j: int| 0 <= j < i ==> self.items@[j] != item,
            decreases self.items@.len() - i,
        {
            if self.items[i].0 == item.0 && self.items[i].1 == item.1 {
                return Some(i);
            }
            i = i + 1;
        }
        None
    }

    /// Whether the pair is there.
    pub fn contains(&self, item: &(i64, i64)) -> (res: bool)
        ensures
            res == self@.contains(*item),
    {
        self.position(*item).is_some()
    }

    /// Adds a pair.
    pub fn insert(&mut self, item: (i64, i64))
        ensures
            final(self)@ == old(self)@.insert(item),
    {
        proof {
            use_type_invariant(&*self);
        }
        let ghost before = self.items@;
        match self.position(item) {
            Some(_) => {
                assert(self@ =~= old(self)@.insert(item));
            },
            None => {
                let mut items: Vec<(i64, i64)> = Vec::new();
                std::mem::swap(&mut items, &mut self.items);
                items.push(item);
                proof {
                    let after = items@;
                    assert forall|x: (i64, i64)| #[trigger] after.contains(x) <==> before.contains(
                        x,
                    ) || x == item by {
                        if before.contains(x) {
                            let i = choose|i: int| 0 <= i < before.len() && before[i] == x;
                            assert(after[i] == x);
                        }
                        assert(after[before.len() as int] == item);
                    }
                    assert(after.to_set() =~= before.to_set().insert(item));
                }
                self.items = items;
            },
        }
    }

    /// Removes a pair.
    pub fn remove(&mut self, item: &(i64, i64))
        ensures
            final(self)@ == old(self)@.remove(*item),
    {
        proof {
            use_type_invariant(&*self);
        }
        let ghost before = self.items@;
        match self.position(*item) {
            Some(i) => {
                let mut items: Vec<(i64, i64)> = Vec::new();
                std::mem::swap(&mut items, &mut self.items);
                items.remove(i);
                proof {
                    let after = items@;
                    assert forall|x: (i64, i64)| #[trigger] after.contains(x) <==> before.contains(
                        x,
                    ) && x != *item by {
                        if before.contains(x) && x != *item {
                            let j = choose|j: int| 0 <= j < before.len() && before[j] == x;
                            if j < i {
                                assert(after[j] == x);
                            } else {
                                assert(after[j - 1] == x);
                            }
                        }
                        if after.contains(x) {
                            let j = choose|j: int| 0 <= j < after.len() && after[j] == x;
                            let k = if j < i {
                                j
                            } else {
                                j + 1
                            };
                            assert(before[k] == x);
                        }
                    }
                    assert(after.to_set() =~= before.to_set().remove(*item));
                }
                self.items = items;
            },
            None => {
                assert(self@ =~= old(self)@.remove(*item));
            },
        }
    }

    /// Keeps the pairs whose table is listed.
    pub fn retain_tables(&mut self, table_ids: &Vec<i64>)
        ensures
            final(self)@ == old(self)@.filter(|x: (i64, i64)| table_ids@.contains(x.0)),
    {
        proof {
            use_type_invariant(&*self);
        }
        let ghost before = self.items@;
        let ghost p = |x: (i64, i64)| table_ids@.contains(x.0);
        let mut items: Vec<(i64, i64)> = Vec::new();
        std::mem::swap(&mut items, &mut self.items);
        let keep = |x: &(i64, i64)| -> (b: bool)
            ensures
                b == table_ids@.contains(x.0),
            {
                contains_i64(table_ids, x.0)
            };
        let kept = retain_vec(items, keep, Ghost(p));
        proof {
            broadcast use vstd::seq_lib::group_filter_ensures;

            lemma_filter_distinct(before, p);
            assert(kept@.to_set() =~= before.to_set().filter(p)) by {
                assert forall|x: (i64, i64)| kept@.contains(x) <==> before.contains(x) && p(x) by {
                    if kept@.contains(x) {
                        before.lemma_filter_contains_rev(p, x);
                    }
                    if before.contains(x) && p(x) {
                        let i = choose|i: int| 0 <= i < before.len() && before[i] == x;
                        assert(before.filter(p).contains(before[i]));
                    }
                }
            }
        }
        self.items = kept;
    }

    /// The pairs, each once, in no particular order.
    pub fn to_vec(&self) -> (res: Vec<(i64, i64)>)
        ensures
            res@.no_duplicates(),
            res@.to_set() == self@,
    {
        proof {
            use_type_invariant(self);
        }
        let mut res: Vec<(i64, i64)> = Vec::new();
        let mut i: usize = 0;
        while i < self.items.len()
            invariant
                i <= self.items@.len(),
                res@ =~= self.items@.take(i as int),
            decreases self.items@.len() - i,
        {
            res.push((self.items[i].0, self.items[i].1));
            i = i + 1;
        }
        assert(res@ =~= self.items@);
        res
    }
}

/// The members of a list are those of the list that satisfy `p`.
pub proof fn lemma_filter_set(s: Seq<u64>, p: spec_fn(u64) -> bool)
    ensures
        s.filter(p).to_set() == s.to_set().filter(p),
{
    broadcast use vstd::seq_lib::group_filter_ensures;

    assert forall|x: u64| s.filter(p).contains(x) <==> s.contains(x) && p(x) by {
        if s.filter(p).contains(x) {
            s.lemma_filter_contains_rev(p, x);
        }
        if s.contains(x) && p(x) {
            let i = choose|i: int| 0 <= i < s.len() && s[i] == x;
            assert(s.filter(p).contains(s[i]));
        }
    }
    assert(s.filter(p).to_set() =~= s.to_set().filter(p));
}

/// One more member.
pub proof fn lemma_push_set(s: Seq<u64>, x: u64)
    ensures
        s.push(x).to_set() == s.to_set().insert(x),
{
    let t = s.push(x);
    assert forall|y: u64| t.contains(y) <==> s.contains(y) || y == x by {
        if s.contains(y) {
            let i = choose|i: int| 0 <= i < s.len() && s[i] == y;
            assert(t[i] == y);
        }
        assert(t[s.len() as int] == x);
    }
    assert(t.to_set() =~= s.to_set().insert(x));
}

/// The members of two lists.
pub proof fn lemma_concat_set(a: Seq<u64>, b: Seq<u64>)
    ensures
        (a + b).to_set() == a.to_set().union(b.to_set()),
{
    let t = a + b;
    assert forall|y: u64| t.contains(y) <==> a.contains(y) || b.contains(y) by {
        if a.contains(y) {
            let i = choose|i: int| 0 <= i < a.len() && a[i] == y;
            assert(t[i] == y);
        }
        if b.contains(y) {
            let i = choose|i: int| 0 <= i < b.len() && b[i] == y;
            assert(t[a.len() + i] == y);
        }
    }
    assert(t.to_set() =~= a.to_set().union(b.to_set()));
}

/// A list without repeats has none after some items are dropped.
pub proof fn lemma_filter_distinct<T>(s: Seq<T>, p: spec_fn(T) -> bool)
    requires
        s.no_duplicates(),
    ensures
        s.filter(p).no_duplicates(),
    decreases s.len(),
{
    reveal(Seq::filter);
    if s.len() > 0 {
        let head = s.drop_last();
        lemma_filter_distinct(head, p);
        let f = head.filter(p);
        if p(s.last()) {
            assert(!f.contains(s.last())) by {
                if f.contains(s.last()) {
                    head.lemma_filter_contains_rev(p, s.last());
                    let i = choose|i: int| 0 <= i < head.len() && head[i] == s.last();
                    assert(s[i] == s[s.len() - 1]);
                }
            }
            let g = f.push(s.last());
            assert forall|i: int, j: int| 0 <= i < g.len() && 0 <= j < g.len() && i
                != j implies g[i] != g[j] by {
                if i == f.len() {
                    assert(f.contains(f[j]));
                } else if j == f.len() {
                    assert(f.contains(f[i]));
                }
            }
        }
    }
}

/// The numbers do not decrease.
pub open spec fn sorted_u64(s: Seq<u64>) -> bool {
    forall|i: int, j: int| 0 <= i < j < s.len() ==> s[i] <= s[j]
}

/// The numbers in order.
pub fn sort_u64s(v: &Vec<u64>) -> (res: Vec<u64>)
    ensures
        sorted_u64(res@),
        res@.to_multiset() == v@.to_multiset(),
{
    let mut res: Vec<u64> = Vec::new();
    let mut i: usize = 0;
    assert(res@ =~= v@.take(0));
    while i < v.len()
        invariant
            i <= v@.len(),
            sorted_u64(res@),
            res@.to_multiset() =~= v@.take(i as int).to_multiset(),
        decreases v@.len() - i,
    {
        let x = v[i];
        let ghost s = res@;
        let mut j: usize = res.len();
        while j > 0 && x < res[j - 1]
            invariant
                j <= res@.len(),
                res@ == s,
                forall|k: int| j <= k < s.len() ==> x < s[k],
            decreases j,
        {
            j = j - 1;
        }
        res.insert(j, x);
        proof {
            assert(v@.take(i + 1) =~= v@.take(i as int).push(x));
            vstd::seq_lib::to_multiset_build(v@.take(i as int), x);
            vstd::seq_lib::to_multiset_insert(s, j as int, x);
            assert forall|a: int, b: int| 0 <= a < b < res@.len() implies res@[a] <= res@[b] by {
                if b == j {
                    assert(s[a] <= s[j - 1]);
                }
            }
        }
        i = i + 1;
    }
    assert(v@.take(i as int) =~= v@);
    res
}

/// The numbers do not decrease.
pub open spec fn sorted_i64(s: Seq<i64>) -> bool {
    forall|i: int, j: int| 0 <= i < j < s.len() ==> s[i] <= s[j]
}

/// The numbers in order.
pub fn sort_i64s(v: &Vec<i64>) -> (res: Vec<i64>)
    ensures
        sorted_i64(res@),
        res@.to_multiset() == v@.to_multiset(),
{
    let mut res: Vec<i64> = Vec::new();
    let mut i: usize = 0;
    assert(res@ =~= v@.take(0));
    while i < v.len()
        invariant
            i <= v@.len(),
            sorted_i64(res@),
            res@.to_multiset() =~= v@.take(i as int).to_multiset(),
        decreases v@.len() - i,
    {
        let x = v[i];
        let ghost s = res@;
        let mut j: usize = res.len();
        while j > 0 && x < res[j - 1]
            invariant
                j <= res@.len(),
                res@ == s,
                forall|k: int| j <= k < s.len() ==> x < s[k],
            decreases j,
        {
            j = j - 1;
        }
        res.insert(j, x);
        proof {
            assert(v@.take(i + 1) =~= v@.take(i as int).push(x));
            vstd::seq_lib::to_multiset_build(v@.take(i as int), x);
            vstd::seq_lib::to_multiset_insert(s, j as int, x);
            assert forall|a: int, b: int| 0 <= a < b < res@.len() implies res@[a] <= res@[b] by {
                if b == j {
                    assert(s[a] <= s[j - 1]);
                }
            }
        }
        i = i + 1;
    }
    assert(v@.take(i as int) =~= v@);
    res
}

/// A filtered list holds what the list holds and the filter lets pass.
pub proof fn lemma_filtered<A>(s: Seq<A>, p: spec_fn(A) -> bool, x: A)
    ensures
        s.filter(p).contains(x) <==> s.contains(x) && p(x),
{
    if s.filter(p).contains(x) {
        s.lemma_filter_contains_rev(p, x);
        let i = choose|i: int| 0 <= i < s.filter(p).len() && s.filter(p)[i] == x;
        s.lemma_filter_pred(p, i);
    }
    if s.contains(x) && p(x) {
        let i = choose|i: int| 0 <= i < s.len() && s[i] == x;
        s.lemma_filter_contains(p, i);
    }
}

/// What two lists hold one behind the other is what either holds.
pub proof fn lemma_joined<A>(a: Seq<A>, b: Seq<A>, x: A)
    ensures
        (a + b).contains(x) <==> a.contains(x) || b.contains(x),
{
    if (a + b).contains(x) {
        let i = choose|i: int| 0 <= i < (a + b).len() && (a + b)[i] == x;
        if i < a.len() {
            assert(a[i] == x);
        } else {
            assert(b[i - a.len()] == x);
        }
    }
    if a.contains(x) {
        let i = choose|i: int| 0 <= i < a.len() && a[i] == x;
        assert((a + b)[i] == x);
    }
    if b.contains(x) {
        let i = choose|i: int| 0 <= i < b.len() && b[i] == x;
        assert((a + b)[a.len() + i] == x);
    }
}

} // verus!
