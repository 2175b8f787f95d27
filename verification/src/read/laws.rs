//! What reads of single keys find, told by what single tables hold.
use vstd::prelude::*;

use crate::bound::{ordered, Bound};
use crate::file_meta::SnapVersion;
use crate::fingerprint::farm_fingerprint;
use crate::key::{lemma_le_transitive, lemma_lt_irreflexive, lex_le, lex_lt};
use crate::read::get::{
    in_l0s, in_level, in_levels, in_mems, in_txn_files, newer_in_l0s, newer_in_level,
    newer_in_levels, newer_in_mems, reaching, row_of, still_cached, top_of, Ask, CfTables, RowTable,
    ValueTable,
};
use crate::read::rows::{rows_of, version_at, Row};
use crate::read::value::Value;
use crate::LOCK_CF;

verus! {

/// The key lies between the ends.
pub open spec fn between(b: Bound, key: Seq<u8>) -> bool {
    &&& lex_le(b.lower, key)
    &&& lex_lt(key, b.upper) || (b.inclusive && key == b.upper)
}

/// The lock file is not newer than the version and has the key.
pub open spec fn file_has<T: ValueTable>(f: (u64, T), ask: Ask) -> bool {
    f.0 <= ask.version && f.1.found(ask.key, ask.version, None) is Some
}

/// The memory table has a version of the key.
pub open spec fn mem_has<T: ValueTable>(t: T, ask: Ask) -> bool {
    t.found(ask.key, ask.version, None) is Some
}

/// The table of level 0 is asked for the key: it is there, and the key lies between its ends
/// or those are not minded.
pub open spec fn l0_asked<T: ValueTable>(t: Option<T>, ask: Ask, minded: bool) -> bool {
    t matches Some(tbl) && (!minded || between(tbl.bound(), ask.key))
}

/// The table of level 0 is asked for the key and has a version of it.
pub open spec fn l0_has<T: ValueTable>(t: Option<T>, ask: Ask, minded: bool) -> bool {
    l0_asked(t, ask, minded) && t->0.found(
        ask.key,
        ask.version,
        Some(farm_fingerprint(ask.key)),
    ) is Some
}

/// The key lies between the ends of the table, which has a version of it.
pub open spec fn table_has<T: ValueTable>(t: T, ask: Ask) -> bool {
    between(t.bound(), ask.key) && t.found(
        ask.key,
        ask.version,
        Some(farm_fingerprint(ask.key)),
    ) is Some
}

/// The table has no version of a key that does not lie between its ends.
pub open spec fn answers_inside<T: ValueTable>(t: T, ask: Ask) -> bool {
    t.found(ask.key, ask.version, Some(farm_fingerprint(ask.key))) is Some ==> between(
        t.bound(),
        ask.key,
    )
}

/// No two of the tables have a key in common.
pub open spec fn apart<T: ValueTable>(tables: Seq<T>) -> bool {
    forall|i: int, j: int|
        0 <= i < j < tables.len() ==> lex_lt(
            (#[trigger] tables[i].bound()).upper,
            (#[trigger] tables[j].bound()).lower,
        )
}

/// No table of the level has the key.
pub open spec fn level_lacks<T: ValueTable>(tables: Seq<T>, ask: Ask) -> bool {
    forall|t: int| 0 <= t < tables.len() ==> !table_has(#[trigger] tables[t], ask)
}

/// The tables of each level are in order and apart, and answer for their own keys alone.
pub open spec fn levels_apart<T: ValueTable>(levels: Seq<Vec<T>>, ask: Ask) -> bool {
    forall|k: int|
        0 <= k < levels.len() ==> {
            &&& ordered((#[trigger] levels[k])@)
            &&& apart(levels[k]@)
            &&& forall|t: int| 0 <= t < levels[k]@.len() ==> answers_inside(
                #[trigger] levels[k]@[t],
                ask,
            )
        }
}

proof fn lemma_reaching_place<T: ValueTable>(tables: Seq<T>, key: Seq<u8>, from: int)
    requires
        0 <= from <= tables.len(),
    ensures
        from <= reaching(tables, key, from) <= tables.len(),
        forall|j: int|
            from <= j < reaching(tables, key, from) ==> !lex_le(
                key,
                (#[trigger] tables[j].bound()).upper,
            ),
        reaching(tables, key, from) < tables.len() ==> lex_le(
            key,
            tables[reaching(tables, key, from)].bound().upper,
        ),
    decreases tables.len() - from,
{
    if from < tables.len() && !lex_le(key, tables[from].bound().upper) {
        lemma_reaching_place(tables, key, from + 1);
    }
}

/// The table that holds a key is the first that reaches to it.
proof fn lemma_reaching_is<T: ValueTable>(tables: Seq<T>, key: Seq<u8>, i: int)
    requires
        apart(tables),
        0 <= i < tables.len(),
        between(tables[i].bound(), key),
    ensures
        reaching(tables, key, 0) == i,
{
    lemma_reaching_place(tables, key, 0);
    let r = reaching(tables, key, 0);
    assert(lex_le(key, tables[i].bound().upper));
    if r < i {
        let low = tables[i].bound().lower;
        assert(lex_lt(tables[r].bound().upper, low));
        lemma_le_transitive(key, tables[r].bound().upper, low);
        lemma_le_transitive(key, low, key);
        lemma_lt_irreflexive(key);
    }
}

/// A level has what one of its tables has. The tables are in order and no two have a key in
/// common.
pub proof fn law_level_has_what_a_table_has<T: ValueTable>(tables: Seq<T>, ask: Ask, i: int)
    requires
        ordered(tables),
        apart(tables),
        0 <= i < tables.len(),
        table_has(tables[i], ask),
    ensures
        in_level(tables, ask) == tables[i].found(
            ask.key,
            ask.version,
            Some(farm_fingerprint(ask.key)),
        ),
        in_level(tables, ask) is Some,
{
    lemma_reaching_is(tables, ask.key, i);
}

/// What a level has, one of its tables has.
pub proof fn law_level_has_nothing_else<T: ValueTable>(tables: Seq<T>, ask: Ask)
    ensures
        in_level(tables, ask) is Some ==> exists|i: int|
            0 <= i < tables.len() && (#[trigger] tables[i]).found(
                ask.key,
                ask.version,
                Some(farm_fingerprint(ask.key)),
            ) == in_level(tables, ask),
{
    let r = reaching(tables, ask.key, 0);
    lemma_reaching_place(tables, ask.key, 0);
    if in_level(tables, ask) is Some {
        assert(tables[r].found(ask.key, ask.version, Some(farm_fingerprint(ask.key))) == in_level(
            tables,
            ask,
        ));
    }
}

/// Of the lock files that are not newer than the version the first that has the key answers.
pub proof fn law_first_lock_file_answers<T: ValueTable>(files: Seq<(u64, T)>, ask: Ask, from: int)
    requires
        0 <= from <= files.len(),
    ensures
        forall|f: int|
            from <= f < files.len() && #[trigger] file_has(files[f], ask) && (forall|g: int|
                from <= g < f ==> !#[trigger] file_has(files[g], ask)) ==> in_txn_files(
                files,
                ask,
                from,
            ) == files[f].1.found(ask.key, ask.version, None),
        (forall|f: int| from <= f < files.len() ==> !#[trigger] file_has(files[f], ask))
            ==> in_txn_files(files, ask, from) is None,
    decreases files.len() - from,
{
    if from < files.len() {
        law_first_lock_file_answers(files, ask, from + 1);
        let holds = file_has(files[from], ask);
        assert(holds == file_has(files[from], ask));
    }
}

/// Of the memory tables from a place on the first that has the key answers. Those up to it
/// are looked at.
pub proof fn law_first_memory_table_answers<T: ValueTable>(mems: Seq<T>, ask: Ask, from: int)
    requires
        0 <= from <= mems.len(),
    ensures
        forall|i: int|
            from <= i < mems.len() && #[trigger] mem_has(mems[i], ask) && (forall|j: int|
                from <= j < i ==> !#[trigger] mem_has(mems[j], ask)) ==> in_mems(mems, ask, from)
                == (mems[i].found(ask.key, ask.version, None), i - from + 1),
        (forall|i: int| from <= i < mems.len() ==> !#[trigger] mem_has(mems[i], ask)) ==> in_mems(
            mems,
            ask,
            from,
        ) == (None::<Value>, mems.len() - from),
    decreases mems.len() - from,
{
    if from < mems.len() {
        law_first_memory_table_answers(mems, ask, from + 1);
        let holds = mem_has(mems[from], ask);
        assert(holds == mem_has(mems[from], ask));
    }
}

/// Of the tables of level 0 from a place on the first that is asked and has the key answers.
pub proof fn law_first_table_of_level_0_answers<T: ValueTable>(
    l0s: Seq<Option<T>>,
    ask: Ask,
    minded: bool,
    from: int,
)
    requires
        0 <= from <= l0s.len(),
    ensures
        forall|i: int|
            from <= i < l0s.len() && #[trigger] l0_has(l0s[i], ask, minded) && (forall|j: int|
                from <= j < i ==> !#[trigger] l0_has(l0s[j], ask, minded)) ==> in_l0s(
                l0s,
                ask,
                minded,
                from,
            ).0 == l0s[i]->0.found(ask.key, ask.version, Some(farm_fingerprint(ask.key))),
        (forall|i: int| from <= i < l0s.len() ==> !#[trigger] l0_has(l0s[i], ask, minded))
            ==> in_l0s(l0s, ask, minded, from).0 is None,
    decreases l0s.len() - from,
{
    if from < l0s.len() {
        law_first_table_of_level_0_answers(l0s, ask, minded, from + 1);
        let holds = l0_has(l0s[from], ask, minded);
        assert(holds == l0_has(l0s[from], ask, minded));
    }
}

/// How many of the tables from `from` to before `to` are asked.
pub open spec fn l0s_asked<T: ValueTable>(
    l0s: Seq<Option<T>>,
    ask: Ask,
    minded: bool,
    from: int,
    to: int,
) -> int {
    l0s.subrange(from, to).filter(|t: Option<T>| l0_asked(t, ask, minded)).len() as int
}

proof fn lemma_l0s_asked<T: ValueTable>(
    l0s: Seq<Option<T>>,
    ask: Ask,
    minded: bool,
    from: int,
    to: int,
)
    requires
        0 <= from < to <= l0s.len(),
    ensures
        l0s_asked(l0s, ask, minded, from, to) == l0s_asked(l0s, ask, minded, from + 1, to) + if
            l0_asked(l0s[from], ask, minded) {
            1int
        } else {
            0
        },
        l0s_asked(l0s, ask, minded, to, to) == 0,
{
    let p = |t: Option<T>| l0_asked(t, ask, minded);
    let one = seq![l0s[from]];
    reveal(Seq::filter);
    assert(one.drop_last() =~= Seq::empty());
    assert(one.drop_last().filter(p) =~= Seq::empty());
    assert(l0s.subrange(from, to) =~= one + l0s.subrange(from + 1, to));
    Seq::filter_distributes_over_add(one, l0s.subrange(from + 1, to), p);
    assert(l0s.subrange(to, to) =~= Seq::empty());
    assert(l0s.subrange(to, to).filter(p) =~= Seq::empty());
}

/// The tables of level 0 that are asked are counted, up to the first that has the key.
pub proof fn law_tables_of_level_0_are_counted<T: ValueTable>(
    l0s: Seq<Option<T>>,
    ask: Ask,
    minded: bool,
    from: int,
    to: int,
)
    requires
        0 <= from <= to <= l0s.len(),
        forall|i: int| from <= i < to - 1 ==> !#[trigger] l0_has(l0s[i], ask, minded),
        from < to && l0_has(l0s[to - 1], ask, minded) || (to == l0s.len() && (from < to
            ==> !l0_has(l0s[to - 1], ask, minded))),
    ensures
        in_l0s(l0s, ask, minded, from).1 == l0s_asked(l0s, ask, minded, from, to),
    decreases to - from,
{
    if from < to {
        lemma_l0s_asked(l0s, ask, minded, from, to);
        let holds = l0_has(l0s[from], ask, minded);
        assert(holds == l0_has(l0s[from], ask, minded));
        if from < to - 1 || !holds {
            law_tables_of_level_0_are_counted(l0s, ask, minded, from + 1, to);
        }
    } else {
        let p = |t: Option<T>| l0_asked(t, ask, minded);
        assert(l0s.subrange(to, to) =~= Seq::empty());
        assert(l0s.subrange(to, to).filter(p) =~= Seq::empty()) by {
            reveal(Seq::filter);
        }
    }
}

/// Of the lower levels from a place on the first of which a table has the key answers with
/// what the table has. Those up to it are looked at.
pub proof fn law_first_lower_level_answers<T: ValueTable>(
    levels: Seq<Vec<T>>,
    ask: Ask,
    from: int,
)
    requires
        0 <= from <= levels.len(),
        levels_apart(levels, ask),
    ensures
        forall|k: int, t: int|
            from <= k < levels.len() && 0 <= t < levels[k]@.len() && #[trigger] table_has(
                levels[k]@[t],
                ask,
            ) && (forall|j: int| from <= j < k ==> level_lacks((#[trigger] levels[j])@, ask))
                ==> in_levels(levels, ask, from) == (
                levels[k]@[t].found(ask.key, ask.version, Some(farm_fingerprint(ask.key))),
                k - from + 1,
            ),
        (forall|k: int| from <= k < levels.len() ==> level_lacks((#[trigger] levels[k])@, ask))
            ==> in_levels(levels, ask, from) == (None::<Value>, levels.len() - from),
    decreases levels.len() - from,
{
    if from < levels.len() {
        law_first_lower_level_answers(levels, ask, from + 1);
        let tables = levels[from]@;
        assert(ordered(tables) && apart(tables));
        law_level_has_nothing_else(tables, ask);
        if in_level(tables, ask) is Some {
            let i = choose|i: int|
                0 <= i < tables.len() && (#[trigger] tables[i]).found(
                    ask.key,
                    ask.version,
                    Some(farm_fingerprint(ask.key)),
                ) == in_level(tables, ask);
            assert(answers_inside(tables[i], ask));
            assert(table_has(tables[i], ask));
            assert(!level_lacks(tables, ask));
        }
        assert forall|t: int| 0 <= t < tables.len() && table_has(#[trigger] tables[t], ask) implies
            in_level(tables, ask) == tables[t].found(
            ask.key,
            ask.version,
            Some(farm_fingerprint(ask.key)),
        ) && in_level(tables, ask) is Some by {
            law_level_has_what_a_table_has(tables, ask, t);
        }
        if !level_lacks(tables, ask) {
            let t = choose|t: int| 0 <= t < tables.len() && table_has(#[trigger] tables[t], ask);
            assert(in_level(tables, ask) is Some);
        }
    }
}

/// No lock file answers.
pub open spec fn no_file<T: ValueTable>(
    tables: CfTables<T>,
    files: Seq<(u64, T)>,
    ask: Ask,
) -> bool {
    tables.cf != LOCK_CF || forall|f: int|
        0 <= f < files.len() ==> !#[trigger] file_has(files[f], ask)
}

/// No memory table has the key.
pub open spec fn no_mem<T: ValueTable>(tables: CfTables<T>, ask: Ask) -> bool {
    forall|i: int|
        0 <= i < tables.mem_tbls@.len() ==> !#[trigger] mem_has(tables.mem_tbls@[i], ask)
}

/// No table of level 0 has the key.
pub open spec fn no_l0<T: ValueTable>(tables: CfTables<T>, ask: Ask) -> bool {
    forall|i: int|
        0 <= i < tables.l0_tbls@.len() ==> !#[trigger] l0_has(tables.l0_tbls@[i], ask, true)
}

/// A read gives what the first table that has the key holds of it, and nothing only where no
/// table has it: lock files come first where locks are read, and then the memory tables, the
/// tables of level 0 and those of the lower levels, the newest first.
pub proof fn law_first_table_that_has_the_key_is_read<T: ValueTable>(
    tables: CfTables<T>,
    files: Seq<(u64, T)>,
    ask: Ask,
)
    requires
        tables.wf(),
        levels_apart(tables.levels@, ask),
    ensures
        tables.cf == LOCK_CF ==> forall|f: int|
            0 <= f < files.len() && #[trigger] file_has(files[f], ask) && (forall|g: int|
                0 <= g < f ==> !#[trigger] file_has(files[g], ask)) ==> tables.found(
                files,
                ask,
            ).0 == files[f].1.found(ask.key, ask.version, None),
        no_file(tables, files, ask) ==> forall|i: int|
            0 <= i < tables.mem_tbls@.len() && #[trigger] mem_has(tables.mem_tbls@[i], ask) && (
            forall|j: int| 0 <= j < i ==> !#[trigger] mem_has(tables.mem_tbls@[j], ask)) ==> {
                let (v, path) = tables.found(files, ask);
                &&& v == tables.mem_tbls@[i].found(ask.key, ask.version, None)
                &&& path.mem_table == if i + 1 > u8::MAX {
                    u8::MAX as int
                } else {
                    i + 1
                }
                &&& path.l0 == 0
                &&& path.ln == 0
            },
        no_file(tables, files, ask) && no_mem(tables, ask) ==> forall|i: int|
            0 <= i < tables.l0_tbls@.len() && #[trigger] l0_has(tables.l0_tbls@[i], ask, true) && (
            forall|j: int| 0 <= j < i ==> !#[trigger] l0_has(tables.l0_tbls@[j], ask, true))
                ==> tables.found(files, ask).0 == tables.l0_tbls@[i]->0.found(
                ask.key,
                ask.version,
                Some(farm_fingerprint(ask.key)),
            ),
        no_file(tables, files, ask) && no_mem(tables, ask) && no_l0(tables, ask) ==> forall|
            k: int,
            t: int,
        |
            0 <= k < tables.levels@.len() && 0 <= t < tables.levels@[k]@.len()
                && #[trigger] table_has(tables.levels@[k]@[t], ask) && (forall|j: int|
                0 <= j < k ==> level_lacks((#[trigger] tables.levels@[j])@, ask)) ==> {
                let (v, path) = tables.found(files, ask);
                &&& v == tables.levels@[k]@[t].found(
                    ask.key,
                    ask.version,
                    Some(farm_fingerprint(ask.key)),
                )
                &&& path.ln == k + 1
            },
        no_file(tables, files, ask) && no_mem(tables, ask) && no_l0(tables, ask) && (forall|k: int|
            0 <= k < tables.levels@.len() ==> level_lacks((#[trigger] tables.levels@[k])@, ask))
            ==> tables.found(files, ask).0 is None,
{
    law_first_lock_file_answers(files, ask, 0);
    law_first_memory_table_answers(tables.mem_tbls@, ask, 0);
    law_first_table_of_level_0_answers(tables.l0_tbls@, ask, true, 0);
    law_first_lower_level_answers(tables.levels@, ask, 0);
}

/// A key that some table of the lower levels has is found.
pub proof fn law_what_a_table_has_is_read<T: ValueTable>(
    tables: CfTables<T>,
    files: Seq<(u64, T)>,
    ask: Ask,
    k: int,
    t: int,
)
    requires
        tables.wf(),
        levels_apart(tables.levels@, ask),
        0 <= k < tables.levels@.len(),
        0 <= t < tables.levels@[k]@.len(),
        table_has(tables.levels@[k]@[t], ask),
    ensures
        tables.found(files, ask).0 is Some,
{
    law_first_lock_file_answers(files, ask, 0);
    law_first_memory_table_answers(tables.mem_tbls@, ask, 0);
    law_first_table_of_level_0_answers(tables.l0_tbls@, ask, true, 0);
    lemma_level_read(tables.levels@, ask, 0, k, t);
}

proof fn lemma_level_read<T: ValueTable>(levels: Seq<Vec<T>>, ask: Ask, from: int, k: int, t: int)
    requires
        levels_apart(levels, ask),
        0 <= from <= k < levels.len(),
        0 <= t < levels[k]@.len(),
        table_has(levels[k]@[t], ask),
    ensures
        in_levels(levels, ask, from).0 is Some,
    decreases k - from,
{
    if from < k {
        lemma_level_read(levels, ask, from + 1, k, t);
    } else {
        assert(ordered(levels[k]@) && apart(levels[k]@));
        law_level_has_what_a_table_has(levels[k]@, ask, t);
    }
}

/// The memory table has a newer version of the key.
pub open spec fn mem_newer<T: ValueTable>(t: T, ask: Ask) -> bool {
    t.found_newer(ask.key, ask.version, None) is Some
}

/// The table has a newer version of the key.
pub open spec fn table_newer<T: ValueTable>(t: T, ask: Ask) -> bool {
    t.found_newer(ask.key, ask.version, Some(farm_fingerprint(ask.key))) is Some
}

/// The table has newer versions only of keys between its ends, and only where its highest
/// timestamp is newer.
pub open spec fn newer_inside<T: ValueTable>(t: T, ask: Ask) -> bool {
    table_newer(t, ask) ==> between(t.bound(), ask.key) && t.top_ts() > ask.version
}

/// No table of the level has a newer version of the key.
pub open spec fn level_lacks_newer<T: ValueTable>(tables: Seq<T>, ask: Ask) -> bool {
    forall|t: int| 0 <= t < tables.len() ==> !table_newer(#[trigger] tables[t], ask)
}

/// The tables of each level are in order and apart, and have newer versions of their own keys
/// alone.
pub open spec fn newer_apart<T: ValueTable>(levels: Seq<Vec<T>>, ask: Ask) -> bool {
    forall|k: int|
        0 <= k < levels.len() ==> {
            &&& ordered((#[trigger] levels[k])@)
            &&& apart(levels[k]@)
            &&& forall|t: int| 0 <= t < levels[k]@.len() ==> newer_inside(
                #[trigger] levels[k]@[t],
                ask,
            )
        }
}

/// The highest timestamp of tables is that of one of them, and of none a higher one.
pub proof fn law_highest_timestamp_of_tables<T: ValueTable>(tables: Seq<T>, from: int)
    requires
        0 <= from <= tables.len(),
    ensures
        forall|i: int| from <= i < tables.len() ==> (#[trigger] tables[i]).top_ts() <= top_of(
            tables,
            from,
        ),
        top_of(tables, from) == 0 || exists|i: int|
            from <= i < tables.len() && (#[trigger] tables[i]).top_ts() == top_of(tables, from),
    decreases tables.len() - from,
{
    if from < tables.len() {
        law_highest_timestamp_of_tables(tables, from + 1);
        assert(tables[from].top_ts() <= top_of(tables, from));
    }
}

/// A level has the newer version that one of its tables has, and no other.
pub proof fn law_level_has_the_newer_version<T: ValueTable>(tables: Seq<T>, ask: Ask)
    requires
        ordered(tables),
        apart(tables),
        forall|t: int| 0 <= t < tables.len() ==> newer_inside(#[trigger] tables[t], ask),
    ensures
        forall|t: int|
            0 <= t < tables.len() && #[trigger] table_newer(tables[t], ask) ==> newer_in_level(
                tables,
                ask,
            ) == tables[t].found_newer(ask.key, ask.version, Some(farm_fingerprint(ask.key))),
        level_lacks_newer(tables, ask) ==> newer_in_level(tables, ask) is None,
{
    law_highest_timestamp_of_tables(tables, 0);
    lemma_reaching_place(tables, ask.key, 0);
    let r = reaching(tables, ask.key, 0);
    if r < tables.len() {
        let holds = table_newer(tables[r], ask);
        assert(holds == table_newer(tables[r], ask));
    }
    assert forall|t: int| 0 <= t < tables.len() && #[trigger] table_newer(
        tables[t],
        ask,
    ) implies newer_in_level(tables, ask) == tables[t].found_newer(
        ask.key,
        ask.version,
        Some(farm_fingerprint(ask.key)),
    ) by {
        assert(newer_inside(tables[t], ask));
        lemma_reaching_is(tables, ask.key, t);
    }
}

proof fn lemma_newer_in_mems<T: ValueTable>(mems: Seq<T>, ask: Ask, from: int)
    requires
        0 <= from <= mems.len(),
    ensures
        forall|i: int|
            from <= i < mems.len() && #[trigger] mem_newer(mems[i], ask) && (forall|j: int|
                from <= j < i ==> !#[trigger] mem_newer(mems[j], ask)) ==> newer_in_mems(
                mems,
                ask,
                from,
            ) == mems[i].found_newer(ask.key, ask.version, None),
        (forall|i: int| from <= i < mems.len() ==> !#[trigger] mem_newer(mems[i], ask))
            ==> newer_in_mems(mems, ask, from) is None,
    decreases mems.len() - from,
{
    if from < mems.len() {
        lemma_newer_in_mems(mems, ask, from + 1);
        let holds = mem_newer(mems[from], ask);
        assert(holds == mem_newer(mems[from], ask));
    }
}

/// The table of level 0 is there and has a newer version of the key.
pub open spec fn l0_newer<T: ValueTable>(t: Option<T>, ask: Ask) -> bool {
    t matches Some(tbl) && table_newer(tbl, ask)
}

proof fn lemma_newer_in_l0s<T: ValueTable>(l0s: Seq<Option<T>>, ask: Ask, from: int)
    requires
        0 <= from <= l0s.len(),
    ensures
        forall|i: int|
            from <= i < l0s.len() && #[trigger] l0_newer(l0s[i], ask) && (forall|j: int|
                from <= j < i ==> !#[trigger] l0_newer(l0s[j], ask)) ==> newer_in_l0s(
                l0s,
                ask,
                from,
            ) == l0s[i]->0.found_newer(ask.key, ask.version, Some(farm_fingerprint(ask.key))),
        (forall|i: int| from <= i < l0s.len() ==> !#[trigger] l0_newer(l0s[i], ask))
            ==> newer_in_l0s(l0s, ask, from) is None,
    decreases l0s.len() - from,
{
    if from < l0s.len() {
        lemma_newer_in_l0s(l0s, ask, from + 1);
        let holds = l0_newer(l0s[from], ask);
        assert(holds == l0_newer(l0s[from], ask));
    }
}

proof fn lemma_newer_in_levels<T: ValueTable>(levels: Seq<Vec<T>>, ask: Ask, from: int)
    requires
        0 <= from <= levels.len(),
        newer_apart(levels, ask),
    ensures
        forall|k: int, t: int|
            from <= k < levels.len() && 0 <= t < levels[k]@.len() && #[trigger] table_newer(
                levels[k]@[t],
                ask,
            ) && (forall|j: int| from <= j < k ==> level_lacks_newer((#[trigger] levels[j])@, ask))
                ==> newer_in_levels(levels, ask, from) == levels[k]@[t].found_newer(
                ask.key,
                ask.version,
                Some(farm_fingerprint(ask.key)),
            ),
        (forall|k: int|
            from <= k < levels.len() ==> level_lacks_newer((#[trigger] levels[k])@, ask))
            ==> newer_in_levels(levels, ask, from) is None,
    decreases levels.len() - from,
{
    if from < levels.len() {
        lemma_newer_in_levels(levels, ask, from + 1);
        assert(ordered(levels[from]@) && apart(levels[from]@));
        law_level_has_the_newer_version(levels[from]@, ask);
        if !level_lacks_newer(levels[from]@, ask) {
            let t = choose|t: int|
                0 <= t < levels[from]@.len() && table_newer(#[trigger] levels[from]@[t], ask);
            assert(newer_in_level(levels[from]@, ask) is Some);
        }
    }
}

/// A search for a newer version gives that of the first table that has one, and nothing only
/// where no table has one: the memory tables come first, and then the tables of level 0 and
/// those of the lower levels.
pub proof fn law_first_newer_version_is_read<T: ValueTable>(tables: CfTables<T>, ask: Ask)
    requires
        tables.wf(),
        newer_apart(tables.levels@, ask),
    ensures
        forall|i: int|
            0 <= i < tables.mem_tbls@.len() && #[trigger] mem_newer(tables.mem_tbls@[i], ask) && (
            forall|j: int| 0 <= j < i ==> !#[trigger] mem_newer(tables.mem_tbls@[j], ask))
                ==> tables.newer(ask) == tables.mem_tbls@[i].found_newer(
                ask.key,
                ask.version,
                None,
            ),
        ({
            let no_mem = forall|i: int|
                0 <= i < tables.mem_tbls@.len() ==> !#[trigger] mem_newer(
                    tables.mem_tbls@[i],
                    ask,
                );
            let no_l0 = forall|i: int|
                0 <= i < tables.l0_tbls@.len() ==> !#[trigger] l0_newer(tables.l0_tbls@[i], ask);
            &&& no_mem ==> forall|i: int|
                0 <= i < tables.l0_tbls@.len() && #[trigger] l0_newer(tables.l0_tbls@[i], ask) && (
                forall|j: int| 0 <= j < i ==> !#[trigger] l0_newer(tables.l0_tbls@[j], ask))
                    ==> tables.newer(ask) == tables.l0_tbls@[i]->0.found_newer(
                    ask.key,
                    ask.version,
                    Some(farm_fingerprint(ask.key)),
                )
            &&& no_mem && no_l0 ==> forall|k: int, t: int|
                0 <= k < tables.levels@.len() && 0 <= t < tables.levels@[k]@.len()
                    && #[trigger] table_newer(tables.levels@[k]@[t], ask) && (forall|j: int|
                    0 <= j < k ==> level_lacks_newer((#[trigger] tables.levels@[j])@, ask))
                    ==> tables.newer(ask) == tables.levels@[k]@[t].found_newer(
                    ask.key,
                    ask.version,
                    Some(farm_fingerprint(ask.key)),
                )
            &&& no_mem && no_l0 && (forall|k: int|
                0 <= k < tables.levels@.len() ==> level_lacks_newer(
                    (#[trigger] tables.levels@[k])@,
                    ask,
                )) ==> tables.newer(ask) is None
        }),
{
    lemma_newer_in_mems(tables.mem_tbls@, ask, 0);
    lemma_newer_in_l0s(tables.l0_tbls@, ask, 0);
    lemma_newer_in_levels(tables.levels@, ask, 0);
}

proof fn lemma_row_of(keys: Seq<Vec<u8>>, key: Seq<u8>, from: int)
    requires
        0 <= from <= keys.len() <= usize::MAX,
    ensures
        match row_of(keys, key, from) {
            Some(i) => from <= i < keys.len() && keys[i as int]@ == key,
            None => forall|i: int| from <= i < keys.len() ==> (#[trigger] keys[i])@ != key,
        },
    decreases keys.len() - from,
{
    if from < keys.len() && keys[from]@ != key {
        lemma_row_of(keys, key, from + 1);
    }
}

/// The first version that is not newer is found.
pub proof fn lemma_first_not_newer(versions: Seq<Value>, from: int, ts: u64)
    requires
        0 <= from <= versions.len(),
    ensures
        from <= version_at(versions, from, ts) <= versions.len(),
        forall|k: int|
            from <= k < version_at(versions, from, ts) ==> (#[trigger] versions[k]).version > ts,
        version_at(versions, from, ts) < versions.len() ==> versions[version_at(
            versions,
            from,
            ts,
        )].version <= ts,
    decreases versions.len() - from,
{
    if from < versions.len() && versions[from].version > ts {
        lemma_first_not_newer(versions, from + 1, ts);
    }
}

/// Rows in memory have a version of a key if and only if one of its versions is not newer than
/// the one asked for. The first of those, the newest, is found. There is a newer version if and
/// only if the first is newer.
pub proof fn law_rows_have_their_versions(
    table: RowTable,
    key: Seq<u8>,
    version: u64,
    hash: Option<u64>,
)
    requires
        table.wf(),
        table.keys@.len() <= usize::MAX,
    ensures
        forall|i: int, k: int|
            0 <= i < table.keys@.len() && table.keys@[i]@ == key && 0 <= k
                < table.versions@[i]@.len() && (#[trigger] table.versions@[i]@[k]).version
                <= version && (forall|j: int|
                0 <= j < k ==> (#[trigger] table.versions@[i]@[j]).version > version)
                ==> table.found(key, version, hash) == Some(table.versions@[i]@[k]),
        table.found(key, version, hash) is Some ==> exists|i: int, k: int|
            0 <= i < table.keys@.len() && table.keys@[i]@ == key && 0 <= k
                < table.versions@[i]@.len() && (#[trigger] table.versions@[i]@[k]).version
                <= version && table.found(key, version, hash) == Some(table.versions@[i]@[k]),
        forall|i: int|
            0 <= i < table.keys@.len() && (#[trigger] table.keys@[i])@ == key ==> {
                let newest = table.versions@[i]@[0];
                table.found_newer(key, version, hash) == if newest.version > version {
                    Some(newest)
                } else {
                    None
                }
            },
        (forall|i: int| 0 <= i < table.keys@.len() ==> (#[trigger] table.keys@[i])@ != key) ==> {
            &&& table.found(key, version, hash) is None
            &&& table.found_newer(key, version, hash) is None
        },
{
    lemma_row_of(table.keys@, key, 0);
    let rows = rows_of(table.keys@, table.versions@);
    match row_of(table.keys@, key, 0) {
        Some(r) => {
            let versions = table.versions@[r as int]@;
            lemma_first_not_newer(versions, 0, version);
            assert(rows[r as int] == (Row { key, versions }));
            assert forall|i: int| 0 <= i < table.keys@.len() && (#[trigger] table.keys@[i])@
                == key implies i == r by {
                lemma_lt_irreflexive(key);
                assert(rows[i].key == key);
                if i < r {
                    assert(lex_lt(rows[i].key, rows[r as int].key));
                } else if r < i {
                    assert(lex_lt(rows[r as int].key, rows[i].key));
                }
            }
            let k = version_at(versions, 0, version);
            if k < versions.len() {
                assert(table.versions@[r as int]@[k].version <= version);
            }
            assert forall|i: int, k2: int|
                0 <= i < table.keys@.len() && table.keys@[i]@ == key && 0 <= k2
                    < table.versions@[i]@.len() && (#[trigger] table.versions@[i]@[k2]).version
                    <= version && (forall|j: int|
                    0 <= j < k2 ==> (#[trigger] table.versions@[i]@[j]).version
                        > version) implies table.found(key, version, hash) == Some(
                table.versions@[i]@[k2],
            ) by {
                assert(i == r);
                assert(k <= k2);
                if k < k2 {
                    assert(table.versions@[i]@[k].version > version);
                }
            }
        },
        None => {},
    }
}

/// A memory table tells that nothing newer than a cached value can follow: what it and those
/// behind it hold was there when the value was cached.
pub open spec fn tells_cached(versions: Seq<SnapVersion>, cached_at: SnapVersion, i: int) -> bool {
    0 < versions[i].version < cached_at.version
}

/// A cached value is checked against the memory tables, the newest first. The first that has
/// the key gives the value in its place, unless it or one before it was there when the value
/// was cached; then the value still holds. Where no memory table tells, the value holds if the
/// files were written before it was cached, and otherwise only they can tell.
pub proof fn law_cached_value_is_checked<T: ValueTable>(
    mems: Seq<T>,
    versions: Seq<SnapVersion>,
    ask: Ask,
    cached_at: SnapVersion,
    persisted: SnapVersion,
    from: int,
)
    requires
        mems.len() == versions.len(),
        0 <= from <= mems.len(),
    ensures
        ({
            let res = still_cached(mems, versions, ask, cached_at, persisted, from);
            &&& forall|i: int|
                from <= i < mems.len() && #[trigger] tells_cached(versions, cached_at, i) && (
                forall|j: int|
                    from <= j < i ==> !#[trigger] tells_cached(versions, cached_at, j) && !mem_has(
                        mems[j],
                        ask,
                    )) ==> res == Some(None::<Value>)
            &&& forall|i: int|
                from <= i < mems.len() && #[trigger] mem_has(mems[i], ask) && !tells_cached(
                    versions,
                    cached_at,
                    i,
                ) && (forall|j: int|
                    from <= j < i ==> !#[trigger] tells_cached(versions, cached_at, j) && !mem_has(
                        mems[j],
                        ask,
                    )) ==> res == Some(mems[i].found(ask.key, ask.version, None))
            &&& (forall|j: int|
                from <= j < mems.len() ==> !#[trigger] tells_cached(versions, cached_at, j)
                    && !mem_has(mems[j], ask)) ==> res == if persisted.version
                < cached_at.version {
                Some(None::<Value>)
            } else {
                None
            }
        }),
    decreases mems.len() - from,
{
    if from < mems.len() {
        law_cached_value_is_checked(mems, versions, ask, cached_at, persisted, from + 1);
        let tells = tells_cached(versions, cached_at, from);
        assert(tells == tells_cached(versions, cached_at, from));
        let holds = mem_has(mems[from], ask);
        assert(holds == mem_has(mems[from], ask));
    }
}

} // verus!
