//! What is read before a change set is applied, and how.
use std::collections::HashMap;

use bytes::Bytes;
use vstd::prelude::*;

use crate::file_meta::{FileMeta, FileType};
use crate::files::{file_ids, retain_files};
use crate::pb;
use crate::prepare::collect::{
    collect_files, collect_snap_lock_txn_file_refs, files_brought, get_replacing_snap,
    refs_with_locks, replacing_snap,
};
use crate::prepare::kind::{kind_of_class, FilePrepareType};
use crate::properties::{first_value, get_shard_property, opt_props_valid, ENCRYPTION_KEY};

verus! {

broadcast use vstd::std_specs::hash::group_hash_axioms;

/// How a change set is to be prepared.
pub struct PrepareOpts<'a> {
    /// How the files of the present shard are made readable.
    pub prepare_type: FilePrepareType,
    /// A shard whose present files are to be read again.
    pub reload_snap: Option<&'a pb::Snapshot>,
    /// All files that can be are left remote.
    pub force_ia: bool,
    /// Files of columns and indexes are not read.
    pub ignore_columnar_table_load: bool,
    /// Key of the files of the present shard, if they are encrypted. It is of no account
    /// where the change set replaces the shard.
    pub encryption_key: Option<&'a Bytes>,
}

/// Which key the files are encrypted with.
#[derive(Debug)]
pub enum KeySource {
    /// That of the present shard.
    Present(Bytes),
    /// None.
    Plain,
    /// The one that the bytes hold, sealed by the master key.
    Sealed(Bytes),
}

/// What is to be read.
pub struct PreparePlan {
    /// Files to read.
    pub files: HashMap<u64, FileMeta>,
    /// Files that the caller's filter holds back.
    pub unloaded: HashMap<u64, FileMeta>,
    /// How the files are made readable.
    pub prepare_type: FilePrepareType,
    /// Which key the files are encrypted with.
    pub key: KeySource,
    /// Schema file to read.
    pub schema_file_id: Option<u64>,
    /// Transaction files to read.
    pub lock_txn_file_refs: Vec<pb::TxnFileRef>,
}

/// The file is one of columns or of an index.
pub open spec fn of_columns(fm: FileMeta) -> bool {
    ||| fm.file_type is Columnar
    ||| fm.file_type is VectorIndex
    ||| fm.file_type is FtsPackedFile
    ||| fm.file_type is FtsDedicatedFile
}

/// What the change set says of the schema file, the last word first: the shard
/// that replaces the present one, an update, the first flush.
pub open spec fn schema_said(cs: pb::ChangeSet) -> Option<pb::SchemaMeta> {
    if replacing_snap(cs) matches Some(snap) && snap.schema_meta is Some {
        replacing_snap(cs)->0.schema_meta
    } else if cs.update_schema_meta is Some {
        cs.update_schema_meta
    } else if cs.initial_flush is Some {
        cs.initial_flush->0.schema_meta
    } else {
        None
    }
}

/// The schema file to read; a file id of zero stands for none.
pub open spec fn schema_to_read(cs: pb::ChangeSet) -> Option<u64> {
    match schema_said(cs) {
        Some(schema) => if schema.file_id == 0 {
            None
        } else {
            Some(schema.file_id)
        },
        None => None,
    }
}

/// What is in the key property of a shard.
pub open spec fn sealed_key(snap: pb::Snapshot) -> Option<Bytes> {
    match snap.properties {
        Some(props) => first_value(ENCRYPTION_KEY@, props),
        None => None,
    }
}

/// The key is that of the shard that replaces the present one, or that of the
/// present one.
pub open spec fn key_for(cs: pb::ChangeSet, present: Option<Bytes>) -> KeySource {
    match replacing_snap(cs) {
        Some(snap) => match sealed_key(snap) {
            Some(b) => KeySource::Sealed(b),
            None => KeySource::Plain,
        },
        None => match present {
            Some(b) => KeySource::Present(b),
            None => KeySource::Plain,
        },
    }
}

/// The files that the filter holds back.
pub open spec fn held_back<F: Fn(u64, &FileMeta) -> bool>(
    filter: Option<F>,
    shard_id: u64,
    all: Map<u64, FileMeta>,
    held: Map<u64, FileMeta>,
) -> bool {
    &&& held.submap_of(all)
    &&& match filter {
        Some(f) => forall|id: u64| #[trigger]
            all.contains_key(id) ==> call_ensures(f, (shard_id, &all[id]), !held.contains_key(id)),
        None => held.dom() == Set::<u64>::empty(),
    }
}

/// The files that are neither held back nor, where they are ignored, of columns.
pub open spec fn files_planned(
    all: Map<u64, FileMeta>,
    held: Map<u64, FileMeta>,
    ignore_columns: bool,
) -> Map<u64, FileMeta> {
    Map::new(
        |id: u64|
            all.contains_key(id) && !held.contains_key(id) && !(ignore_columns && of_columns(
                all[id],
            )),
        |id: u64| all[id],
    )
}

/// Takes the files out that the filter holds back.
fn hold_back<F: Fn(u64, &FileMeta) -> bool>(
    files: &mut HashMap<u64, FileMeta>,
    filter: F,
    shard_id: u64,
) -> (res: HashMap<u64, FileMeta>)
    requires
        forall|id: u64| #[trigger]
            old(files)@.contains_key(id) ==> call_requires(filter, (shard_id, &old(files)@[id])),
    ensures
        held_back(Some(filter), shard_id, old(files)@, res@),
        final(files)@ == files_planned(old(files)@, res@, false),
{
    let ghost all = files@;
    let ids = file_ids(files);
    let mut res: HashMap<u64, FileMeta> = HashMap::new();
    let mut i: usize = 0;
    while i < ids.len()
        invariant
            i <= ids@.len(),
            ids@.no_duplicates(),
            ids@.to_set() == all.dom(),
            forall|id: u64| #[trigger]
                all.contains_key(id) ==> call_requires(filter, (shard_id, &all[id])),
            forall|id: u64| #[trigger]
                res@.contains_key(id) ==> all.contains_key(id) && res@[id] == all[id]
                    && !files@.contains_key(id),
            forall|id: u64| #[trigger]
                files@.contains_key(id) ==> all.contains_key(id) && files@[id] == all[id]
                    && !res@.contains_key(id),
            forall|id: u64| #[trigger]
                all.contains_key(id) ==> files@.contains_key(id) || res@.contains_key(id),
            forall|j: int|
                0 <= j < i ==> call_ensures(
                    filter,
                    (shard_id, &all[#[trigger] ids@[j]]),
                    !res@.contains_key(ids@[j]),
                ),
            forall|j: int| i <= j < ids@.len() ==> files@.contains_key(#[trigger] ids@[j]),
        decreases ids@.len() - i,
    {
        let id = ids[i];
        assert(ids@.to_set().contains(id)) by {
            assert(ids@[i as int] == id);
        }
        assert(all.contains_key(id));
        assert(files@.contains_key(ids@[i as int]));
        let loaded = filter(shard_id, files.get(&id).unwrap());
        if !loaded {
            let fm = files.remove(&id).unwrap();
            res.insert(id, fm);
        }
        i = i + 1;
    }
    proof {
        assert forall|id: u64| #[trigger] all.contains_key(id) implies call_ensures(
            filter,
            (shard_id, &all[id]),
            !res@.contains_key(id),
        ) by {
            assert(ids@.to_set().contains(id));
            let j = choose|j: int| 0 <= j < ids@.len() && ids@[j] == id;
            assert(ids@[j] == id);
        }
        assert(files@ =~= files_planned(all, res@, false));
    }
    res
}

/// The schema file to read.
fn schema_file_to_read(cs: &pb::ChangeSet) -> (res: Option<u64>)
    ensures
        res == schema_to_read(*cs),
{
    let mut said: Option<pb::SchemaMeta> = None;
    if let Some(snap) = &cs.initial_flush {
        said = snap.schema_meta;
    }
    if let Some(schema) = &cs.update_schema_meta {
        said = Some(*schema);
    }
    if let Some(snap) = get_replacing_snap(cs) {
        if snap.schema_meta.is_some() {
            said = snap.schema_meta;
        }
    }
    match said {
        Some(schema) => if schema.file_id == 0 {
            None
        } else {
            Some(schema.file_id)
        },
        None => None,
    }
}

/// The plan is what is to be read before the change set is applied.
pub open spec fn is_plan<F: Fn(u64, &FileMeta) -> bool>(
    cs: pb::ChangeSet,
    opts: PrepareOpts<'_>,
    snap_class: pb::StorageClassSpec,
    table_filter: Option<F>,
    plan: PreparePlan,
) -> bool {
    let reload = match opts.reload_snap {
        Some(snap) => Some(*snap),
        None => None,
    };
    let present = match opts.encryption_key {
        Some(k) => Some(*k),
        None => None,
    };
    let all = files_brought(cs, reload, !(opts.prepare_type is Local) || opts.force_ia);
    &&& held_back(table_filter, cs.shard_id, all, plan.unloaded@)
    &&& plan.files@ == files_planned(all, plan.unloaded@, opts.ignore_columnar_table_load)
    &&& plan.prepare_type == (if replacing_snap(cs) is Some {
        kind_of_class(snap_class)
    } else {
        opts.prepare_type
    })
    &&& plan.key == key_for(cs, present)
    &&& plan.schema_file_id == schema_to_read(cs)
    &&& plan.lock_txn_file_refs@ == (match replacing_snap(cs) {
        Some(snap) => refs_with_locks(snap.txn_file_refs@),
        None => Seq::<pb::TxnFileRef>::empty(),
    })
}

/// What is to be read before the change set is applied.
///
/// `snap_class` is what the storage class property of the shard says that
/// replaces the present one; it is of no account where there is none.
pub fn prepare_change_set<F: Fn(u64, &FileMeta) -> bool>(
    cs: &pb::ChangeSet,
    opts: &PrepareOpts<'_>,
    snap_class: pb::StorageClassSpec,
    table_filter: Option<F>,
) -> (res: PreparePlan)
    requires
        replacing_snap(*cs) matches Some(snap) ==> opt_props_valid(snap.properties),
        table_filter matches Some(f) ==> forall|id: u64, fm: FileMeta| #[trigger]
            call_requires(f, (id, &fm)),
    ensures
        is_plan(*cs, *opts, snap_class, table_filter, res),
{
    let mut files = collect_files(
        cs,
        opts.reload_snap,
        opts.prepare_type.not_local() || opts.force_ia,
    );
    let ghost all = files@;
    let mut prepare_type = opts.prepare_type;
    let mut key = match opts.encryption_key {
        Some(k) => KeySource::Present(k.clone()),
        None => KeySource::Plain,
    };
    let mut lock_txn_file_refs: Vec<pb::TxnFileRef> = Vec::new();
    if let Some(snap) = get_replacing_snap(cs) {
        prepare_type = FilePrepareType::from_storage_class_spec(snap_class);
        lock_txn_file_refs = collect_snap_lock_txn_file_refs(snap);
        key = match &snap.properties {
            Some(props) => match get_shard_property(ENCRYPTION_KEY, props) {
                Some(sealed) => KeySource::Sealed(sealed),
                None => KeySource::Plain,
            },
            None => KeySource::Plain,
        };
    }
    let unloaded = match table_filter {
        Some(filter) => hold_back(&mut files, filter, cs.shard_id),
        None => HashMap::new(),
    };
    assert(files@ =~= files_planned(all, unloaded@, false));
    if opts.ignore_columnar_table_load {
        let ghost p = |fm: FileMeta| !of_columns(fm);
        let keep = |fm: &FileMeta| -> (b: bool)
            ensures
                b == !of_columns(*fm),
            {
                !matches!(
                    fm.file_type,
                    FileType::Columnar | FileType::VectorIndex | FileType::FtsPackedFile
                        | FileType::FtsDedicatedFile
                )
            };
        retain_files(&mut files, keep, Ghost(p));
    }
    assert(files@ =~= files_planned(all, unloaded@, opts.ignore_columnar_table_load));
    PreparePlan {
        files,
        unloaded,
        prepare_type,
        key,
        schema_file_id: schema_file_to_read(cs),
        lock_txn_file_refs,
    }
}

/// Nothing that a change set brings is lost: each file is read or held back, or
/// it is one of columns and those are ignored.
pub proof fn law_every_file_is_accounted_for(
    all: Map<u64, FileMeta>,
    held: Map<u64, FileMeta>,
    ignore_columns: bool,
    id: u64,
)
    requires
        held.submap_of(all),
        all.contains_key(id),
    ensures
        files_planned(all, held, ignore_columns).contains_key(id) || held.contains_key(id) || (
        ignore_columns && of_columns(all[id])),
        !(files_planned(all, held, ignore_columns).contains_key(id) && held.contains_key(id)),
{
}

/// A filter that always gives the same answer for the same file.
pub open spec fn one_answer<F: Fn(u64, &FileMeta) -> bool>(filter: Option<F>) -> bool {
    filter matches Some(f) ==> forall|id: u64, fm: FileMeta|
        #![trigger call_ensures(f, (id, &fm), true)]
        !(call_ensures(f, (id, &fm), true) && call_ensures(f, (id, &fm), false))
}

/// Where a change set replaces the shard, the key of the present shard is of no account: two
/// plans that differ in it alone read the same files with the same key, which is the one that
/// the replacing shard holds. A filter must give the same answers both times.
pub proof fn law_replacing_shard_brings_its_key<F: Fn(u64, &FileMeta) -> bool>(
    cs: pb::ChangeSet,
    a: PrepareOpts<'_>,
    b: PrepareOpts<'_>,
    snap_class: pb::StorageClassSpec,
    table_filter: Option<F>,
    p: PreparePlan,
    q: PreparePlan,
)
    requires
        replacing_snap(cs) is Some,
        b == (PrepareOpts { encryption_key: b.encryption_key, ..a }),
        one_answer(table_filter),
        is_plan(cs, a, snap_class, table_filter, p),
        is_plan(cs, b, snap_class, table_filter, q),
    ensures
        p.key == match sealed_key(replacing_snap(cs)->0) {
            Some(k) => KeySource::Sealed(k),
            None => KeySource::Plain,
        },
        q.key == p.key,
        q.files@ == p.files@,
        q.unloaded@ == p.unloaded@,
        q.prepare_type == p.prepare_type,
        q.schema_file_id == p.schema_file_id,
        q.lock_txn_file_refs@ == p.lock_txn_file_refs@,
{
    let reload = match a.reload_snap {
        Some(snap) => Some(*snap),
        None => None,
    };
    let all = files_brought(cs, reload, !(a.prepare_type is Local) || a.force_ia);
    assert forall|id: u64| #[trigger] p.unloaded@.contains_key(id) == q.unloaded@.contains_key(
        id,
    ) by {
        if all.contains_key(id) {
            if let Some(f) = table_filter {
                assert(call_ensures(f, (cs.shard_id, &all[id]), !p.unloaded@.contains_key(id)));
                assert(call_ensures(f, (cs.shard_id, &all[id]), !q.unloaded@.contains_key(id)));
                assert(!(call_ensures(f, (cs.shard_id, &all[id]), true) && call_ensures(
                    f,
                    (cs.shard_id, &all[id]),
                    false,
                )));
            } else {
                assert(!p.unloaded@.dom().contains(id));
                assert(!q.unloaded@.dom().contains(id));
            }
        } else {
            assert(!p.unloaded@.dom().contains(id));
            assert(!q.unloaded@.dom().contains(id));
        }
    }
    assert forall|id: u64| #[trigger] p.unloaded@.dom().contains(id) implies p.unloaded@[id]
        == q.unloaded@[id] by {
        assert(p.unloaded@.contains_key(id) == q.unloaded@.contains_key(id));
        assert(q.unloaded@.dom().contains(id));
        assert(all.dom().contains(id));
        assert(p.unloaded@[id] == all[id]);
    }
    assert forall|id: u64| #[trigger] q.unloaded@.dom().contains(id) implies p.unloaded@.dom().contains(
        id,
    ) by {
        assert(p.unloaded@.contains_key(id) == q.unloaded@.contains_key(id));
    }
    assert(q.unloaded@ =~= p.unloaded@);
}

} // verus!
