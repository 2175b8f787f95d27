//! Files that become remote once their data is old enough.
use vstd::prelude::*;

use crate::pb::{StorageClass, StorageClassSpec};

verus! {

/// What trying to change the storage class of a file did.
#[derive(Clone, Copy, Debug, PartialEq, Eq, Structural)]
pub enum TransitResult {
    /// The file is remote now.
    TransitedToIa,
    /// Nothing.
    NoChange,
}

/// A file that is local until its data is old enough.
#[derive(Clone, Copy, Debug, PartialEq, Eq, Structural)]
pub struct IaAutoFile {
    /// The whole file is local.
    pub has_local_file: bool,
    /// Where data of which age is to be kept.
    pub spec: StorageClassSpec,
}

impl IaAutoFile {
    /// Where the file is.
    pub open spec fn class(self) -> StorageClass {
        if self.has_local_file {
            StorageClass::Unspecified
        } else {
            StorageClass::Ia
        }
    }

    /// Where the file is.
    pub fn storage_class(&self) -> (res: StorageClass)
        ensures
            res == self.class(),
    {
        if self.has_local_file {
            StorageClass::Unspecified
        } else {
            StorageClass::Ia
        }
    }

    /// Makes the file remote, if it is local.
    pub fn transit_to_ia(&mut self) -> (res: TransitResult)
        ensures
            *final(self) == (IaAutoFile { has_local_file: false, ..*old(self) }),
            res == if old(self).has_local_file {
                TransitResult::TransitedToIa
            } else {
                TransitResult::NoChange
            },
    {
        if self.has_local_file {
            self.has_local_file = false;
            TransitResult::TransitedToIa
        } else {
            TransitResult::NoChange
        }
    }

    /// Where the file should be, if it is elsewhere. `age_ms` is the age of its
    /// newest data.
    pub fn should_transit(&self, age_ms: u64) -> (res: Option<StorageClass>)
        ensures
            res == if self.spec.class_at(age_ms) != self.class() {
                Some(self.spec.class_at(age_ms))
            } else {
                None
            },
    {
        let target = self.spec.target_storage_class(age_ms);
        if target != self.storage_class() {
            Some(target)
        } else {
            None
        }
    }

    /// Makes the file remote, if it is local and its data is old enough. A file
    /// that is remote stays so.
    pub fn try_transit(&mut self, age_ms: u64) -> (res: TransitResult)
        ensures
            res is TransitedToIa == (old(self).has_local_file && old(self).spec.class_at(age_ms)
                is Ia),
            *final(self) == (IaAutoFile {
                has_local_file: old(self).has_local_file && !(res is TransitedToIa),
                ..*old(self)
            }),
    {
        match self.should_transit(age_ms) {
            Some(target) => if target.is_ia() {
                self.transit_to_ia()
            } else {
                TransitResult::NoChange
            },
            None => TransitResult::NoChange,
        }
    }
}

/// How many files there are before the first that is not such a file.
pub open spec fn auto_files(files: Seq<Option<IaAutoFile>>) -> nat
    decreases files.len(),
{
    if files.len() == 0 || files[0] is None {
        0
    } else {
        1 + auto_files(files.drop_first())
    }
}

/// The file after its storage class was looked at.
pub open spec fn transited(f: IaAutoFile, age_ms: u64) -> IaAutoFile {
    IaAutoFile { has_local_file: f.has_local_file && !(f.spec.class_at(age_ms) is Ia), ..f }
}

/// How many of the files are local and old enough to be remote.
pub open spec fn transitions(files: Seq<Option<IaAutoFile>>, ages_ms: Seq<u64>) -> nat
    decreases files.len(),
{
    if files.len() == 0 {
        0
    } else {
        let k = files.len() - 1;
        let rest = transitions(files.drop_last(), ages_ms.drop_last());
        if files[k]->0.has_local_file && files[k]->0.spec.class_at(ages_ms[k]) is Ia {
            rest + 1
        } else {
            rest
        }
    }
}

/// Files of a shard may change their storage class.
pub open spec fn may_transit(spec: StorageClassSpec) -> bool {
    spec.ia_after_ms is Some && !spec.must_be_ia
}

/// Makes the files of a shard remote that are local and old enough, and counts
/// them. `ages_ms` are the ages of the newest data of each. The specification of
/// the shard is being changed where a file does not follow it; nothing is done
/// from there on.
pub fn try_transit_storage_class(
    spec: StorageClassSpec,
    files: &mut Vec<Option<IaAutoFile>>,
    ages_ms: &Vec<u64>,
) -> (res: usize)
    requires
        old(files)@.len() == ages_ms@.len(),
    ensures
        ({
            let n = if may_transit(spec) {
                auto_files(old(files)@)
            } else {
                0
            };
            &&& final(files)@.len() == old(files)@.len()
            &&& forall|i: int|
                0 <= i < final(files)@.len() ==> (#[trigger] final(files)@[i]) == if i < n {
                    Some(transited(old(files)@[i]->0, ages_ms@[i]))
                } else {
                    old(files)@[i]
                }
            &&& res == transitions(old(files)@.take(n as int), ages_ms@.take(n as int))
        }),
{
    let ghost before = files@;
    let mut count: usize = 0;
    assert(before.take(0) =~= Seq::empty());
    if !(spec.ia_after_ms.is_some() && !spec.must_be_ia) {
        return count;
    }
    let mut i: usize = 0;
    assert(before.skip(0) =~= before);
    while i < files.len()
        invariant
            i <= files@.len(),
            before == old(files)@,
            files@.len() == before.len(),
            before.len() == ages_ms@.len(),
            may_transit(spec),
            count <= i,
            auto_files(before) == i + auto_files(before.skip(i as int)),
            count == transitions(before.take(i as int), ages_ms@.take(i as int)),
            forall|j: int| i <= j < files@.len() ==> files@[j] == before[j],
            forall|j: int|
                0 <= j < i ==> (#[trigger] files@[j]) == Some(
                    transited(before[j]->0, ages_ms@[j]),
                ),
        decreases files@.len() - i,
    {
        assert(before.skip(i as int)[0] == before[i as int]);
        let mut f = match files[i] {
            Some(f) => f,
            None => {
                return count;
            },
        };
        let res = f.try_transit(ages_ms[i]);
        files.set(i, Some(f));
        if res == TransitResult::TransitedToIa {
            count = count + 1;
        }
        proof {
            let a = before.take(i + 1);
            let b = ages_ms@.take(i + 1);
            assert(a.drop_last() =~= before.take(i as int));
            assert(b.drop_last() =~= ages_ms@.take(i as int));
            assert(a[i as int] == before[i as int] && b[i as int] == ages_ms@[i as int]);
            assert(before.skip(i as int).drop_first() =~= before.skip(i + 1));
        }
        i = i + 1;
    }
    assert(before.skip(i as int) =~= Seq::empty());
    count
}

/// By how much the count of transitions grows, if it does.
pub fn report_transitions(transited_to_ia: usize) -> (res: Option<u64>)
    ensures
        res == if transited_to_ia > 0 {
            Some(transited_to_ia as u64)
        } else {
            None
        },
{
    if transited_to_ia > 0 {
        Some(transited_to_ia as u64)
    } else {
        None
    }
}

/// When the files of a shard were last looked at, once they were looked at now. Times do
/// not go back.
pub fn set_last_transit_storage_class_instant_to_now(last_secs: i64, now_secs: i64) -> (res: i64)
    ensures
        res == (if now_secs > last_secs {
            now_secs
        } else {
            last_secs
        }),
{
    if now_secs > last_secs {
        now_secs
    } else {
        last_secs
    }
}

/// Whether the files of a shard are to be looked at again: some may become remote,
/// and the last look was longer ago than asked for.
pub fn should_try_storage_class_transition(
    spec: StorageClassSpec,
    elapsed_ns: u64,
    check_interval_ns: u64,
) -> (res: bool)
    ensures
        res == (may_transit(spec) && elapsed_ns > check_interval_ns),
{
    spec.ia_after_ms.is_some() && !spec.must_be_ia && elapsed_ns > check_interval_ns
}

} // verus!
