//! Which segments of remote files a read touches.
use vstd::prelude::*;

use crate::file_meta::FileType;
use crate::ia::segment::{FileSegmentIdent, IaError};

verus! {

/// What a file says of a range: the segments that are not cached, and how many the range
/// touches in all.
pub type Touched = Result<(Vec<FileSegmentIdent>, usize), IaError>;

/// The segments of the first `n` files, each with the type of the file.
pub open spec fn segments_to(files: Seq<Touched>, ft: FileType, n: int) -> Seq<
    (FileSegmentIdent, FileType),
>
    decreases n,
{
    if n <= 0 {
        Seq::empty()
    } else {
        let last = files[n - 1]->Ok_0.0@;
        segments_to(files, ft, n - 1) + Seq::new(last.len(), |i: int| (last[i], ft))
    }
}

/// How many segments of the first `n` files are touched.
pub open spec fn touched_to(files: Seq<Touched>, n: int) -> int
    decreases n,
{
    if n <= 0 {
        0
    } else {
        touched_to(files, n - 1) + files[n - 1]->Ok_0.1
    }
}

/// The first file that says that there is an error.
pub open spec fn is_first_error(files: Seq<Touched>, i: int, e: IaError) -> bool {
    &&& 0 <= i < files.len()
    &&& files[i] == Err::<(Vec<FileSegmentIdent>, usize), IaError>(e)
    &&& forall|j: int| 0 <= j < i ==> (#[trigger] files[j]) is Ok
}

/// No file says that there is an error.
pub open spec fn all_fine(files: Seq<Touched>) -> bool {
    forall|j: int| 0 <= j < files.len() ==> (#[trigger] files[j]) is Ok
}

proof fn lemma_touched_grows(files: Seq<Touched>, n: int)
    requires
        0 <= n <= files.len(),
    ensures
        0 <= touched_to(files, n) <= touched_to(files, files.len() as int),
    decreases files.len() - n,
{
    if n < files.len() {
        lemma_touched_grows(files, n + 1);
        lemma_touched_nonneg(files, n);
    } else {
        lemma_touched_nonneg(files, n);
    }
}

proof fn lemma_touched_nonneg(files: Seq<Touched>, n: int)
    requires
        0 <= n <= files.len(),
    ensures
        0 <= touched_to(files, n),
    decreases n,
{
    if n > 0 {
        lemma_touched_nonneg(files, n - 1);
    }
}

/// Adds what the files say.
fn gather(
    files: &Vec<Touched>,
    ft: FileType,
    segments: &mut Vec<(FileSegmentIdent, FileType)>,
    total: usize,
) -> (res: Result<usize, IaError>)
    requires
        total + touched_to(files@, files@.len() as int) <= usize::MAX,
    ensures
        match res {
            Ok(sum) => {
                &&& all_fine(files@)
                &&& final(segments)@ == old(segments)@ + segments_to(
                    files@,
                    ft,
                    files@.len() as int,
                )
                &&& sum == total + touched_to(files@, files@.len() as int)
            },
            Err(e) => exists|i: int| is_first_error(files@, i, e),
        },
{
    let ghost before = segments@;
    let mut sum = total;
    let mut i: usize = 0;
    assert(segments@ =~= before + segments_to(files@, ft, 0));
    while i < files.len()
        invariant
            i <= files@.len(),
            before == old(segments)@,
            total + touched_to(files@, files@.len() as int) <= usize::MAX,
            sum == total + touched_to(files@, i as int),
            segments@ == before + segments_to(files@, ft, i as int),
            forall|j: int| 0 <= j < i ==> (#[trigger] files@[j]) is Ok,
        decreases files@.len() - i,
    {
        match &files[i] {
            Ok((idents, touched)) => {
                let ghost at = segments@;
                let mut k: usize = 0;
                while k < idents.len()
                    invariant
                        k <= idents@.len(),
                        segments@ =~= at + Seq::new(k as nat, |j: int| (idents@[j], ft)),
                    decreases idents@.len() - k,
                {
                    segments.push((idents[k], ft));
                    k = k + 1;
                }
                proof {
                    lemma_touched_grows(files@, i + 1);
                    assert(segments@ =~= before + segments_to(files@, ft, i + 1));
                }
                sum = sum + *touched;
            },
            Err(e) => {
                assert(is_first_error(files@, i as int, *e));
                return Err(*e);
            },
        }
        i = i + 1;
    }
    Ok(sum)
}

/// The segments of tables and of blob tables that a read of a range touches and that are
/// not cached, and how many it touches in all. The first error of a table ends it, or else
/// that of a blob table.
pub fn get_ia_remote_segments(tables: &Vec<Touched>, blobs: &Vec<Touched>) -> (res: Result<
    (Vec<(FileSegmentIdent, FileType)>, usize),
    IaError,
>)
    requires
        touched_to(tables@, tables@.len() as int) + touched_to(blobs@, blobs@.len() as int)
            <= usize::MAX,
    ensures
        match res {
            Ok((segments, total)) => {
                &&& all_fine(tables@)
                &&& all_fine(blobs@)
                &&& segments@ == segments_to(tables@, FileType::Sst, tables@.len() as int)
                    + segments_to(blobs@, FileType::Blob, blobs@.len() as int)
                &&& total == touched_to(tables@, tables@.len() as int) + touched_to(
                    blobs@,
                    blobs@.len() as int,
                )
            },
            Err(e) => {
                ||| exists|i: int| is_first_error(tables@, i, e)
                ||| all_fine(tables@) && exists|i: int| is_first_error(blobs@, i, e)
            },
        },
{
    proof {
        lemma_touched_nonneg(tables@, tables@.len() as int);
        lemma_touched_nonneg(blobs@, blobs@.len() as int);
    }
    let mut segments: Vec<(FileSegmentIdent, FileType)> = Vec::new();
    let total = match gather(tables, FileType::Sst, &mut segments, 0) {
        Ok(total) => total,
        Err(e) => {
            return Err(e);
        },
    };
    assert(segments@ =~= segments_to(tables@, FileType::Sst, tables@.len() as int));
    match gather(blobs, FileType::Blob, &mut segments, total) {
        Ok(total) => Ok((segments, total)),
        Err(e) => Err(e),
    }
}

} // verus!
