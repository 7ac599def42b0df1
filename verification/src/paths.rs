//! Checking file paths before they are handed to the operating system.
use vstd::prelude::*;

verus! {

broadcast use vstd::slice::group_slice_axioms;

/// Errors of the file operations.
#[derive(Clone, Copy, Debug, PartialEq, Eq, Structural)]
pub enum FsError {
    InvalidPath,
    OpenFailed,
    ReadFailed,
    WriteFailed,
    MkdirFailed,
}

pub const DEFAULT_FILE_MODE: u32 = 0o644;

pub const DEFAULT_DIR_MODE: u32 = 0o755;

/// Whether `path` is a C string: non-empty, ending in its only zero byte.
pub open spec fn c_path_ok(path: Seq<u8>) -> bool {
    &&& path.len() > 0
    &&& path.last() == 0
    &&& forall|i: int| 0 <= i < path.len() - 1 ==> #[trigger] path[i] != 0
}

/// Accepts a path that ends in a zero byte and holds no other.
pub fn validate_path(path: &[u8]) -> (r: Result<(), FsError>)
    ensures
        r is Ok <==> c_path_ok(path@),
        r matches Err(e) ==> e == FsError::InvalidPath,
{
    let n = path.len();
    if n == 0 || path[n - 1] != 0 {
        return Err(FsError::InvalidPath);
    }
    let mut i: usize = 0;
    while i < n - 1
        invariant
            n == path@.len(),
            n > 0,
            i <= n - 1,
            forall|j: int| 0 <= j < i ==> #[trigger] path@[j] != 0,
        decreases n - 1 - i,
    {
        if path[i] == 0 {
            return Err(FsError::InvalidPath);
        }
        i = i + 1;
    }
    Ok(())
}

/// What the next step of a chunked read is, given the byte count so far and
/// what the last read returned (a negative count is a failed read).
#[derive(Clone, Copy, Debug)]
pub enum ReadStep {
    /// Stop with this result.
    Finish(Result<usize, FsError>),
    /// Hand the `chunk` bytes just read to the consumer; the total is now
    /// `total`.
    Deliver { chunk: usize, total: usize },
}

/// The decision after one read: a failed read is `ReadFailed`, end of file
/// finishes with the total so far, and `n` bytes are delivered with the
/// total grown by `n`, saturating.
pub open spec fn read_step_spec(total: usize, n: isize) -> ReadStep {
    if n < 0 {
        ReadStep::Finish(Err(FsError::ReadFailed))
    } else if n == 0 {
        ReadStep::Finish(Ok(total))
    } else {
        ReadStep::Deliver {
            chunk: n as usize,
            total: if total + n <= usize::MAX {
                (total + n) as usize
            } else {
                usize::MAX
            },
        }
    }
}

pub fn read_step(total: usize, n: isize) -> (r: ReadStep)
    ensures
        r == read_step_spec(total, n),
{
    if n < 0 {
        ReadStep::Finish(Err(FsError::ReadFailed))
    } else if n == 0 {
        ReadStep::Finish(Ok(total))
    } else {
        let len = n as usize;
        ReadStep::Deliver { chunk: len, total: total.saturating_add(len) }
    }
}

/// The byte count after one write of a chunked write: a write that wrote
/// nothing or failed is `WriteFailed`; otherwise the count grows by `n`,
/// saturating.
pub fn write_step(written: usize, n: isize) -> (r: Result<usize, FsError>)
    ensures
        n <= 0 ==> r == Err::<usize, FsError>(FsError::WriteFailed),
        n > 0 ==> r == Ok::<usize, FsError>(
            if written + n <= usize::MAX {
                (written + n) as usize
            } else {
                usize::MAX
            },
        ),
{
    if n <= 0 {
        Err(FsError::WriteFailed)
    } else {
        Ok(written.saturating_add(n as usize))
    }
}

} // verus!
