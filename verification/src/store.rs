//! The task store's one pure mutation: removing a task by its 1-based
//! index, with every other index rejected and the list left untouched.

use vstd::prelude::*;

verus! {

/// The user-level store error: the removal index names no task.
#[derive(Clone, Copy, Debug, PartialEq, Eq, Structural)]
pub enum StoreError {
    InvalidIndex,
}

/// Removes and returns the task at a 1-based index.
///
/// Succeeds exactly for `1 <= index <= len`; the remaining tasks keep
/// their relative order. Any other index (zero, or past the end) leaves
/// the list unchanged and reports an invalid index.
pub fn remove_at(tasks: &mut Vec<String>, index: usize) -> (r: Result<String, StoreError>)
    ensures
        r is Ok <==> 1 <= index <= old(tasks)@.len(),
        r is Ok ==> final(tasks)@ == old(tasks)@.remove(index - 1) && r->Ok_0 == old(
            tasks,
        )@[index - 1],
        r is Err ==> final(tasks)@ == old(tasks)@ && r->Err_0 == StoreError::InvalidIndex,
{
    if 1 <= index && index <= tasks.len() {
        Ok(tasks.remove(index - 1))
    } else {
        Err(StoreError::InvalidIndex)
    }
}

} // verus!
