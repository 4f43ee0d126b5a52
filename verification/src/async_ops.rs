//! How far a task that runs in the background has come.

use vstd::prelude::*;

verus! {

/// The progress of a task: how many of its steps are done, what it is
/// doing, and how it ended.
#[derive(Debug, Clone)]
pub struct TaskProgress {
    pub current: usize,
    pub total: usize,
    pub message: String,
    pub is_complete: bool,
    pub error: Option<String>,
}

impl TaskProgress {
    /// The progress of a task of `total` steps that has not begun.
    pub fn new(total: usize) -> (r: Self)
        ensures
            r.current == 0,
            r.total == total,
            r.message@ == Seq::<char>::empty(),
            !r.is_complete,
            r.error is None,
    {
        Self { current: 0, total, message: String::new(), is_complete: false, error: None }
    }
}

} // verus!
