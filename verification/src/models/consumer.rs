//! A consumer group.

use vstd::prelude::*;

verus! {

/// A consumer group, known by its id.
#[derive(Debug)]
pub struct Consumer {
    pub group_id: String,
}

impl View for Consumer {
    type V = Seq<char>;

    open spec fn view(&self) -> Seq<char> {
        self.group_id@
    }
}

impl Clone for Consumer {
    fn clone(&self) -> (r: Self)
        ensures
            r@ == self@,
    {
        Consumer { group_id: self.group_id.clone() }
    }
}

impl Consumer {
    /// The consumer group with the given id.
    pub fn new(group_id: String) -> (r: Self)
        ensures
            r@ == group_id@,
    {
        Self { group_id }
    }

    /// The group's id.
    pub fn get_group_id(&self) -> (r: &str)
        ensures
            r@ == self@,
    {
        self.group_id.as_str()
    }
}

} // verus!
