//! A partition of a topic.

use vstd::prelude::*;

verus! {

/// A partition: its number, its topic, and the broker that leads it.
#[derive(Debug)]
pub struct Partition {
    pub id: i32,
    pub topic_name: String,
    pub leader: i32,
}

/// A partition as a mathematical value.
pub struct PartitionView {
    pub id: i32,
    pub topic_name: Seq<char>,
    pub leader: i32,
}

impl View for Partition {
    type V = PartitionView;

    open spec fn view(&self) -> PartitionView {
        PartitionView { id: self.id, topic_name: self.topic_name@, leader: self.leader }
    }
}

impl Clone for Partition {
    fn clone(&self) -> (r: Self)
        ensures
            r@ == self@,
    {
        Partition { id: self.id, topic_name: self.topic_name.clone(), leader: self.leader }
    }
}

impl Partition {
    /// A partition with the given parts.
    pub fn new(id: i32, topic_name: String, leader: i32) -> (r: Self)
        ensures
            r@ == (PartitionView { id, topic_name: topic_name@, leader }),
    {
        Self { id, topic_name, leader }
    }
}

} // verus!
