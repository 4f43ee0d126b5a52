//! A topic.

use vstd::prelude::*;

verus! {

/// A topic: its name, how many partitions it has, and how often each is
/// replicated.
#[derive(Debug)]
pub struct Topic {
    pub name: String,
    pub partition_count: i32,
    pub replication_factor: i32,
}

/// A topic as a mathematical value.
pub struct TopicView {
    pub name: Seq<char>,
    pub partition_count: i32,
    pub replication_factor: i32,
}

impl View for Topic {
    type V = TopicView;

    open spec fn view(&self) -> TopicView {
        TopicView {
            name: self.name@,
            partition_count: self.partition_count,
            replication_factor: self.replication_factor,
        }
    }
}

impl Clone for Topic {
    fn clone(&self) -> (r: Self)
        ensures
            r@ == self@,
    {
        Topic {
            name: self.name.clone(),
            partition_count: self.partition_count,
            replication_factor: self.replication_factor,
        }
    }
}

impl Topic {
    /// A topic with the given parts.
    pub fn new(name: String, partition_count: i32, replication_factor: i32) -> (r: Self)
        ensures
            r@ == (TopicView { name: name@, partition_count, replication_factor }),
    {
        Self { name, partition_count, replication_factor }
    }

    /// The topic's name.
    pub fn get_name(&self) -> (r: &str)
        ensures
            r@ == self@.name,
    {
        self.name.as_str()
    }
}

} // verus!
