//! A broker of a cluster.

use vstd::prelude::*;

verus! {

/// A broker: its id in the cluster and where it listens.
#[derive(Debug)]
pub struct Broker {
    pub id: i32,
    pub host: String,
    pub port: i32,
}

/// A broker as a mathematical value.
pub struct BrokerView {
    pub id: i32,
    pub host: Seq<char>,
    pub port: i32,
}

impl View for Broker {
    type V = BrokerView;

    open spec fn view(&self) -> BrokerView {
        BrokerView { id: self.id, host: self.host@, port: self.port }
    }
}

impl Clone for Broker {
    fn clone(&self) -> (r: Self)
        ensures
            r@ == self@,
    {
        Broker { id: self.id, host: self.host.clone(), port: self.port }
    }
}

impl Broker {
    /// A broker with the given parts.
    pub fn new(id: i32, host: String, port: i32) -> (r: Self)
        ensures
            r@ == (BrokerView { id, host: host@, port }),
    {
        Self { id, host, port }
    }

    /// The broker's id.
    pub fn get_id(&self) -> (r: i32)
        ensures
            r == self@.id,
    {
        self.id
    }

    /// The host the broker listens on.
    pub fn get_host(&self) -> (r: &str)
        ensures
            r@ == self@.host,
    {
        self.host.as_str()
    }

    /// The port the broker listens on.
    pub fn get_port(&self) -> (r: i32)
        ensures
            r == self@.port,
    {
        self.port
    }
}

} // verus!
