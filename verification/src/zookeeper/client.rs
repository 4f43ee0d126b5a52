//! The handle of a client of the coordination service.

use vstd::prelude::*;
use crate::error::ConfigError;

verus! {

/// A client of the coordination service. It holds nothing yet.
#[derive(Debug)]
pub struct ZooKeeperClient {}

impl ZooKeeperClient {
    /// A client. The making cannot fail yet.
    pub fn new() -> (r: Result<Self, ConfigError>)
        ensures
            r is Ok,
    {
        Ok(Self {  })
    }
}

} // verus!
