//! The handle of a cluster client.

use vstd::prelude::*;
use crate::error::ConfigError;

verus! {

/// A client that consumes messages. It holds nothing yet.
#[derive(Debug)]
pub struct KafkaClient {}

impl KafkaClient {
    /// A client. The making cannot fail yet.
    pub fn new() -> (r: Result<Self, ConfigError>)
        ensures
            r is Ok,
    {
        Ok(Self {  })
    }
}

} // verus!
