//! The decoder for messages that have no key.

use vstd::prelude::*;
use crate::error::DecodeError;

verus! {

/// Shows `<no key>` whatever the bytes.
#[derive(Debug, Clone, Copy)]
pub struct NoKeyDecoder;

impl NoKeyDecoder {
    /// The text `<no key>`.
    pub fn decode(&self, _data: &[u8]) -> (r: Result<String, DecodeError>)
        ensures
            r matches Ok(text) && text@ == "<no key>"@,
    {
        Ok("<no key>".to_owned())
    }
}

} // verus!
