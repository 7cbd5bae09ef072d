//! The workload envelope: the decoded shape of the single request body the
//! ingestion endpoint accepts, and the typed rejection used for malformed
//! input.

use vstd::prelude::*;

verus! {

/// A decoded workload: a human-readable label and the opaque binary payload
/// to hand to the execution subsystem. The payload is never interpreted
/// here; it is validated only at the decode-framing level.
#[derive(Debug)]
pub struct Workload {
    pub human_readable_info: String,
    pub wasm_binary: Vec<u8>,
}

/// A typed, non-fatal error value carrying a human-readable diagnostic,
/// used only to signal malformed input back through the network layer.
#[derive(Debug)]
pub struct Rejection {
    pub details: String,
}

impl Rejection {
    pub fn new(msg: &str) -> (r: Rejection)
        ensures
            r.details@ == msg@,
    {
        Rejection { details: msg.to_owned() }
    }

    /// The diagnostic text, for the network layer's error body.
    pub fn message(&self) -> (r: &str)
        ensures
            r@ == self.details@,
    {
        self.details.as_str()
    }
}

} // verus!
