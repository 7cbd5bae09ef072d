//! The attestation channel's reports, and the provisioning decision they
//! drive: whether previously sealed key material can be fetched, or a fresh
//! key must be generated.

use vstd::prelude::*;

verus! {

/// What the hardware attestation channel reported on a probe.
pub enum Attestation {
    /// AMD SEV-style attestation, carrying the expected length of the
    /// recoverable sealed key.
    Sev(u32),
    /// SGX-style attestation; a placeholder here, with its own recovery
    /// path still to come, so it promises no recoverable key.
    Sgx(u32),
    /// No attestation technology is present.
    NotPresent,
}

/// Why the attestation channel produced no report: the hardware channel is
/// unavailable, or it rejected the supplied evidence. Either way the caller
/// must treat it as "no key available", never as fatal.
pub enum AttestError {
    ChannelUnavailable,
    EvidenceRejected,
}

/// The key length a probe outcome promises: only a SEV report promises one.
pub open spec fn spec_expected_key_length(outcome: Result<Attestation, AttestError>) -> u32 {
    match outcome {
        Ok(Attestation::Sev(len)) => len,
        _ => 0,
    }
}

pub fn expected_key_length(outcome: &Result<Attestation, AttestError>) -> (r: u32)
    ensures
        r == spec_expected_key_length(*outcome),
{
    match outcome {
        Ok(Attestation::Sev(len)) => *len,
        Ok(Attestation::Sgx(_)) => 0,
        Ok(Attestation::NotPresent) => 0,
        Err(_) => 0,
    }
}

/// Whether a probe outcome calls for fetching the sealed key bytes, and
/// with what buffer size: only a promised length of one single byte of
/// magnitude (1 to 255) does. A zero length, a report beyond a single
/// byte of magnitude, or any channel error means fresh generation.
pub open spec fn spec_fetch_plan(outcome: Result<Attestation, AttestError>) -> Option<u8> {
    let len = spec_expected_key_length(outcome);
    if 0 < len <= 255 {
        Some(len as u8)
    } else {
        None
    }
}

pub fn fetch_plan(outcome: &Result<Attestation, AttestError>) -> (r: Option<u8>)
    ensures
        r == spec_fetch_plan(*outcome),
{
    let len = expected_key_length(outcome);
    if 0 < len && len <= 255 {
        Some(len as u8)
    } else {
        None
    }
}

/// Key provisioning fallback: whenever the probe reports no expected key
/// length, or the channel errors, no recovery is attempted — whatever a
/// fetch might have produced, the plan falls back to fresh generation.
pub proof fn lemma_provisioning_fallback(
    outcome: Result<Attestation, AttestError>,
    fetched: Option<Vec<u8>>,
)
    requires
        spec_expected_key_length(outcome) == 0 || outcome is Err,
    ensures
        spec_fetch_plan(outcome) is None,
        !crate::identity::recovery_available(outcome, fetched),
{
}

} // verus!
