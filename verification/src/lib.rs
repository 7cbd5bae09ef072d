//! Front-door runtime for a confidential-computing keep: attestation-gated
//! key provisioning, self-signed certificate issuance, and a single-shot
//! workload envelope codec for the secure ingestion endpoint.

pub mod attestation;
pub mod certificate;
pub mod codec;
pub mod config;
pub mod dispatch;
pub mod envelope;
pub mod identity;
