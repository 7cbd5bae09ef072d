//! Startup configuration: the listen endpoint and the key source, passed
//! explicitly rather than hard-coded.

use vstd::prelude::*;

verus! {

/// Where the service's private key comes from: always freshly generated,
/// or recovered from the attestation channel with generation as fallback.
pub enum KeySource {
    Generate,
    RecoverThenGenerate,
}

/// The startup configuration of the service.
pub struct Config {
    pub listen_address: String,
    pub listen_port: u16,
    pub key_source: KeySource,
}

impl Config {
    pub fn new(listen_address: String, listen_port: u16, key_source: KeySource) -> (c: Config)
        ensures
            c.listen_address@ == listen_address@,
            c.listen_port == listen_port,
            c.key_source == key_source,
    {
        Config { listen_address, listen_port, key_source }
    }
}

/// Whether provisioning consults the attestation channel before falling
/// back to fresh generation.
pub open spec fn spec_attempts_recovery(ks: KeySource) -> bool {
    ks is RecoverThenGenerate
}

pub fn attempts_recovery(ks: &KeySource) -> (r: bool)
    ensures
        r == spec_attempts_recovery(*ks),
{
    match ks {
        KeySource::Generate => false,
        KeySource::RecoverThenGenerate => true,
    }
}

/// The single route the ingestion server exposes, as a path segment.
pub fn workload_endpoint() -> (r: &'static str)
    ensures
        r@ == "workload"@,
{
    "workload"
}

} // verus!
