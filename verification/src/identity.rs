//! Identity provisioning: recover the service's private key from the
//! attestation channel where the probe promised one, or generate a fresh
//! key pair. Fresh generation is a safe fallback, never an error.

use vstd::prelude::*;
use crate::attestation::Attestation;
use crate::attestation::AttestError;
use crate::attestation::fetch_plan;
use crate::attestation::spec_fetch_plan;

verus! {

#[verifier::external_type_specification]
#[verifier::external_body]
#[verifier::reject_recursive_types(T)]
pub struct ExRsa<T>(openssl::rsa::Rsa<T>);

#[verifier::external_type_specification]
#[verifier::external_body]
pub struct ExPrivate(openssl::pkey::Private);

#[verifier::external_type_specification]
#[verifier::external_body]
pub struct ExErrorStack(openssl::error::ErrorStack);

/// The modulus size, in bits, of a freshly generated key pair.
pub const KEY_BITS: u32 = 2048;

/// How the provisioned key came to be.
pub enum KeyProvenance {
    /// Parsed from sealed bytes the attestation channel recovered.
    Recovered,
    /// Freshly generated for this process lifetime.
    FreshlyGenerated,
}

/// The provisioned private key, ready for certificate issuance, and the
/// path that produced it: beside the key, a ghost record of the modulus
/// size its generation was requested with, or of the sealed bytes it was
/// parsed from.
pub struct ProvisionedKey {
    pub key: openssl::rsa::Rsa<openssl::pkey::Private>,
    pub provenance: KeyProvenance,
    pub generated_bits: Ghost<Option<u32>>,
    pub recovered_from: Ghost<Option<Seq<u8>>>,
}

/// A broken trust root: key material could not be constructed. Fatal; the
/// service must abort startup before the listener binds.
#[derive(Debug)]
pub enum IdentityError {
    GenerationFailed,
}

/// Whether the given DER bytes parse as a private key; what
/// `Rsa::private_key_from_der` accepts depends on the bytes alone.
pub uninterp spec fn der_parses_as_rsa_key(bytes: Seq<u8>) -> bool;

/// Relies on openssl's Rsa::private_key_from_der: it decodes a DER-encoded
/// PKCS#1 RSAPrivateKey structure, succeeding or failing on the bytes alone.
#[verifier::external_body]
fn rsa_from_der(bytes: &Vec<u8>) -> (r: Option<openssl::rsa::Rsa<openssl::pkey::Private>>)
    ensures
        r is Some <==> der_parses_as_rsa_key(bytes@),
{
    openssl::rsa::Rsa::private_key_from_der(bytes.as_slice()).ok()
}

/// Relies on openssl's Rsa::generate: a fresh key pair with a modulus of
/// the given size. The result is random, so nothing is stated of its value.
#[verifier::external_body]
fn rsa_generate(bits: u32) -> (r: Result<
    openssl::rsa::Rsa<openssl::pkey::Private>,
    openssl::error::ErrorStack,
>) {
    openssl::rsa::Rsa::generate(bits)
}

/// Whether the attestation channel handed back something a key can be
/// recovered from: the probe promised a fetch, the fetch produced bytes,
/// and those bytes parse as a private key.
pub open spec fn recovery_available(
    probe: Result<Attestation, AttestError>,
    fetched: Option<Vec<u8>>,
) -> bool {
    &&& spec_fetch_plan(probe) is Some
    &&& fetched matches Some(b) && der_parses_as_rsa_key(b@)
}

/// Provision the service's private key from the probe outcome and the bytes
/// (if any) a second attestation call fetched: recover the key exactly when
/// the channel made that possible, and otherwise generate a fresh one at
/// `KEY_BITS` bits. A recovered key carries the sealed bytes it was parsed
/// from; a fresh one carries the requested modulus size. Only fresh
/// generation itself can fail; no attestation outcome is an error.
pub fn provision_key(probe: &Result<Attestation, AttestError>, fetched: Option<Vec<u8>>) -> (r:
    Result<ProvisionedKey, IdentityError>)
    ensures
        r matches Ok(p) ==> (p.provenance is Recovered <==> recovery_available(*probe, fetched)),
        recovery_available(*probe, fetched) ==> r is Ok,
        r matches Ok(p) ==> (p.provenance is FreshlyGenerated ==> p.generated_bits@ == Some(
            KEY_BITS,
        ) && p.recovered_from@ is None),
        r matches Ok(p) ==> (p.provenance is Recovered ==> p.generated_bits@ is None && (
        fetched matches Some(b) && p.recovered_from@ == Some(b@))),
{
    let plan = fetch_plan(probe);
    if plan.is_some() {
        match fetched {
            Some(bytes) => {
                match rsa_from_der(&bytes) {
                    Some(key) => {
                        return Ok(
                            ProvisionedKey {
                                key,
                                provenance: KeyProvenance::Recovered,
                                generated_bits: Ghost(None),
                                recovered_from: Ghost(Some(bytes@)),
                            },
                        );
                    },
                    None => {},
                }
            },
            None => {},
        }
    }
    match rsa_generate(KEY_BITS) {
        Ok(key) => Ok(
            ProvisionedKey {
                key,
                provenance: KeyProvenance::FreshlyGenerated,
                generated_bits: Ghost(Some(KEY_BITS)),
                recovered_from: Ghost(None),
            },
        ),
        Err(_) => Err(IdentityError::GenerationFailed),
    }
}

} // verus!
