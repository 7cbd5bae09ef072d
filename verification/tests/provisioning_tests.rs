use keepldr::attestation::{expected_key_length, fetch_plan, AttestError, Attestation};
use keepldr::identity::{provision_key, KeyProvenance};

#[test]
fn expected_length_comes_from_sev_alone() {
    assert_eq!(expected_key_length(&Ok(Attestation::Sev(57))), 57);
    assert_eq!(expected_key_length(&Ok(Attestation::Sgx(57))), 0);
    assert_eq!(expected_key_length(&Ok(Attestation::NotPresent)), 0);
    assert_eq!(expected_key_length(&Err(AttestError::ChannelUnavailable)), 0);
    assert_eq!(expected_key_length(&Err(AttestError::EvidenceRejected)), 0);
}

#[test]
fn fetch_plan_takes_single_byte_lengths_only() {
    assert_eq!(fetch_plan(&Ok(Attestation::Sev(1))), Some(1));
    assert_eq!(fetch_plan(&Ok(Attestation::Sev(255))), Some(255));
    assert_eq!(fetch_plan(&Ok(Attestation::Sev(0))), None);
    assert_eq!(fetch_plan(&Ok(Attestation::Sev(256))), None);
    assert_eq!(fetch_plan(&Ok(Attestation::Sgx(9))), None);
    assert_eq!(fetch_plan(&Ok(Attestation::NotPresent)), None);
    assert_eq!(fetch_plan(&Err(AttestError::ChannelUnavailable)), None);
}

#[test]
fn provision_falls_back_when_nothing_is_promised() {
    let p = provision_key(&Ok(Attestation::NotPresent), None).expect("fallback must provision");
    assert!(matches!(p.provenance, KeyProvenance::FreshlyGenerated));
}

#[test]
fn provision_falls_back_on_channel_error() {
    let p = provision_key(&Err(AttestError::ChannelUnavailable), None)
        .expect("a channel error must not be fatal");
    assert!(matches!(p.provenance, KeyProvenance::FreshlyGenerated));
}

#[test]
fn provision_falls_back_on_unparsable_bytes() {
    let junk = vec![0u8; 100];
    let p = provision_key(&Ok(Attestation::Sev(100)), Some(junk))
        .expect("unparsable bytes must not be fatal");
    assert!(matches!(p.provenance, KeyProvenance::FreshlyGenerated));
}

#[test]
fn provision_recovers_a_valid_der_key() {
    let key = openssl::rsa::Rsa::generate(2048).expect("key generation");
    let der = key.private_key_to_der().expect("DER serialization");
    let p = provision_key(&Ok(Attestation::Sev(64)), Some(der))
        .expect("valid sealed bytes must provision");
    assert!(matches!(p.provenance, KeyProvenance::Recovered));
}

#[test]
fn fresh_keys_differ_between_runs() {
    let a = provision_key(&Ok(Attestation::NotPresent), None).expect("provision");
    let b = provision_key(&Ok(Attestation::NotPresent), None).expect("provision");
    let a_der = a.key.private_key_to_der().expect("DER");
    let b_der = b.key.private_key_to_der().expect("DER");
    assert_ne!(a_der, b_der);
}
