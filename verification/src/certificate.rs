//! Certificate issuance: bind the provisioned key into a short-lived,
//! self-signed identity certificate and serialize both to PEM for the TLS
//! layer. Any failure here is fatal to startup — without a valid
//! certificate the service cannot safely offer a TLS identity.
//!
//! The certificate itself is built by the certificate library on opaque
//! values, so each value under construction travels beside a ghost record
//! of what was put into it: the subject entries, the validity window's day
//! offsets, the key whose public half the certificate binds, the key that
//! signed it, and the digest. The issuance contract pins that whole record;
//! what it cannot state is the byte-level content of the PEM output, which
//! only the certificate library defines.

use vstd::prelude::*;

verus! {

#[verifier::external_type_specification]
#[verifier::external_body]
pub struct ExX509NameBuilder(openssl::x509::X509NameBuilder);

#[verifier::external_type_specification]
#[verifier::external_body]
pub struct ExX509Name(openssl::x509::X509Name);

#[verifier::external_type_specification]
#[verifier::external_body]
pub struct ExX509Builder(openssl::x509::X509Builder);

#[verifier::external_type_specification]
#[verifier::external_body]
pub struct ExX509(openssl::x509::X509);

#[verifier::external_type_specification]
#[verifier::external_body]
pub struct ExAsn1Time(openssl::asn1::Asn1Time);

#[verifier::external_type_specification]
#[verifier::external_body]
#[verifier::reject_recursive_types(T)]
pub struct ExPKey<T>(openssl::pkey::PKey<T>);

/// How many days after issuance the identity certificate expires.
pub const VALIDITY_DAYS: u32 = 7;

/// The longest subject value the certificate library takes without
/// panicking: its entry call asserts that the value's byte length fits a
/// C int.
pub const MAX_SUBJECT_VALUE_BYTES: usize = 0x7fff_ffff;

/// The subject fields and validity window an identity certificate is
/// issued with. Day offsets count from issuance time.
pub struct CertParams {
    pub country: String,
    pub organization: String,
    pub subject_alt_name: String,
    pub common_name: String,
    pub not_before_days: u32,
    pub not_after_days: u32,
}

/// A certificate could not be constructed: a key mismatch, a signing
/// failure, or malformed subject fields. Fatal; there is no fallback, and
/// no partial material: the error carries nothing.
#[derive(Debug)]
pub enum CertError {
    Construction,
}

/// The digest the certificate is signed with.
pub enum Digest {
    Sha256,
}

/// A ghost record of everything put into a certificate on its way to
/// issuance: the subject entries as (field name, value) pairs in order, the
/// validity window's day offsets, the key whose public half the certificate
/// binds, the key that signed it, and the digest. The building steps write
/// it as each call is made; the issuance contract speaks of it.
pub struct CertRecord {
    pub subject_entries: Seq<(Seq<char>, Seq<char>)>,
    pub not_before_days: Option<u32>,
    pub not_after_days: Option<u32>,
    pub public_key_from: Option<openssl::rsa::Rsa<openssl::pkey::Private>>,
    pub signed_with: Option<openssl::rsa::Rsa<openssl::pkey::Private>>,
    pub digest: Option<Digest>,
}

/// A record with nothing put in yet.
pub open spec fn fresh_record() -> CertRecord {
    CertRecord {
        subject_entries: Seq::empty(),
        not_before_days: None,
        not_after_days: None,
        public_key_from: None,
        signed_with: None,
        digest: None,
    }
}

/// A subject name under construction, beside the entries put into it.
pub struct SubjectNameBuilder {
    inner: openssl::x509::X509NameBuilder,
    pub entries: Ghost<Seq<(Seq<char>, Seq<char>)>>,
}

/// A built subject name, beside the entries it was built from.
pub struct SubjectName {
    inner: openssl::x509::X509Name,
    pub entries: Ghost<Seq<(Seq<char>, Seq<char>)>>,
}

/// The signing key as the certificate library takes it, beside the RSA key
/// it wraps.
pub struct SigningKey {
    inner: openssl::pkey::PKey<openssl::pkey::Private>,
    pub rsa: Ghost<openssl::rsa::Rsa<openssl::pkey::Private>>,
}

/// A validity bound, beside the day offset it was made from.
pub struct ValidityTime {
    inner: openssl::asn1::Asn1Time,
    pub days: Ghost<u32>,
}

/// A certificate under construction, beside the record of what was put in.
pub struct CertBuilder {
    inner: openssl::x509::X509Builder,
    pub record: Ghost<CertRecord>,
}

/// An issued certificate, beside the record of what it was built from.
pub struct Certificate {
    inner: openssl::x509::X509,
    pub record: Ghost<CertRecord>,
}

/// The issued identity as the TLS layer consumes it: the private key and
/// the certificate, both PEM-serialized, beside the record of the
/// certificate the bytes carry.
pub struct IssuedIdentity {
    pub key_pem: Vec<u8>,
    pub cert_pem: Vec<u8>,
    pub record: Ghost<CertRecord>,
}

/// The parameters every identity certificate is issued with: fixed country
/// and organization, the listen address as subject-alternative-name, the
/// local hostname as common name, and a validity window that starts at
/// issuance and ends seven days later.
pub fn cert_params(listen_addr: &str, hostname: &str) -> (p: CertParams)
    ensures
        p.country@ == "GB"@,
        p.organization@ == "enarx-test"@,
        p.subject_alt_name@ == listen_addr@,
        p.common_name@ == hostname@,
        p.not_before_days == 0,
        p.not_after_days == VALIDITY_DAYS,
{
    CertParams {
        country: "GB".to_owned(),
        organization: "enarx-test".to_owned(),
        subject_alt_name: listen_addr.to_owned(),
        common_name: hostname.to_owned(),
        not_before_days: 0,
        not_after_days: VALIDITY_DAYS,
    }
}

/// The second of the validity window's start, `issued_at` being the second
/// of issuance.
pub open spec fn not_before_at(p: CertParams, issued_at: int) -> int {
    issued_at + p.not_before_days * 86400
}

/// The second of the validity window's end.
pub open spec fn not_after_at(p: CertParams, issued_at: int) -> int {
    issued_at + p.not_after_days * 86400
}

/// Certificate validity window: for parameters as `cert_params` builds
/// them, the window starts at issuance time — so issuance lies between
/// `not_before` and `not_after` — and lasts exactly seven days.
pub proof fn lemma_validity_window(p: CertParams, issued_at: int)
    requires
        p.not_before_days == 0,
        p.not_after_days == VALIDITY_DAYS,
    ensures
        not_before_at(p, issued_at) <= issued_at <= not_after_at(p, issued_at),
        not_after_at(p, issued_at) - not_before_at(p, issued_at) == 7 * 86400,
{
}

/// The subject entries an issuance under `p` puts into the certificate,
/// in order.
pub open spec fn spec_subject_entries(p: CertParams) -> Seq<(Seq<char>, Seq<char>)> {
    seq![
        ("C"@, p.country@),
        ("O"@, p.organization@),
        ("subjectAltName"@, p.subject_alt_name@),
        ("CN"@, p.common_name@),
    ]
}

/// Whether each subject value is short enough for the certificate
/// library's entry call, which asserts the byte length fits a C int.
pub open spec fn subject_values_fit(p: CertParams) -> bool {
    &&& vstd::utf8::encode_utf8(p.country@).len() <= MAX_SUBJECT_VALUE_BYTES
    &&& vstd::utf8::encode_utf8(p.organization@).len() <= MAX_SUBJECT_VALUE_BYTES
    &&& vstd::utf8::encode_utf8(p.subject_alt_name@).len() <= MAX_SUBJECT_VALUE_BYTES
    &&& vstd::utf8::encode_utf8(p.common_name@).len() <= MAX_SUBJECT_VALUE_BYTES
}

/// The record of a completed issuance for `key` under `p`: all four subject
/// entries, both window offsets, and `key` both as the bound public half
/// and as the signer, under SHA-256.
pub open spec fn spec_issued_record(
    key: openssl::rsa::Rsa<openssl::pkey::Private>,
    p: CertParams,
) -> CertRecord {
    CertRecord {
        subject_entries: spec_subject_entries(p),
        not_before_days: Some(p.not_before_days),
        not_after_days: Some(p.not_after_days),
        public_key_from: Some(key),
        signed_with: Some(key),
        digest: Some(Digest::Sha256),
    }
}

/// Relies on openssl's X509NameBuilder::new: a fresh builder with no
/// entries.
#[verifier::external_body]
fn raw_name_builder() -> (r: Result<openssl::x509::X509NameBuilder, openssl::error::ErrorStack>) {
    openssl::x509::X509NameBuilder::new()
}

/// Relies on openssl's X509NameBuilder::append_entry_by_text: on success
/// one subject entry for the given field name and value has been added
/// after the entries already present. The openssl call builds a C string
/// from `field`, panicking on an interior NUL, and asserts that `value`'s
/// byte length fits a C int; the `requires` admit only the four NUL-free
/// field names this library uses and values below that bound.
#[verifier::external_body]
fn name_append_entry(b: &mut SubjectNameBuilder, field: &str, value: &str) -> (r: Result<
    (),
    openssl::error::ErrorStack,
>)
    requires
        field@ == "C"@ || field@ == "O"@ || field@ == "subjectAltName"@ || field@ == "CN"@,
        vstd::utf8::encode_utf8(value@).len() <= MAX_SUBJECT_VALUE_BYTES,
    ensures
        r is Ok ==> final(b).entries@ == old(b).entries@ + seq![(field@, value@)],
{
    b.inner.append_entry_by_text(field, value)
}

/// Relies on openssl's X509NameBuilder::build.
#[verifier::external_body]
fn raw_name_build(b: openssl::x509::X509NameBuilder) -> (r: openssl::x509::X509Name) {
    b.build()
}

/// Relies on openssl's PKey::from_rsa: it wraps the given RSA key, and no
/// other, for certificate use (the clone in the body is a reference bump).
#[verifier::external_body]
fn raw_pkey_from_rsa(key: &openssl::rsa::Rsa<openssl::pkey::Private>) -> (r: Result<
    openssl::pkey::PKey<openssl::pkey::Private>,
    openssl::error::ErrorStack,
>) {
    openssl::pkey::PKey::from_rsa(key.clone())
}

/// Relies on openssl's X509::builder: a fresh builder with nothing set.
#[verifier::external_body]
fn raw_x509_builder() -> (r: Result<openssl::x509::X509Builder, openssl::error::ErrorStack>) {
    openssl::x509::X509::builder()
}

/// Relies on openssl's Asn1Time::days_from_now: the moment `days` days
/// from the current time.
#[verifier::external_body]
fn raw_days_from_now(days: u32) -> (r: Result<
    openssl::asn1::Asn1Time,
    openssl::error::ErrorStack,
>) {
    openssl::asn1::Asn1Time::days_from_now(days)
}

/// Relies on openssl's X509Builder::set_not_before: on success the window
/// now starts at the given bound, and nothing else was touched.
#[verifier::external_body]
fn set_not_before(b: &mut CertBuilder, t: &ValidityTime) -> (r: Result<
    (),
    openssl::error::ErrorStack,
>)
    ensures
        r is Ok ==> final(b).record@ == (CertRecord {
            not_before_days: Some(t.days@),
            ..old(b).record@
        }),
{
    b.inner.set_not_before(&t.inner)
}

/// Relies on openssl's X509Builder::set_not_after: on success the window
/// now ends at the given bound, and nothing else was touched.
#[verifier::external_body]
fn set_not_after(b: &mut CertBuilder, t: &ValidityTime) -> (r: Result<
    (),
    openssl::error::ErrorStack,
>)
    ensures
        r is Ok ==> final(b).record@ == (CertRecord {
            not_after_days: Some(t.days@),
            ..old(b).record@
        }),
{
    b.inner.set_not_after(&t.inner)
}

/// Relies on openssl's X509Builder::set_subject_name: on success the
/// certificate's subject is now the given name, and nothing else was
/// touched.
#[verifier::external_body]
fn set_subject_name(b: &mut CertBuilder, name: &SubjectName) -> (r: Result<
    (),
    openssl::error::ErrorStack,
>)
    ensures
        r is Ok ==> final(b).record@ == (CertRecord {
            subject_entries: name.entries@,
            ..old(b).record@
        }),
{
    b.inner.set_subject_name(&name.inner)
}

/// Relies on openssl's X509Builder::set_pubkey: on success the certificate
/// now binds the public half of the given key, and nothing else was
/// touched.
#[verifier::external_body]
fn set_pubkey(b: &mut CertBuilder, key: &SigningKey) -> (r: Result<
    (),
    openssl::error::ErrorStack,
>)
    ensures
        r is Ok ==> final(b).record@ == (CertRecord {
            public_key_from: Some(key.rsa@),
            ..old(b).record@
        }),
{
    b.inner.set_pubkey(&key.inner)
}

/// Relies on openssl's X509Builder::sign with the fixed SHA-256 digest: on
/// success the certificate is now signed by the given key under SHA-256,
/// and nothing else was touched.
#[verifier::external_body]
fn sign_sha256(b: &mut CertBuilder, key: &SigningKey) -> (r: Result<
    (),
    openssl::error::ErrorStack,
>)
    ensures
        r is Ok ==> final(b).record@ == (CertRecord {
            signed_with: Some(key.rsa@),
            digest: Some(Digest::Sha256),
            ..old(b).record@
        }),
{
    b.inner.sign(&key.inner, openssl::hash::MessageDigest::sha256())
}

/// Relies on openssl's X509Builder::build.
#[verifier::external_body]
fn raw_build_certificate(b: openssl::x509::X509Builder) -> (r: openssl::x509::X509) {
    b.build()
}

/// Relies on openssl's X509::to_pem: the PEM serialization of the
/// certificate, which on success is framed by the PEM armor lines and so
/// never empty.
#[verifier::external_body]
fn raw_cert_to_pem(c: &openssl::x509::X509) -> (r: Result<Vec<u8>, openssl::error::ErrorStack>)
    ensures
        r matches Ok(p) ==> p@.len() > 0,
{
    c.to_pem()
}

/// Relies on openssl's RsaRef::private_key_to_pem: the PEM serialization
/// of the private key (PKCS#1 RSAPrivateKey), which on success is framed by
/// the PEM armor lines and so never empty.
#[verifier::external_body]
fn raw_key_to_pem(key: &openssl::rsa::Rsa<openssl::pkey::Private>) -> (r: Result<
    Vec<u8>,
    openssl::error::ErrorStack,
>)
    ensures
        r matches Ok(p) ==> p@.len() > 0,
{
    key.private_key_to_pem()
}

/// Relies on sys_info::hostname: the local hostname for the certificate's
/// common name. It depends on the machine, so nothing is stated of its
/// value; a lookup error becomes `None`. Caveat: on a machine whose
/// hostname is not valid UTF-8 the outside crate itself panics in its
/// conversion to a string, and no `requires` can exclude a machine.
#[verifier::external_body]
fn hostname_lookup() -> (r: Option<String>) {
    sys_info::hostname().ok()
}

/// A fresh subject name builder, with no entries.
fn new_name_builder() -> (r: Result<SubjectNameBuilder, CertError>)
    ensures
        r matches Ok(b) ==> b.entries@ == Seq::<(Seq<char>, Seq<char>)>::empty(),
{
    match raw_name_builder() {
        Ok(inner) => Ok(SubjectNameBuilder { inner, entries: Ghost(Seq::empty()) }),
        Err(_) => Err(CertError::Construction),
    }
}

/// Wrap the RSA key for certificate use, carrying which key it wraps.
fn signing_key_from_rsa(key: &openssl::rsa::Rsa<openssl::pkey::Private>) -> (r: Result<
    SigningKey,
    CertError,
>)
    ensures
        r matches Ok(s) ==> s.rsa@ == *key,
{
    match raw_pkey_from_rsa(key) {
        Ok(inner) => Ok(SigningKey { inner, rsa: Ghost(*key) }),
        Err(_) => Err(CertError::Construction),
    }
}

/// A validity bound the given number of days from now, carrying the offset.
fn validity_days_from_now(days: u32) -> (r: Result<ValidityTime, CertError>)
    ensures
        r matches Ok(t) ==> t.days@ == days,
{
    match raw_days_from_now(days) {
        Ok(inner) => Ok(ValidityTime { inner, days: Ghost(days) }),
        Err(_) => Err(CertError::Construction),
    }
}

/// A fresh certificate builder, with nothing put in.
fn new_cert_builder() -> (r: Result<CertBuilder, CertError>)
    ensures
        r matches Ok(b) ==> b.record@ == fresh_record(),
{
    match raw_x509_builder() {
        Ok(inner) => Ok(CertBuilder { inner, record: Ghost(fresh_record()) }),
        Err(_) => Err(CertError::Construction),
    }
}

/// Build and self-sign the identity certificate for `key` under `params`,
/// and serialize the key and the certificate to PEM for the TLS layer. On
/// success the record pins everything that was put in: the four subject
/// entries under their field names, both window offsets, and `key` as both
/// the bound public half and the signer under SHA-256; both PEM
/// serializations are non-empty. On any step's failure nothing is returned
/// but the fatal construction error.
pub fn issue_certificate(
    key: &openssl::rsa::Rsa<openssl::pkey::Private>,
    params: &CertParams,
) -> (r: Result<IssuedIdentity, CertError>)
    requires
        subject_values_fit(*params),
    ensures
        r matches Ok(id) ==> {
            &&& id.record@ == spec_issued_record(*key, *params)
            &&& id.key_pem@.len() > 0
            &&& id.cert_pem@.len() > 0
        },
{
    let signing_key = match signing_key_from_rsa(key) {
        Ok(k) => k,
        Err(e) => {
            return Err(e);
        },
    };
    let mut nb = match new_name_builder() {
        Ok(b) => b,
        Err(e) => {
            return Err(e);
        },
    };
    if name_append_entry(&mut nb, "C", params.country.as_str()).is_err() {
        return Err(CertError::Construction);
    }
    if name_append_entry(&mut nb, "O", params.organization.as_str()).is_err() {
        return Err(CertError::Construction);
    }
    if name_append_entry(&mut nb, "subjectAltName", params.subject_alt_name.as_str()).is_err() {
        return Err(CertError::Construction);
    }
    if name_append_entry(&mut nb, "CN", params.common_name.as_str()).is_err() {
        return Err(CertError::Construction);
    }
    proof {
        assert(nb.entries@ =~= spec_subject_entries(*params));
    }
    let name = SubjectName { entries: Ghost(nb.entries@), inner: raw_name_build(nb.inner) };
    let mut xb = match new_cert_builder() {
        Ok(b) => b,
        Err(e) => {
            return Err(e);
        },
    };
    let not_before = match validity_days_from_now(params.not_before_days) {
        Ok(t) => t,
        Err(e) => {
            return Err(e);
        },
    };
    if set_not_before(&mut xb, &not_before).is_err() {
        return Err(CertError::Construction);
    }
    let not_after = match validity_days_from_now(params.not_after_days) {
        Ok(t) => t,
        Err(e) => {
            return Err(e);
        },
    };
    if set_not_after(&mut xb, &not_after).is_err() {
        return Err(CertError::Construction);
    }
    if set_subject_name(&mut xb, &name).is_err() {
        return Err(CertError::Construction);
    }
    if set_pubkey(&mut xb, &signing_key).is_err() {
        return Err(CertError::Construction);
    }
    if sign_sha256(&mut xb, &signing_key).is_err() {
        return Err(CertError::Construction);
    }
    proof {
        assert(xb.record@ =~= spec_issued_record(*key, *params));
    }
    let cert = Certificate { record: Ghost(xb.record@), inner: raw_build_certificate(xb.inner) };
    let key_pem = match raw_key_to_pem(key) {
        Ok(p) => p,
        Err(_) => {
            return Err(CertError::Construction);
        },
    };
    let cert_pem = match raw_cert_to_pem(&cert.inner) {
        Ok(p) => p,
        Err(_) => {
            return Err(CertError::Construction);
        },
    };
    Ok(IssuedIdentity { key_pem, cert_pem, record: Ghost(cert.record@) })
}

/// The credential pair the TLS layer consumes: look up the local hostname,
/// fix the certificate parameters for it and the listen address, and issue
/// the self-signed identity. On success the record pins the fixed country
/// and organization, the listen address as subject-alternative-name, a
/// common-name entry for the looked-up hostname, the zero-to-seven-day
/// window, and `key` as both the bound public half and the signer under
/// SHA-256. A failed hostname lookup, an oversized subject value, and every
/// issuance failure are the same fatal construction error — never a panic.
pub fn generate_credentials(
    key: &openssl::rsa::Rsa<openssl::pkey::Private>,
    listen_addr: &str,
) -> (r: Result<IssuedIdentity, CertError>)
    ensures
        r matches Ok(id) ==> {
            &&& id.record@.subject_entries.len() == 4
            &&& id.record@.subject_entries[0] == ("C"@, "GB"@)
            &&& id.record@.subject_entries[1] == ("O"@, "enarx-test"@)
            &&& id.record@.subject_entries[2] == ("subjectAltName"@, listen_addr@)
            &&& id.record@.subject_entries[3].0 == "CN"@
            &&& id.record@.not_before_days == Some(0u32)
            &&& id.record@.not_after_days == Some(VALIDITY_DAYS)
            &&& id.record@.public_key_from == Some(*key)
            &&& id.record@.signed_with == Some(*key)
            &&& id.record@.digest == Some(Digest::Sha256)
            &&& id.key_pem@.len() > 0
            &&& id.cert_pem@.len() > 0
        },
{
    let hostname = match hostname_lookup() {
        Some(h) => h,
        None => {
            return Err(CertError::Construction);
        },
    };
    if listen_addr.as_bytes().len() > MAX_SUBJECT_VALUE_BYTES
        || hostname.as_str().as_bytes().len() > MAX_SUBJECT_VALUE_BYTES {
        return Err(CertError::Construction);
    }
    let params = cert_params(listen_addr, hostname.as_str());
    proof {
        broadcast use vstd::utf8::is_ascii_chars_encode_utf8;

        reveal_strlit("GB");
        reveal_strlit("enarx-test");
        assert(vstd::utf8::is_ascii_chars("GB"@));
        assert(vstd::utf8::is_ascii_chars("enarx-test"@));
        assert(vstd::utf8::encode_utf8(params.country@).len() == 2);
        assert(vstd::utf8::encode_utf8(params.organization@).len() == 10);
        assert(vstd::utf8::encode_utf8(params.subject_alt_name@).len()
            <= MAX_SUBJECT_VALUE_BYTES);
        assert(vstd::utf8::encode_utf8(params.common_name@).len() <= MAX_SUBJECT_VALUE_BYTES);
    }
    issue_certificate(key, &params)
}

} // verus!
