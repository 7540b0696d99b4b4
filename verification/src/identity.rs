//! The identity of this device: a self-signed certificate and its fingerprint.

use crate::text::{opt_view, same_text, views};
use vstd::prelude::*;

verus! {

/// Certificate, key and fingerprint of this device.
#[derive(Debug)]
pub struct Identity {
    pub cert_der: Vec<u8>,
    pub key_pem: String,
    pub cert_pem: String,
    /// Hexadecimal SHA-256 of the certificate.
    pub fingerprint: String,
}

/// An identity as a mathematical value.
#[verifier::ext_equal]
pub struct IdentityView {
    pub cert_der: Seq<u8>,
    pub key_pem: Seq<char>,
    pub cert_pem: Seq<char>,
    pub fingerprint: Seq<char>,
}

impl View for Identity {
    type V = IdentityView;

    open spec fn view(&self) -> IdentityView {
        IdentityView {
            cert_der: self.cert_der@,
            key_pem: self.key_pem@,
            cert_pem: self.cert_pem@,
            fingerprint: self.fingerprint@,
        }
    }
}

impl Clone for Identity {
    fn clone(&self) -> (r: Self)
        ensures
            r@ == self@,
    {
        Identity {
            cert_der: self.cert_der.clone(),
            key_pem: self.key_pem.clone(),
            cert_pem: self.cert_pem.clone(),
            fingerprint: self.fingerprint.clone(),
        }
    }
}

/// Why an identity could not be had.
#[derive(Debug)]
pub enum IdentityError {
    /// The certificate file or the key file is not well-formed; what the reader says of it.
    MalformedPem(String),
    /// The certificate file holds no certificate.
    NoCertificate,
    /// No certificate could be generated; what the generator says of it.
    NotGenerated(String),
    /// The key file holds no private key.
    NoPrivateKey,
}

/// An identity error as a mathematical value.
#[verifier::ext_equal]
pub enum IdentityErrorView {
    MalformedPem(Seq<char>),
    NoCertificate,
    NotGenerated(Seq<char>),
    NoPrivateKey,
}

impl View for IdentityError {
    type V = IdentityErrorView;

    open spec fn view(&self) -> IdentityErrorView {
        match *self {
            IdentityError::MalformedPem(m) => IdentityErrorView::MalformedPem(m@),
            IdentityError::NoCertificate => IdentityErrorView::NoCertificate,
            IdentityError::NotGenerated(m) => IdentityErrorView::NotGenerated(m@),
            IdentityError::NoPrivateKey => IdentityErrorView::NoPrivateKey,
        }
    }
}

impl IdentityError {
    /// The error in words.
    pub fn message(&self) -> (r: String)
        ensures
            r@ == (match self@ {
                IdentityErrorView::MalformedPem(m) => m,
                IdentityErrorView::NoCertificate => "no cert in PEM"@,
                IdentityErrorView::NotGenerated(m) => m,
                IdentityErrorView::NoPrivateKey => "no private key"@,
            }),
    {
        match self {
            IdentityError::MalformedPem(m) => m.clone(),
            IdentityError::NoCertificate => "no cert in PEM".to_string(),
            IdentityError::NotGenerated(m) => m.clone(),
            IdentityError::NoPrivateKey => "no private key".to_string(),
        }
    }
}

/// The lower-case hexadecimal digit for `d`.
pub open spec fn hex_digit(d: nat) -> char {
    if d < 10 {
        (48 + d) as char
    } else {
        (87 + d) as char
    }
}

/// Bytes in lower-case hexadecimal, two digits each, the high one first.
pub open spec fn hex_text(bytes: Seq<u8>) -> Seq<char> {
    Seq::new(
        2 * bytes.len(),
        |i: int|
            if i % 2 == 0 {
                hex_digit((bytes[i / 2] / 16) as nat)
            } else {
                hex_digit((bytes[i / 2] % 16) as nat)
            },
    )
}

/// Calls `hex::encode`: two lower-case hexadecimal digits for each byte, the high one first.
#[verifier::external_body]
pub(crate) fn hex_encode(bytes: &[u8]) -> (r: String)
    ensures
        r@ == hex_text(bytes@),
{
    hex::encode(bytes)
}

/// The SHA-256 digest of `data`.
pub uninterp spec fn sha256(data: Seq<u8>) -> Seq<u8>;

/// Calls `sha2::Sha256::digest`. The digest is named `sha256` of the data and is 32 bytes long.
#[verifier::external_body]
pub(crate) fn sha256_digest(data: &[u8]) -> (r: Vec<u8>)
    ensures
        r@ == sha256(data@),
        r@.len() == 32,
{
    <sha2::Sha256 as sha2::Digest>::digest(data).to_vec()
}

/// What a reader of PEM texts finds of certificates in a text, in order: a certificate, or what is
/// wrong with the text at some place.
pub uninterp spec fn certificates(pem: Seq<char>) -> Seq<Result<Seq<u8>, Seq<char>>>;

/// What was found of certificates as a mathematical value.
pub open spec fn finds_view(found: Seq<Result<Vec<u8>, String>>) -> Seq<
    Result<Seq<u8>, Seq<char>>,
> {
    Seq::new(found.len(), |i: int| result_view(found[i]))
}

/// Calls `rustls_pemfile::certs` on the text and takes all that it yields. The outcome is named
/// `certificates` of the text.
#[verifier::external_body]
pub(crate) fn pem_certificates(pem: &str) -> (r: Vec<Result<Vec<u8>, String>>)
    ensures
        finds_view(r@) == certificates(pem@),
{
    let mut text = std::io::Cursor::new(pem.as_bytes());
    rustls_pemfile::certs(&mut text)
        .map(|found| match found {
            Ok(der) => Ok(der.as_ref().to_vec()),
            Err(e) => Err(e.to_string()),
        })
        .collect()
}

/// The first certificate in a PEM text, nothing where it holds none, or what is wrong with the
/// text up to there.
pub open spec fn first_certificate(pem: Seq<char>) -> Result<Option<Seq<u8>>, Seq<char>> {
    first_of(certificates(pem))
}

/// The first certificate of those that were found.
pub open spec fn first_of(found: Seq<Result<Seq<u8>, Seq<char>>>) -> Result<
    Option<Seq<u8>>,
    Seq<char>,
> {
    if found.len() == 0 {
        Ok(None)
    } else {
        match found[0] {
            Ok(der) => Ok(Some(der)),
            Err(m) => Err(m),
        }
    }
}

/// All certificates in a PEM text, or the first thing that is wrong with it.
pub open spec fn all_certificates(pem: Seq<char>) -> Result<Seq<Seq<u8>>, Seq<char>> {
    all_of(certificates(pem))
}

/// All certificates of those that were found, or the first thing that is wrong.
pub open spec fn all_of(found: Seq<Result<Seq<u8>, Seq<char>>>) -> Result<Seq<Seq<u8>>, Seq<char>>
    decreases found.len(),
{
    if found.len() == 0 {
        Ok(Seq::empty())
    } else {
        match all_of(found.drop_last()) {
            Ok(ders) => match found.last() {
                Ok(der) => Ok(ders.push(der)),
                Err(m) => Err(m),
            },
            Err(m) => Err(m),
        }
    }
}

/// The forms in which a private key can be encoded.
#[derive(Debug, Clone, Copy, PartialEq, Eq, Structural)]
pub enum KeyForm {
    Pkcs1,
    Sec1,
    Pkcs8,
}

/// A private key in its encoding.
#[derive(Debug)]
pub struct PrivateKey {
    pub form: KeyForm,
    pub der: Vec<u8>,
}

/// A private key as a mathematical value.
#[verifier::ext_equal]
pub struct KeyView {
    pub form: KeyForm,
    pub der: Seq<u8>,
}

impl View for PrivateKey {
    type V = KeyView;

    open spec fn view(&self) -> KeyView {
        KeyView { form: self.form, der: self.der@ }
    }
}

/// The first private key in a PEM text, nothing where it holds none, or what is wrong with the text
/// up to there.
pub uninterp spec fn first_private_key(pem: Seq<char>) -> Result<Option<KeyView>, Seq<char>>;

/// The outcome of a search for a private key as a mathematical value.
pub open spec fn key_view(found: Result<Option<PrivateKey>, String>) -> Result<
    Option<KeyView>,
    Seq<char>,
> {
    match found {
        Ok(key) => Ok(opt_view(key)),
        Err(m) => Err(m@),
    }
}

/// Calls `rustls_pemfile::private_key` on the text. The outcome is named `first_private_key` of the
/// text.
#[verifier::external_body]
pub(crate) fn pem_private_key(pem: &str) -> (r: Result<Option<PrivateKey>, String>)
    ensures
        key_view(r) == first_private_key(pem@),
{
    let found = rustls_pemfile::private_key(&mut std::io::Cursor::new(pem.as_bytes()));
    match found.map_err(|e| e.to_string())? {
        Some(rustls::pki_types::PrivateKeyDer::Pkcs1(k)) => {
            Ok(Some(PrivateKey { form: KeyForm::Pkcs1, der: k.secret_pkcs1_der().to_vec() }))
        },
        Some(rustls::pki_types::PrivateKeyDer::Sec1(k)) => {
            Ok(Some(PrivateKey { form: KeyForm::Sec1, der: k.secret_sec1_der().to_vec() }))
        },
        Some(rustls::pki_types::PrivateKeyDer::Pkcs8(k)) => {
            Ok(Some(PrivateKey { form: KeyForm::Pkcs8, der: k.secret_pkcs8_der().to_vec() }))
        },
        _ => Ok(None),
    }
}

/// A freshly generated certificate and its key.
#[derive(Debug)]
pub struct GeneratedCertificate {
    pub cert_der: Vec<u8>,
    pub cert_pem: String,
    pub key_pem: String,
}

/// A generated certificate as a mathematical value.
#[verifier::ext_equal]
pub struct GeneratedView {
    pub cert_der: Seq<u8>,
    pub cert_pem: Seq<char>,
    pub key_pem: Seq<char>,
}

impl View for GeneratedCertificate {
    type V = GeneratedView;

    open spec fn view(&self) -> GeneratedView {
        GeneratedView {
            cert_der: self.cert_der@,
            cert_pem: self.cert_pem@,
            key_pem: self.key_pem@,
        }
    }
}

/// Whether a certificate states these alternative names and this common name, and is signed with
/// this key.
pub uninterp spec fn issued_for(
    cert_der: Seq<u8>,
    key_pem: Seq<char>,
    names: Seq<Seq<char>>,
    common_name: Seq<char>,
) -> bool;

/// Calls rcgen: `CertificateParams::new` with the names, `DistinguishedName::push` with the common
/// name, `KeyPair::generate`, `CertificateParams::self_signed`, and the certificate and the key in
/// their encodings. Claims that the certificate was issued for the names with the key, that its PEM
/// form, read again, gives the DER form back and nothing else, and that the PEM form of the key,
/// read again, gives a key in PKCS #8. The key is random, so nothing is claimed of which certificate
/// comes out. The names are bounded: the PEM reader refuses sections of more than 256 MiB.
#[verifier::external_body]
pub(crate) fn generate_certificate(names: Vec<String>, common_name: &str) -> (r: Result<
    GeneratedCertificate,
    String,
>)
    requires
        names@.len() <= 16,
        forall|i: int| 0 <= i < names@.len() ==> #[trigger] names@[i]@.len() <= 255,
        common_name@.len() <= 64,
    ensures
        r is Ok ==> certificates(r->Ok_0.cert_pem@) == seq![
            Ok::<Seq<u8>, Seq<char>>(r->Ok_0.cert_der@),
        ],
        r is Ok ==> (first_private_key(r->Ok_0.key_pem@) matches Ok(Some(k)) && k.form
            == KeyForm::Pkcs8),
        r is Ok ==> issued_for(
            r->Ok_0.cert_der@,
            r->Ok_0.key_pem@,
            views(names@),
            common_name@,
        ),
{
    let mut params = rcgen::CertificateParams::new(names).map_err(|e| e.to_string())?;
    params.distinguished_name.push(rcgen::DnType::CommonName, common_name);
    let key = rcgen::KeyPair::generate().map_err(|e| e.to_string())?;
    let cert = params.self_signed(&key).map_err(|e| e.to_string())?;
    Ok(GeneratedCertificate {
        cert_der: cert.der().to_vec(),
        cert_pem: cert.pem(),
        key_pem: key.serialize_pem(),
    })
}

/// The fingerprint of a certificate: its SHA-256 digest in hexadecimal.
pub open spec fn fingerprint(cert_der: Seq<u8>) -> Seq<char> {
    hex_text(sha256(cert_der))
}

/// A digest in hexadecimal.
pub fn digest_text(digest: &[u8]) -> (r: String)
    ensures
        r@ == hex_text(digest@),
{
    hex_encode(digest)
}

/// The fingerprint of a certificate.
pub fn fingerprint_hex(cert_der: &[u8]) -> (r: String)
    ensures
        r@ == fingerprint(cert_der@),
        r@.len() == 64,
        forall|i: int|
            0 <= i < 64 ==> ('0' <= #[trigger] r@[i] <= '9' || 'a' <= r@[i] <= 'f'),
{
    let digest = sha256_digest(cert_der);
    digest_text(digest.as_slice())
}

/// The certificate that a search found, or the error that stands for its failure.
pub open spec fn der_of(found: Result<Option<Seq<u8>>, Seq<char>>) -> Result<
    Seq<u8>,
    IdentityErrorView,
> {
    match found {
        Ok(Some(der)) => Ok(der),
        Ok(None) => Err(IdentityErrorView::NoCertificate),
        Err(m) => Err(IdentityErrorView::MalformedPem(m)),
    }
}

/// The outcome of a fallible step as a mathematical value.
pub open spec fn result_view<T: View, E: View>(r: Result<T, E>) -> Result<T::V, E::V> {
    match r {
        Ok(t) => Ok(t@),
        Err(e) => Err(e@),
    }
}

/// The first certificate of those that were found.
pub fn take_certificate(found: Vec<Result<Vec<u8>, String>>) -> (r: Result<Vec<u8>, IdentityError>)
    ensures
        result_view(r) == der_of(first_of(finds_view(found@))),
{
    if found.len() == 0 {
        return Err(IdentityError::NoCertificate);
    }
    match &found[0] {
        Ok(der) => Ok(der.clone()),
        Err(m) => Err(IdentityError::MalformedPem(m.clone())),
    }
}

/// The first certificate of a PEM text.
pub fn pem_to_der(pem: &str) -> (r: Result<Vec<u8>, IdentityError>)
    ensures
        result_view(r) == der_of(first_certificate(pem@)),
{
    take_certificate(pem_certificates(pem))
}

/// What a server needs to present itself: its certificates and its private key.
#[derive(Debug)]
pub struct Credentials {
    pub certs: Vec<Vec<u8>>,
    pub key: PrivateKey,
}

/// Credentials as a mathematical value.
#[verifier::ext_equal]
pub struct CredentialsView {
    pub certs: Seq<Seq<u8>>,
    pub key: KeyView,
}

impl View for Credentials {
    type V = CredentialsView;

    open spec fn view(&self) -> CredentialsView {
        CredentialsView { certs: views(self.certs@), key: self.key@ }
    }
}

/// The credentials that follow from the certificates and the key that were found: the certificates
/// are looked at first, and a key must be there.
pub open spec fn credentials_of(
    certs: Result<Seq<Seq<u8>>, Seq<char>>,
    key: Result<Option<KeyView>, Seq<char>>,
) -> Result<CredentialsView, IdentityErrorView> {
    match certs {
        Err(m) => Err(IdentityErrorView::MalformedPem(m)),
        Ok(certs) => match key {
            Err(m) => Err(IdentityErrorView::MalformedPem(m)),
            Ok(None) => Err(IdentityErrorView::NoPrivateKey),
            Ok(Some(key)) => Ok(CredentialsView { certs, key }),
        },
    }
}

/// The first thing that is wrong decides.
proof fn lemma_first_fault_stays(found: Seq<Result<Seq<u8>, Seq<char>>>, i: int)
    requires
        0 <= i <= found.len(),
        all_of(found.take(i)) is Err,
    ensures
        all_of(found) == all_of(found.take(i)),
    decreases found.len() - i,
{
    if i < found.len() {
        assert(found.take(i + 1).drop_last() =~= found.take(i));
        lemma_first_fault_stays(found, i + 1);
    } else {
        assert(found.take(i) =~= found);
    }
}

/// Where nothing is wrong, the certificates are those that were found.
proof fn lemma_all_found(found: Seq<Result<Seq<u8>, Seq<char>>>)
    ensures
        all_of(found) matches Ok(ders) ==> ders.len() == found.len() && forall|i: int|
            0 <= i < found.len() ==> #[trigger] found[i] == Ok::<Seq<u8>, Seq<char>>(ders[i]),
    decreases found.len(),
{
    if found.len() > 0 {
        lemma_all_found(found.drop_last());
        if all_of(found) is Ok {
            let ders = all_of(found)->Ok_0;
            assert forall|i: int| 0 <= i < found.len() implies #[trigger] found[i] == Ok::<
                Seq<u8>,
                Seq<char>,
            >(ders[i]) by {
                if i < found.len() - 1 {
                    assert(found.drop_last()[i] == found[i]);
                }
            }
        }
    }
}

/// The credentials that follow from the certificates and the key that were found.
pub fn take_credentials(
    found: Vec<Result<Vec<u8>, String>>,
    key: Result<Option<PrivateKey>, String>,
) -> (r: Result<Credentials, IdentityError>)
    ensures
        result_view(r) == credentials_of(all_of(finds_view(found@)), key_view(key)),
{
    let ghost all = finds_view(found@);
    let mut certs: Vec<Vec<u8>> = Vec::new();
    assert(all.take(0) =~= Seq::<Result<Seq<u8>, Seq<char>>>::empty());
    assert(views(certs@) =~= Seq::<Seq<u8>>::empty());
    for f in it: found
        invariant
            it.seq() == found@,
            all == finds_view(found@),
            all_of(all.take(it.index() as int)) == Ok::<Seq<Seq<u8>>, Seq<char>>(views(certs@)),
    {
        let ghost i = it.index() as int;
        assert(result_view(f) == all[i]);
        assert(all.take(i + 1).drop_last() =~= all.take(i));
        assert(all.take(i + 1).last() == all[i]);
        let ghost before = views(certs@);
        match f {
            Ok(der) => {
                certs.push(der);
                assert(views(certs@) =~= before.push(der@));
            },
            Err(m) => {
                proof {
                    lemma_first_fault_stays(all, i + 1);
                }
                return Err(IdentityError::MalformedPem(m));
            },
        }
    }
    assert(all.take(all.len() as int) =~= all);
    match key {
        Err(m) => Err(IdentityError::MalformedPem(m)),
        Ok(None) => Err(IdentityError::NoPrivateKey),
        Ok(Some(key)) => Ok(Credentials { certs, key }),
    }
}

/// What this device presents itself with: all certificates of its certificate text, and the first
/// private key of its key text.
pub fn server_credentials(identity: &Identity) -> (r: Result<Credentials, IdentityError>)
    ensures
        result_view(r) == credentials_of(
            all_certificates(identity@.cert_pem),
            first_private_key(identity@.key_pem),
        ),
{
    let found = pem_certificates(identity.cert_pem.as_str());
    take_credentials(found, pem_private_key(identity.key_pem.as_str()))
}

/// Whether a certificate is that of the device with this id.
pub fn is_certificate_of(cert_der: &[u8], id: &str) -> (r: bool)
    ensures
        r == (fingerprint(cert_der@) == id@),
{
    let print = fingerprint_hex(cert_der);
    same_text(print.as_str(), id)
}

/// The host name that certificates of this application state.
pub const HOST_NAME: &'static str = "localbeam.local";

/// The common name that certificates of this application state.
pub const COMMON_NAME: &'static str = "LocalBeam";

impl IdentityView {
    /// The certificate was issued for this application, with the key.
    pub open spec fn is_own(self) -> bool {
        issued_for(self.cert_der, self.key_pem, seq![HOST_NAME@], COMMON_NAME@)
    }

    /// There is all that a server needs to present itself.
    pub open spec fn can_serve(self) -> bool {
        credentials_of(all_certificates(self.cert_pem), first_private_key(self.key_pem)) is Ok
    }

    /// The identity made of a certificate in both forms and a key.
    pub open spec fn of(cert_der: Seq<u8>, cert_pem: Seq<char>, key_pem: Seq<char>) -> IdentityView {
        IdentityView { cert_der, key_pem, cert_pem, fingerprint: fingerprint(cert_der) }
    }

    /// The identity that the two stored texts give.
    pub open spec fn stored(cert_pem: Seq<char>, key_pem: Seq<char>) -> Result<
        IdentityView,
        IdentityErrorView,
    > {
        match der_of(first_certificate(cert_pem)) {
            Ok(der) => Ok(IdentityView::of(der, cert_pem, key_pem)),
            Err(e) => Err(e),
        }
    }

    /// The fingerprint is that of the certificate, and the two forms hold the same certificate.
    pub open spec fn coherent(self) -> bool {
        &&& self.fingerprint == fingerprint(self.cert_der)
        &&& der_of(first_certificate(self.cert_pem)) == Ok::<Seq<u8>, IdentityErrorView>(
            self.cert_der,
        )
    }
}

impl Identity {
    /// The identity made of a certificate in both forms and a key.
    pub fn from_parts(cert_der: Vec<u8>, cert_pem: String, key_pem: String) -> (r: Self)
        ensures
            r@ == IdentityView::of(cert_der@, cert_pem@, key_pem@),
    {
        let fingerprint = fingerprint_hex(cert_der.as_slice());
        Identity { cert_der, key_pem, cert_pem, fingerprint }
    }

    /// The identity that the two stored texts give.
    pub fn from_stored(cert_pem: String, key_pem: String) -> (r: Result<Self, IdentityError>)
        ensures
            result_view(r) == IdentityView::stored(cert_pem@, key_pem@),
            r is Ok ==> r->Ok_0@.coherent(),
    {
        match pem_to_der(cert_pem.as_str()) {
            Ok(der) => Ok(Identity::from_parts(der, cert_pem, key_pem)),
            Err(e) => Err(e),
        }
    }

    /// The identity that follows from what a generator gave.
    pub fn take_generated(generated: Result<GeneratedCertificate, String>) -> (r: Result<
        Self,
        IdentityError,
    >)
        ensures
            result_view(r) == (match result_view(generated) {
                Ok(g) => Ok(IdentityView::of(g.cert_der, g.cert_pem, g.key_pem)),
                Err(m) => Err(IdentityErrorView::NotGenerated(m)),
            }),
    {
        match generated {
            Ok(g) => Ok(Identity::from_parts(g.cert_der, g.cert_pem, g.key_pem)),
            Err(m) => Err(IdentityError::NotGenerated(m)),
        }
    }

    /// A new identity, for the host name and the common name of this application.
    pub fn generate() -> (r: Result<Self, IdentityError>)
        ensures
            r is Ok ==> r->Ok_0@.coherent() && r->Ok_0@.is_own() && r->Ok_0@.can_serve(),
            r is Err ==> r->Err_0 is NotGenerated,
    {
        let mut names: Vec<String> = Vec::new();
        names.push(HOST_NAME.to_string());
        proof {
            reveal_strlit("localbeam.local");
            reveal_strlit("LocalBeam");
            assert(views(names@) =~= seq![HOST_NAME@]);
        }
        let generated = generate_certificate(names, COMMON_NAME);
        proof {
            if generated is Ok {
                let g = generated->Ok_0@;
                let found = certificates(g.cert_pem);
                assert(found.drop_last() =~= Seq::<Result<Seq<u8>, Seq<char>>>::empty());
                assert(all_of(found.drop_last()) == Ok::<Seq<Seq<u8>>, Seq<char>>(Seq::empty()));
                assert(all_of(found) is Ok);
            }
        }
        Identity::take_generated(generated)
    }

    /// The identity to start with, and whether it is new and is to be stored: the one of the stored
    /// certificate and key, or else a generated one.
    pub fn load_or_create(stored: Option<(String, String)>) -> (r: Result<
        (Self, bool),
        IdentityError,
    >)
        ensures
            r is Ok ==> r->Ok_0.0@.coherent() && r->Ok_0.1 == (stored is None),
            match stored {
                Some((cert_pem, key_pem)) => match IdentityView::stored(cert_pem@, key_pem@) {
                    Ok(id) => r is Ok && r->Ok_0.0@ == id,
                    Err(e) => r is Err && r->Err_0@ == e,
                },
                None => match r {
                    Ok((id, _)) => id@.is_own() && id@.can_serve(),
                    Err(e) => e is NotGenerated,
                },
            },
    {
        match stored {
            Some((cert_pem, key_pem)) => match Identity::from_stored(cert_pem, key_pem) {
                Ok(id) => Ok((id, false)),
                Err(e) => Err(e),
            },
            None => match Identity::generate() {
                Ok(id) => Ok((id, true)),
                Err(e) => Err(e),
            },
        }
    }
}

/// A device keeps its identity: storing the two texts of a coherent identity and reading them
/// again gives the same certificate, key and fingerprint.
pub proof fn stored_identity_is_stable(id: IdentityView)
    requires
        id.coherent(),
    ensures
        IdentityView::stored(id.cert_pem, id.key_pem) == Ok::<IdentityView, IdentityErrorView>(id),
{
}

/// A device is who it says: the first certificate that it presents is the one whose fingerprint is
/// its id.
pub proof fn presented_certificate_is_the_identity(id: IdentityView)
    requires
        id.coherent(),
    ensures
        credentials_of(all_certificates(id.cert_pem), first_private_key(id.key_pem)) matches Ok(c)
            ==> c.certs.len() > 0 && c.certs[0] == id.cert_der && fingerprint(c.certs[0])
            == id.fingerprint,
{
    lemma_all_found(certificates(id.cert_pem));
}

/// Equal digests in hexadecimal are equal digests.
pub proof fn hex_text_is_injective(a: Seq<u8>, b: Seq<u8>)
    requires
        hex_text(a) == hex_text(b),
    ensures
        a == b,
{
    assert(hex_text(a).len() == 2 * a.len() && hex_text(b).len() == 2 * b.len());
    assert forall|i: int| 0 <= i < a.len() implies a[i] == b[i] by {
        assert((2 * i) / 2 == i && (2 * i + 1) / 2 == i);
        assert((2 * i) % 2 == 0 && (2 * i + 1) % 2 == 1);
        assert(hex_text(a)[2 * i] == hex_digit((a[i] / 16) as nat));
        assert(hex_text(b)[2 * i] == hex_digit((b[i] / 16) as nat));
        assert(hex_text(a)[2 * i + 1] == hex_digit((a[i] % 16) as nat));
        assert(hex_text(b)[2 * i + 1] == hex_digit((b[i] % 16) as nat));
        lemma_hex_digit((a[i] / 16) as nat, (b[i] / 16) as nat);
        lemma_hex_digit((a[i] % 16) as nat, (b[i] % 16) as nat);
    }
    assert(a =~= b);
}

/// Different digits are written differently.
proof fn lemma_hex_digit(a: nat, b: nat)
    ensures
        a < 16 && b < 16 && hex_digit(a) == hex_digit(b) ==> a == b,
{
}

/// The number that a hexadecimal digit stands for.
pub open spec fn digit_value(c: char) -> int {
    if '0' <= c <= '9' {
        c as int - '0' as int
    } else {
        c as int - 'a' as int + 10
    }
}

/// Every byte is written in two digits that stand for it, the high one first.
pub proof fn hex_text_reads_back(bytes: Seq<u8>, i: int)
    requires
        0 <= i < bytes.len(),
    ensures
        hex_text(bytes).len() == 2 * bytes.len(),
        digit_value(hex_text(bytes)[2 * i]) * 16 + digit_value(hex_text(bytes)[2 * i + 1]) == bytes[i],
{
    assert((2 * i) / 2 == i && (2 * i + 1) / 2 == i);
    assert((2 * i) % 2 == 0 && (2 * i + 1) % 2 == 1);
    assert(hex_text(bytes)[2 * i] == hex_digit((bytes[i] / 16) as nat));
    assert(hex_text(bytes)[2 * i + 1] == hex_digit((bytes[i] % 16) as nat));
}

/// The certificate of a device is the first that its text holds; a text that holds none is told apart from
/// one that is not well-formed, which is reported in the reader's words.
pub proof fn first_certificate_counts(found: Seq<Result<Seq<u8>, Seq<char>>>)
    ensures
        found.len() == 0 ==> der_of(first_of(found)) == Err::<Seq<u8>, IdentityErrorView>(
            IdentityErrorView::NoCertificate,
        ),
        found.len() > 0 ==> match found[0] {
            Ok(der) => der_of(first_of(found)) == Ok::<Seq<u8>, IdentityErrorView>(der),
            Err(m) => der_of(first_of(found)) == Err::<Seq<u8>, IdentityErrorView>(
                IdentityErrorView::MalformedPem(m),
            ),
        },
{
}

/// A device can present itself just when all its certificates and its key can be read and the key is
/// there, and it presents them as they were found; a fault of the certificates is reported before one of
/// the key, and of several certificates the first that is not well-formed is.
pub proof fn credentials_are_those_found(
    found: Seq<Result<Seq<u8>, Seq<char>>>,
    key: Result<Option<KeyView>, Seq<char>>,
)
    ensures
        match credentials_of(all_of(found), key) {
            Ok(c) => key == Ok::<Option<KeyView>, Seq<char>>(Some(c.key)) && c.certs.len()
                == found.len() && forall|i: int|
                0 <= i < found.len() ==> #[trigger] found[i] == Ok::<Seq<u8>, Seq<char>>(c.certs[i]),
            Err(e) => (exists|i: int|
                0 <= i < found.len() && (#[trigger] found[i] matches Err(m) && e
                    == IdentityErrorView::MalformedPem(m)) && forall|j: int|
                    0 <= j < i ==> #[trigger] found[j] is Ok) || ((forall|i: int|
                0 <= i < found.len() ==> #[trigger] found[i] is Ok) && (match key {
                Err(m) => e == IdentityErrorView::MalformedPem(m),
                Ok(k) => k is None && e == IdentityErrorView::NoPrivateKey,
            })),
        },
{
    lemma_all_found(found);
    lemma_first_fault(found);
    if all_of(found) is Ok {
        let ders = all_of(found)->Ok_0;
        assert forall|i: int| 0 <= i < found.len() implies #[trigger] found[i] is Ok by {
            assert(found[i] == Ok::<Seq<u8>, Seq<char>>(ders[i]));
        }
    }
}

/// Where something is wrong, the first that is decides.
proof fn lemma_first_fault(found: Seq<Result<Seq<u8>, Seq<char>>>)
    ensures
        all_of(found) matches Err(m) ==> exists|i: int|
            0 <= i < found.len() && #[trigger] found[i] == Err::<Seq<u8>, Seq<char>>(m) && forall|j: int|
                0 <= j < i ==> #[trigger] found[j] is Ok,
    decreases found.len(),
{
    if found.len() > 0 {
        let front = found.drop_last();
        let n = found.len() - 1;
        lemma_first_fault(front);
        lemma_all_found(front);
        match all_of(front) {
            Err(m) => {
                let i = choose|i: int|
                    0 <= i < front.len() && #[trigger] front[i] == Err::<Seq<u8>, Seq<char>>(m)
                        && forall|j: int| 0 <= j < i ==> #[trigger] front[j] is Ok;
                assert(found[i] == front[i]);
                assert forall|j: int| 0 <= j < i implies #[trigger] found[j] is Ok by {
                    assert(front[j] == found[j]);
                }
            },
            Ok(ders) => {
                assert forall|j: int| 0 <= j < n implies #[trigger] found[j] is Ok by {
                    assert(front[j] == Ok::<Seq<u8>, Seq<char>>(ders[j]));
                }
                assert(found[n] == found.last());
            },
        }
    }
}

/// An identity is made of what it is given, and its fingerprint is that of its certificate.
pub proof fn identity_is_made_of_its_parts(cert_der: Seq<u8>, cert_pem: Seq<char>, key_pem: Seq<char>)
    ensures
        ({
            let id = IdentityView::of(cert_der, cert_pem, key_pem);
            &&& id.cert_der == cert_der
            &&& id.cert_pem == cert_pem
            &&& id.key_pem == key_pem
            &&& id.fingerprint == fingerprint(cert_der)
        }),
{
}

/// A fingerprint is the SHA-256 digest of the certificate: two digits stand for each of its bytes, and
/// nothing else is in it.
pub proof fn fingerprint_is_the_digest(cert_der: Seq<u8>, i: int)
    requires
        0 <= i < sha256(cert_der).len(),
    ensures
        fingerprint(cert_der).len() == 2 * sha256(cert_der).len(),
        digit_value(fingerprint(cert_der)[2 * i]) * 16 + digit_value(fingerprint(cert_der)[2 * i + 1])
            == sha256(cert_der)[i],
{
    hex_text_reads_back(sha256(cert_der), i);
}

/// The stored texts give the identity of the first certificate that the certificate text holds, with both
/// texts as they are; without one, or where it is not well-formed, they give none, and say which.
pub proof fn stored_texts_give_the_identity(cert_pem: Seq<char>, key_pem: Seq<char>)
    ensures
        ({
            let found = certificates(cert_pem);
            let stored = IdentityView::stored(cert_pem, key_pem);
            &&& stored is Ok <==> found.len() > 0 && found[0] is Ok
            &&& stored matches Ok(id) ==> found[0] == Ok::<Seq<u8>, Seq<char>>(id.cert_der)
                && id.cert_pem == cert_pem && id.key_pem == key_pem && id.fingerprint == fingerprint(
                id.cert_der,
            )
            &&& stored matches Err(e) ==> if found.len() == 0 {
                e == IdentityErrorView::NoCertificate
            } else {
                found[0] matches Err(m) && e == IdentityErrorView::MalformedPem(m)
            }
        }),
{
}

} // verus!
