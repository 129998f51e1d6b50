//! Keys and the certificates made with them.
use crate::hash::hash_array;
use crate::text::decimal;
use ed25519_dalek::pkcs8::{DecodePrivateKey, EncodePrivateKey};
use vstd::prelude::*;
use x509_cert::der::Decode;

verus! {

/// What a certificate says, as far as it is looked at. The fingerprint is the
/// SHA-256 hash of the public key's DER form.
pub struct CertificateFields {
    pub public_key: Option<Seq<u8>>,
    pub fingerprint: Option<Seq<u8>>,
    pub extensions: Seq<(Seq<char>, Seq<u8>)>,
}

/// What the certificate with the given DER form says, if it is one.
pub uninterp spec fn x509_fields(der: Seq<u8>) -> Option<CertificateFields>;

/// The Ed25519 public key that belongs to a secret key.
pub uninterp spec fn ed25519_public(secret: Seq<u8>) -> Seq<u8>;

/// The secret key in a PKCS#8 text.
pub uninterp spec fn secret_of_pem(pem: Seq<char>) -> Option<Seq<u8>>;

/// The PKCS#8 text of a secret key.
pub uninterp spec fn pem_of_secret(secret: Seq<u8>) -> Seq<char>;

/// The DER form of the certificate for a host, signed with the key in a
/// PKCS#8 text, with the extension of the given identifier and content if
/// there is content; nothing if it cannot be made.
pub uninterp spec fn self_signed_der(
    pem: Seq<char>,
    host: Seq<char>,
    oid: Seq<u64>,
    content: Option<Seq<u8>>,
) -> Option<Seq<u8>>;

/// The fingerprint of an Ed25519 public key in a certificate.
pub uninterp spec fn ed25519_fingerprint(public: Seq<u8>) -> Seq<u8>;

/// An extension of a certificate.
#[derive(Clone, Debug, PartialEq, Eq)]
pub struct Extension {
    pub oid: String,
    pub value: Vec<u8>,
}

/// A certificate: its DER form, and what it says.
#[derive(Clone, Debug, PartialEq, Eq)]
pub struct Certificate {
    pub der: Vec<u8>,
    pub public_key: Option<Vec<u8>>,
    pub fingerprint: Option<[u8; 32]>,
    pub extensions: Vec<Extension>,
}

/// Extensions as contracts speak of them.
pub open spec fn extension_list(list: Seq<Extension>) -> Seq<(Seq<char>, Seq<u8>)> {
    list.map_values(|e: Extension| (e.oid@, e.value@))
}

impl Certificate {
    pub open spec fn fields(self) -> CertificateFields {
        CertificateFields {
            public_key: match self.public_key {
                Some(key) => Some(key@),
                None => None,
            },
            fingerprint: match self.fingerprint {
                Some(hash) => Some(hash@),
                None => None,
            },
            extensions: extension_list(self.extensions@),
        }
    }

    /// The fields are those of the DER form.
    pub open spec fn valid(self) -> bool {
        x509_fields(self.der@) == Some(self.fields())
    }
}

/// `x509_cert::Certificate::from_der` reads a certificate; its fields are
/// copied out. That depends on the bytes alone.
#[verifier::external_body]
fn parse_certificate(der: &[u8]) -> (r: Option<Certificate>)
    ensures
        match x509_fields(der@) {
            Some(fields) => r matches Some(cert) && cert.der@ == der@ && cert.fields() == fields,
            None => r is None,
        },
{
    let tbs = x509_cert::Certificate::from_der(der).ok()?.tbs_certificate;
    let key = tbs.subject_public_key_info;
    let extensions = tbs.extensions.into_iter().flatten();
    Some(
        Certificate {
            der: der.to_vec(),
            public_key: key.subject_public_key.as_bytes().map(|bytes| bytes.to_vec()),
            fingerprint: key.fingerprint_bytes().ok(),
            extensions: extensions.map(
                |e| Extension { oid: e.extn_id.to_string(), value: e.extn_value.into_bytes() },
            ).collect(),
        },
    )
}

/// `ed25519_dalek::SigningKey::generate` draws a secret key from the
/// operating system's random numbers. Nothing is claimed of it.
#[verifier::external_body]
fn random_secret() -> [u8; 32] {
    ed25519_dalek::SigningKey::generate(&mut rand::rngs::OsRng).to_bytes()
}

/// `ed25519_dalek::SigningKey::verifying_key` computes the public key out of
/// the secret one.
#[verifier::external_body]
pub(crate) fn public_key(secret: &[u8; 32]) -> (r: [u8; 32])
    ensures
        r@ == ed25519_public(secret@),
{
    ed25519_dalek::SigningKey::from_bytes(secret).verifying_key().to_bytes()
}

/// `to_pkcs8_pem` of `ed25519_dalek` writes any key, so that it can be read
/// back. The parts that it encodes have fixed sizes, and its lines always end
/// in a line feed, so the text depends on the key alone.
#[verifier::external_body]
fn secret_to_pem(secret: &[u8; 32]) -> (r: Option<String>)
    ensures
        r is Some,
        r->0@ == pem_of_secret(secret@),
        secret_of_pem(r->0@) == Some(secret@),
{
    let key = ed25519_dalek::SigningKey::from_bytes(secret);
    Some(key.to_pkcs8_pem(spki::der::pem::LineEnding::LF).ok()?.to_string())
}

/// The PKCS#8 form of a secret key, with its public key.
pub open spec fn pkcs8_bytes(secret: Seq<u8>) -> Seq<u8> {
    seq![0x30u8, 0x51u8, 2u8, 1u8, 1u8, 0x30u8, 5u8, 6u8, 3u8, 0x2bu8, 0x65u8, 0x70u8]
        + seq![4u8, 0x22u8, 4u8, 0x20u8] + secret + seq![0x81u8, 0x21u8, 0u8] + ed25519_public(
        secret,
    )
}

/// `to_pkcs8_der` of `ed25519_dalek` writes the version, the algorithm, the
/// secret key and the public key. All of these have fixed sizes, so it does
/// not fail.
#[verifier::external_body]
fn secret_to_der(secret: &[u8; 32]) -> (r: Option<Vec<u8>>)
    ensures
        r is Some,
        r->0@ == pkcs8_bytes(secret@),
{
    let key = ed25519_dalek::SigningKey::from_bytes(secret);
    Some(key.to_pkcs8_der().ok()?.as_bytes().to_vec())
}

/// `from_pkcs8_pem` of `ed25519_dalek` reads a key. That depends on the text
/// alone.
#[verifier::external_body]
fn secret_from_pem(pem: &str) -> (r: Option<[u8; 32]>)
    ensures
        match secret_of_pem(pem@) {
            Some(secret) => r matches Some(bytes) && bytes@ == secret,
            None => r is None,
        },
{
    Some(ed25519_dalek::SigningKey::from_pkcs8_pem(pem).ok()?.to_bytes())
}

/// An object identifier as text.
pub open spec fn oid_text(oid: Seq<u64>) -> Seq<char>
    decreases oid.len(),
{
    if oid.len() == 0 {
        seq![]
    } else if oid.len() == 1 {
        decimal(oid[0] as nat)
    } else {
        oid_text(oid.drop_last()) + seq!['.'] + decimal(oid.last() as nat)
    }
}

/// The values of all extensions with the given identifier.
pub open spec fn values_of(extensions: Seq<(Seq<char>, Seq<u8>)>, oid: Seq<char>) -> Seq<Seq<u8>>
    decreases extensions.len(),
{
    if extensions.len() == 0 {
        seq![]
    } else {
        let head = values_of(extensions.drop_last(), oid);
        if extensions.last().0 == oid {
            head.push(extensions.last().1)
        } else {
            head
        }
    }
}

/// The bytes of optional content.
pub open spec fn bytes_of(content: Option<Vec<u8>>) -> Option<Seq<u8>> {
    match content {
        Some(bytes) => Some(bytes@),
        None => None,
    }
}

/// `rcgen::CertificateParams::self_signed` makes a certificate for a host,
/// signed with the key in it, that carries the given extension and no other
/// with that identifier. If the text is what `to_pkcs8_pem` writes, the
/// certificate can be read and holds the key; nothing is claimed of what is
/// in a certificate for another text. The fingerprint depends on the key
/// alone. The whole certificate depends on the arguments alone: its dates are
/// fixed, its serial number is a hash of the public key, and an Ed25519
/// signature holds nothing random. On which arguments it can be made is left
/// open.
#[verifier::external_body]
fn self_signed(pem: &str, host: &str, oid: &[u64; 3], content: Option<Vec<u8>>) -> (r: Option<Vec<u8>>)
    requires
        oid@ == forwarding_oid(),
        host@.len() <= 253,
        content matches Some(bytes) ==> bytes@.len() <= 0x1_0000,
    ensures
        match self_signed_der(pem@, host@, oid@, bytes_of(content)) {
            Some(made) => r matches Some(der) && der@ == made,
            None => r is None,
        },
        r matches Some(der) ==> (secret_of_pem(pem@) matches Some(secret) ==> pem@ == pem_of_secret(
            secret,
        ) ==> {
            &&& x509_fields(der@) matches Some(fields)
            &&& fields.public_key == Some(ed25519_public(secret))
            &&& fields.fingerprint == Some(ed25519_fingerprint(ed25519_public(secret)))
            &&& values_of(fields.extensions, oid_text(oid@)) == match content {
                Some(content) => seq![content@],
                None => seq![],
            }
        }),
{
    let key = rcgen::KeyPair::from_pkcs8_pem_and_sign_algo(pem, &rcgen::PKCS_ED25519).ok()?;
    let mut params = rcgen::CertificateParams::new(vec![host.to_owned()]).ok()?;
    let custom = content.map(|bytes| rcgen::CustomExtension::from_oid_content(oid, bytes));
    params.custom_extensions.extend(custom);
    Some(params.self_signed(&key).ok()?.der().to_vec())
}

/// The identifier of the extension that forwards an identity.
pub open spec fn forwarding_oid() -> Seq<u64> {
    seq![2u64, 25u64, 247_823_191u64]
}

/// An Ed25519 secret key. It has no `Debug`, so that it is not printed.
#[derive(Clone, Copy, PartialEq, Eq)]
pub struct SigningKey {
    pub bytes: [u8; 32],
}

/// Why there is no certificate.
#[derive(Clone, Copy, Debug, PartialEq, Eq, Structural)]
pub enum CertificateError {
    /// The text is no Ed25519 private key in PKCS#8 form.
    InvalidKey,
    /// The certificate could not be made.
    Signing,
}

/// The DER form of the certificate that is made for a secret key, with a
/// forwarding extension of the given content or without one.
pub open spec fn certificate_der(secret: Seq<u8>, forwarding: Option<Seq<u8>>) -> Option<Seq<u8>> {
    self_signed_der(pem_of_secret(secret), "localhost"@, forwarding_oid(), forwarding)
}

/// A certificate for the given key, with these forwarding extensions.
pub open spec fn made_with(cert: Certificate, key: SigningKey, forwarding: Seq<Seq<u8>>) -> bool {
    &&& cert.valid()
    &&& cert.fields().public_key == Some(ed25519_public(key.bytes@))
    &&& cert.fields().fingerprint == Some(ed25519_fingerprint(ed25519_public(key.bytes@)))
    &&& values_of(cert.fields().extensions, oid_text(forwarding_oid())) == forwarding
}

impl SigningKey {
    /// A new random key.
    pub fn generate() -> (r: Self) {
        SigningKey { bytes: random_secret() }
    }

    /// The key with the given bytes.
    pub fn from_bytes(bytes: &[u8; 32]) -> (r: Self)
        ensures
            r.bytes@ == bytes@,
    {
        SigningKey { bytes: hash_array(bytes.as_slice()) }
    }

    /// The public key.
    pub fn verifying_key(&self) -> (r: [u8; 32])
        ensures
            r@ == ed25519_public(self.bytes@),
    {
        public_key(&self.bytes)
    }

    /// The key as PKCS#8 text, from which it can be restored.
    pub fn to_pem(&self) -> (r: Option<String>)
        ensures
            r matches Some(pem) && pem@ == pem_of_secret(self.bytes@) && secret_of_pem(pem@) == Some(
                self.bytes@,
            ),
    {
        secret_to_pem(&self.bytes)
    }

    /// The key in its PKCS#8 form.
    pub fn to_der(&self) -> (r: Option<Vec<u8>>)
        ensures
            r matches Some(der) && der@ == pkcs8_bytes(self.bytes@),
    {
        secret_to_der(&self.bytes)
    }
}

impl Certificate {
    /// Reads the DER form of a certificate.
    pub fn from_der(der: &[u8]) -> (r: Option<Self>)
        ensures
            match x509_fields(der@) {
                Some(fields) => r matches Some(cert) && cert.der@ == der@ && cert.fields()
                    == fields && cert.valid(),
                None => r is None,
            },
    {
        parse_certificate(der)
    }
}

/// Makes a certificate for a key, with a forwarding extension or without.
pub(crate) fn certificate_with(key: &SigningKey, forwarding: Option<Vec<u8>>) -> (r: Option<
    Certificate,
>)
    requires
        forwarding matches Some(content) ==> content@.len() <= 0x1_0000,
    ensures
        match certificate_der(key.bytes@, bytes_of(forwarding)) {
            Some(der) => r matches Some(cert) && cert.der@ == der && made_with(
                cert,
                *key,
                match forwarding {
                    Some(content) => seq![content@],
                    None => seq![],
                },
            ),
            None => r is None,
        },
{
    let pem = match key.to_pem() {
        Some(pem) => pem,
        None => {
            return None;
        },
    };
    let oid = [2u64, 25u64, 247_823_191u64];
    proof {
        assert(oid@ =~= forwarding_oid());
        reveal_strlit("localhost");
    }
    match self_signed(pem.as_str(), "localhost", &oid, forwarding) {
        Some(der) => Certificate::from_der(der.as_slice()),
        None => None,
    }
}

/// Makes the certificate of a key.
pub fn certificate_for_key(key: &SigningKey) -> (r: Option<Certificate>)
    ensures
        match certificate_der(key.bytes@, None) {
            Some(der) => r matches Some(cert) && cert.der@ == der && made_with(cert, *key, seq![]),
            None => r is None,
        },
{
    certificate_with(key, None)
}

/// Makes a new key with its certificate. There is none only if a key was
/// drawn for which no certificate can be made.
pub fn create_certifified_keys() -> (r: Option<(Certificate, SigningKey)>)
    ensures
        match r {
            Some((cert, key)) => certificate_der(key.bytes@, None) == Some(cert.der@) && made_with(
                cert,
                key,
                seq![],
            ),
            None => exists|key: SigningKey|
                #![trigger key.bytes@]
                certificate_der(key.bytes@, None) is None,
        },
{
    let key = SigningKey::generate();
    match certificate_for_key(&key) {
        Some(cert) => Some((cert, key)),
        None => None,
    }
}

/// What a PKCS#8 text restores: the DER form of the certificate, and the
/// secret key.
pub open spec fn restored(pem: Seq<char>) -> Result<(Seq<u8>, Seq<u8>), CertificateError> {
    match secret_of_pem(pem) {
        Some(secret) => match certificate_der(secret, None) {
            Some(der) => Ok((der, secret)),
            None => Err(CertificateError::Signing),
        },
        None => Err(CertificateError::InvalidKey),
    }
}

/// Restores an Ed25519 key and makes its certificate again.
pub fn certified_keys_from_pem(pem: &str) -> (r: Result<(Certificate, SigningKey), CertificateError>)
    ensures
        match restored(pem@) {
            Ok((der, secret)) => r matches Ok((cert, key)) && cert.der@ == der && key.bytes@
                == secret && made_with(cert, key, seq![]),
            Err(error) => r == Err::<(Certificate, SigningKey), CertificateError>(error),
        },
{
    let key = match secret_from_pem(pem) {
        Some(bytes) => SigningKey { bytes },
        None => {
            return Err(CertificateError::InvalidKey);
        },
    };
    match certificate_for_key(&key) {
        Some(cert) => Ok((cert, key)),
        None => Err(CertificateError::Signing),
    }
}

/// A key that was written is restored with its identity: the same key and,
/// byte for byte, the same certificate.
pub proof fn written_key_is_restored(cert: Certificate, key: SigningKey, pem: Seq<char>)
    requires
        certificate_der(key.bytes@, None) == Some(cert.der@),
        pem == pem_of_secret(key.bytes@),
        secret_of_pem(pem) == Some(key.bytes@),
    ensures
        restored(pem) == Ok::<(Seq<u8>, Seq<u8>), CertificateError>((cert.der@, key.bytes@)),
{
}

/// The certificates of one key have the same fingerprint and public key,
/// whatever they forward.
pub proof fn certificates_of_a_key_agree(
    a: Certificate,
    b: Certificate,
    key: SigningKey,
    forwarded_a: Seq<Seq<u8>>,
    forwarded_b: Seq<Seq<u8>>,
)
    requires
        made_with(a, key, forwarded_a),
        made_with(b, key, forwarded_b),
    ensures
        a.fields().fingerprint == b.fields().fingerprint,
        a.fields().public_key == b.fields().public_key,
{
}

} // verus!
