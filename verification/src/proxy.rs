//! Authenticated forwarding for terminating QUIC proxies.
//!
//! A proxy presents a certificate made with its pinned key, which holds the
//! original address and the complete client certificate. It must
//! authenticate the client's TLS key possession first. The backend trusts
//! that assertion, while account plugins still verify the original account
//! certificate's signature.
use crate::certificate::{
    certificate_der, certificate_with, extension_list, forwarding_oid, made_with, oid_text,
    values_of, x509_fields, Certificate, CertificateFields, Extension, SigningKey,
};
use crate::hash::{decode_hash, hex_bytes, is_hash};
use crate::text::{
    chars_of, decimal, equal, lines, lines_of, same_bytes, string_of, texts, trim, trimmed,
};
use vstd::prelude::*;
use x509_cert::der::{Decode, Encode};

verus! {

/// The most bytes of a forwarded identity.
pub const MAX_FORWARDING_SIZE: usize = 0x8000;

/// The room that the DER form of an identity takes in addition.
pub const DER_OVERHEAD: usize = 8;

/// The version of the forwarding format.
pub const FORWARDING_VERSION: u8 = 1;

/// An IP address with a port.
#[derive(Clone, Copy, Debug, PartialEq, Eq)]
pub enum Endpoint {
    V4 { ip: [u8; 4], port: u16 },
    V6 { ip: [u8; 16], port: u16 },
}

/// The `n` lowest bytes of a number, the lowest first.
pub open spec fn little_endian(v: nat, n: nat) -> Seq<u8> {
    Seq::new(n, |i: int| ((v as int / vstd::arithmetic::power::pow(256, i as nat)) % 256) as u8)
}

/// A number in bincode's variable form.
pub open spec fn varint(v: nat) -> Seq<u8> {
    if v <= 250 {
        seq![v as u8]
    } else if v <= 0xffff {
        seq![251u8] + little_endian(v, 2)
    } else if v <= 0xffff_ffff {
        seq![252u8] + little_endian(v, 4)
    } else {
        seq![253u8] + little_endian(v, 8)
    }
}

/// An address in its bincode form.
pub open spec fn endpoint_bytes(addr: Endpoint) -> Seq<u8> {
    match addr {
        Endpoint::V4 { ip, port } => seq![0u8] + ip@ + varint(port as nat),
        Endpoint::V6 { ip, port } => seq![1u8] + ip@ + varint(port as nat),
    }
}

/// A forwarded identity in its bincode form.
pub open spec fn payload_bytes(version: u8, addr: Endpoint, cert: Seq<u8>) -> Seq<u8> {
    seq![version] + endpoint_bytes(addr) + varint(cert.len()) + cert
}

/// The bytes that reading an identity counts against its limit. Numbers count
/// with their full size.
pub open spec fn claimed(addr: Endpoint, cert_len: nat) -> nat {
    match addr {
        Endpoint::V4 { .. } => 1 + 4 + 4 + 2 + 8 + cert_len,
        Endpoint::V6 { .. } => 1 + 4 + 16 + 2 + 8 + cert_len,
    }
}

/// The two families of addresses as the two sides of a result: bincode
/// writes and reads them as it does `SocketAddr`.
pub open spec fn endpoint_of(addr: Result<([u8; 4], u16), ([u8; 16], u16)>) -> Endpoint {
    match addr {
        Ok((ip, port)) => Endpoint::V4 { ip, port },
        Err((ip, port)) => Endpoint::V6 { ip, port },
    }
}

/// What bincode reads out of a byte string when at most `limit` bytes may be
/// claimed: an identity, and the number of bytes that it took.
pub uninterp spec fn decoded_payload(bytes: Seq<u8>, limit: nat) -> Option<
    (u8, Endpoint, Seq<u8>, nat),
>;

/// `bincode::serde::encode_to_vec` writes the fields one after the other:
/// bytes as they are, the family as the number of its variant, and other
/// numbers in the variable form. Writing to memory does not fail.
#[verifier::external_body]
fn encode_payload(
    version: u8,
    addr: Result<([u8; 4], u16), ([u8; 16], u16)>,
    cert: &Vec<u8>,
) -> (r: Option<Vec<u8>>)
    ensures
        r is Some,
        r->0@ == payload_bytes(version, endpoint_of(addr), cert@),
{
    bincode::serde::encode_to_vec((version, addr, cert), bincode::config::standard()).ok()
}

/// An identity that was read, and the number of bytes that it took.
#[derive(Debug)]
pub struct Decoded {
    pub version: u8,
    pub addr: Result<([u8; 4], u16), ([u8; 16], u16)>,
    pub cert: Vec<u8>,
    pub consumed: usize,
}

/// What was read, as contracts speak of it.
pub open spec fn decoded_view(decoded: Option<Decoded>) -> Option<(u8, Endpoint, Seq<u8>, nat)> {
    match decoded {
        Some(d) => Some((d.version, endpoint_of(d.addr), d.cert@, d.consumed as nat)),
        None => None,
    }
}

/// `bincode::serde::decode_from_slice` with a limit reads an identity. That
/// depends on the bytes and the limit alone; what was written is read back if
/// the limit allows for it.
#[verifier::external_body]
fn decode_payload<const LIMIT: usize>(bytes: &[u8]) -> (r: Option<Decoded>)
    ensures
        match decoded_payload(bytes@, LIMIT as nat) {
            Some((version, addr, cert, n)) => r matches Some(d) && d.version == version
                && endpoint_of(d.addr) == addr && d.cert@ == cert && d.consumed == n,
            None => r is None,
        },
        forall|version: u8, addr: Endpoint, cert: Seq<u8>|
            bytes@ == #[trigger] payload_bytes(version, addr, cert) && claimed(addr, cert.len())
                <= LIMIT ==> r is Some && r->0.version == version && endpoint_of(r->0.addr) == addr
                && r->0.cert@ == cert && r->0.consumed == bytes@.len(),
{
    let config = bincode::config::standard().with_limit::<LIMIT>();
    let ((version, addr, cert), consumed) = bincode::serde::decode_from_slice(
        bytes,
        config,
    ).ok()?;
    Some(Decoded { version, addr, cert, consumed })
}

/// A length in its DER form.
pub open spec fn der_length(n: nat) -> Seq<u8> {
    if n < 0x80 {
        seq![n as u8]
    } else if n <= 0xff {
        seq![0x81u8, n as u8]
    } else {
        seq![0x82u8, (n / 256) as u8, (n % 256) as u8]
    }
}

/// A DER OCTET STRING of at most 65,535 bytes.
pub open spec fn der_octets(content: Seq<u8>) -> Seq<u8> {
    seq![4u8] + der_length(content.len()) + content
}

/// The longest content whose DER form is spoken of.
pub const MAX_OCTETS: usize = 0xffff;

/// The content of a DER OCTET STRING.
pub open spec fn der_content(bytes: Seq<u8>) -> Option<Seq<u8>> {
    if exists|content: Seq<u8>|
        content.len() <= MAX_OCTETS && bytes == #[trigger] der_octets(content) {
        Some(
            choose|content: Seq<u8>|
                content.len() <= MAX_OCTETS && bytes == #[trigger] der_octets(content),
        )
    } else {
        None
    }
}

/// `OctetString::to_der` writes the tag, the length in as few bytes as
/// possible, and the content. Nothing is claimed of longer contents.
#[verifier::external_body]
fn encode_octets(content: &Vec<u8>) -> (r: Option<Vec<u8>>)
    ensures
        content@.len() <= MAX_OCTETS ==> r is Some && r->0@ == der_octets(content@),
{
    x509_cert::der::asn1::OctetString::new(content.as_slice()).ok()?.to_der().ok()
}

/// `OctetString::from_der` reads the content back, and takes nothing but its
/// DER form. Nothing is claimed of longer strings.
#[verifier::external_body]
fn decode_octets(bytes: &[u8]) -> (r: Option<Vec<u8>>)
    ensures
        bytes@.len() <= MAX_OCTETS ==> match r {
            Some(content) => bytes@ == der_octets(content@),
            None => forall|content: Seq<u8>|
                content.len() <= MAX_OCTETS ==> bytes@ != #[trigger] der_octets(content),
        },
{
    Some(x509_cert::der::asn1::OctetString::from_der(bytes).ok()?.into_bytes())
}

/// An octet string has one content.
pub(crate) proof fn lemma_der_octets_injective(a: Seq<u8>, b: Seq<u8>)
    requires
        a.len() <= MAX_OCTETS,
        b.len() <= MAX_OCTETS,
        der_octets(a) == der_octets(b),
    ensures
        a == b,
{
    let x = der_octets(a);
    let y = der_octets(b);
    assert(x[1] == y[1]);
    assert(x[1] == der_length(a.len())[0] && y[1] == der_length(b.len())[0]);
    if a.len() >= 0x80 {
        assert(x[2] == y[2]);
        assert(x[2] == der_length(a.len())[1] && y[2] == der_length(b.len())[1]);
        if a.len() > 0xff {
            assert(x[3] == y[3]);
            assert(x[3] == der_length(a.len())[2] && y[3] == der_length(b.len())[2]);
        }
    }
    assert(a.len() == b.len());
    let n = 1 + der_length(a.len()).len() as int;
    assert(a =~= x.skip(n));
    assert(b =~= y.skip(n));
}

/// Why an identity is not forwarded.
#[derive(Clone, Copy, Debug, PartialEq, Eq, Structural)]
pub enum ProxyError {
    /// The line of a trust list is no fingerprint.
    InvalidHash { line: u64 },
    /// The identity takes too many bytes.
    TooLarge,
    /// The certificate could not be made.
    Signing,
    /// The certificate, or what it forwards, cannot be read.
    Encoding,
    /// A peer that is not trusted forwards an identity.
    Untrusted,
    /// A trusted proxy forwards no identity.
    Omitted,
    /// More than one identity is forwarded.
    Duplicate,
    /// The forwarding format has another version.
    Version,
    /// Bytes follow the identity.
    TrailingData,
}

/// SHA-256 fingerprints of proxy public keys, not of whole certificates.
#[derive(Clone, Debug)]
pub struct TrustedProxies {
    pub public_key_hashes: Vec<[u8; 32]>,
}

/// An identity that a proxy vouches for.
#[derive(Clone, Debug)]
pub struct ForwardedIdentity {
    pub addr: Endpoint,
    pub cert: Certificate,
}

/// Fingerprints as contracts speak of them.
pub open spec fn hash_list(list: Seq<[u8; 32]>) -> Seq<Seq<u8>> {
    list.map_values(|hash: [u8; 32]| hash@)
}

impl TrustedProxies {
    /// The trusted fingerprints.
    pub open spec fn hashes(self) -> Seq<Seq<u8>> {
        hash_list(self.public_key_hashes@)
    }

    /// No fingerprint is listed twice.
    pub open spec fn valid(self) -> bool {
        self.hashes().no_duplicates()
    }
}

/// The line says nothing: it is empty or a comment.
pub open spec fn is_blank(line: Seq<char>) -> bool {
    line.len() == 0 || line[0] == '#'
}

/// The fingerprints of a trust list without duplicates, or the number of the
/// first line that is none.
pub open spec fn read_hashes(lines: Seq<Seq<char>>) -> Result<Seq<Seq<u8>>, nat>
    decreases lines.len(),
{
    if lines.len() == 0 {
        Ok(seq![])
    } else {
        match read_hashes(lines.drop_last()) {
            Err(line) => Err(line),
            Ok(list) => {
                let line = trimmed(lines.last());
                if is_blank(line) {
                    Ok(list)
                } else if is_hash(line) {
                    if list.contains(hex_bytes(line)) {
                        Ok(list)
                    } else {
                        Ok(list.push(hex_bytes(line)))
                    }
                } else {
                    Err(lines.len())
                }
            },
        }
    }
}

/// However often a trust list names a fingerprint, it is listed once.
pub proof fn listed_hashes_are_distinct(lines: Seq<Seq<char>>)
    ensures
        read_hashes(lines) matches Ok(list) ==> list.no_duplicates(),
    decreases lines.len(),
{
    if lines.len() > 0 {
        listed_hashes_are_distinct(lines.drop_last());
    }
}

/// Creates the proxy's client certificate for one forwarded connection. The
/// original certificate is preserved byte for byte, account signatures
/// included.
pub fn create_proxy_certificate(
    proxy_key: &SigningKey,
    original_addr: Endpoint,
    original_cert: &Certificate,
) -> (r: Result<Certificate, ProxyError>)
    ensures
        ({
            let payload = payload_bytes(FORWARDING_VERSION, original_addr, original_cert.der@);
            if payload.len() > MAX_FORWARDING_SIZE {
                r == Err::<Certificate, ProxyError>(ProxyError::TooLarge)
            } else {
                match certificate_der(proxy_key.bytes@, Some(der_octets(payload))) {
                    Some(der) => r matches Ok(cert) && cert.der@ == der && made_with(
                        cert,
                        *proxy_key,
                        seq![der_octets(payload)],
                    ),
                    None => r == Err::<Certificate, ProxyError>(ProxyError::Signing),
                }
            }
        }),
{
    let addr = match original_addr {
        Endpoint::V4 { ip, port } => Ok((ip, port)),
        Endpoint::V6 { ip, port } => Err((ip, port)),
    };
    let payload = match encode_payload(FORWARDING_VERSION, addr, &original_cert.der) {
        Some(payload) => payload,
        None => {
            return Err(ProxyError::Encoding);
        },
    };
    if payload.len() > MAX_FORWARDING_SIZE {
        return Err(ProxyError::TooLarge);
    }
    let content = match encode_octets(&payload) {
        Some(content) => content,
        None => {
            return Err(ProxyError::Encoding);
        },
    };
    match certificate_with(proxy_key, Some(content)) {
        Some(cert) => Ok(cert),
        None => Err(ProxyError::Signing),
    }
}

/// What a payload says: the address and the original certificate.
pub open spec fn read_payload(payload: Seq<u8>) -> Result<(Endpoint, Seq<u8>), ProxyError> {
    forwarded(decoded_payload(payload, MAX_FORWARDING_SIZE as nat), payload.len())
}

/// What a payload of the given length says, of which this was read.
pub open spec fn forwarded(decoded: Option<(u8, Endpoint, Seq<u8>, nat)>, len: nat) -> Result<
    (Endpoint, Seq<u8>),
    ProxyError,
> {
    match decoded {
        None => Err(ProxyError::Encoding),
        Some((version, addr, cert, n)) => if version != FORWARDING_VERSION {
            Err(ProxyError::Version)
        } else if n != len {
            Err(ProxyError::TrailingData)
        } else if x509_fields(cert) is None {
            Err(ProxyError::Encoding)
        } else {
            Ok((addr, cert))
        },
    }
}

/// What a peer is: a proxy that forwards an identity, or a client of its own.
pub open spec fn resolved(hashes: Seq<Seq<u8>>, peer: CertificateFields) -> Result<
    Option<(Endpoint, Seq<u8>)>,
    ProxyError,
> {
    let values = values_of(peer.extensions, oid_text(forwarding_oid()));
    match peer.fingerprint {
        None => Err(ProxyError::Encoding),
        Some(fingerprint) => if !hashes.contains(fingerprint) {
            if values.len() > 0 {
                Err(ProxyError::Untrusted)
            } else {
                Ok(None)
            }
        } else if values.len() == 0 {
            Err(ProxyError::Omitted)
        } else if values.len() > 1 {
            Err(ProxyError::Duplicate)
        } else if values[0].len() > MAX_FORWARDING_SIZE + DER_OVERHEAD {
            Err(ProxyError::TooLarge)
        } else {
            match der_content(values[0]) {
                None => Err(ProxyError::Encoding),
                Some(payload) => match read_payload(payload) {
                    Ok(identity) => Ok(Some(identity)),
                    Err(error) => Err(error),
                },
            }
        },
    }
}

/// The text form of the forwarding identifier.
pub(crate) proof fn lemma_forwarding_oid()
    ensures
        oid_text(forwarding_oid()) == "2.25.247823191"@,
{
    reveal_strlit("2.25.247823191");
    let oid = forwarding_oid();
    reveal_with_fuel(decimal, 10);
    reveal_with_fuel(oid_text, 4);
    assert(oid.drop_last() =~= seq![2u64, 25u64]);
    assert(oid.drop_last().drop_last() =~= seq![2u64]);
    assert(oid_text(oid) =~= "2.25.247823191"@);
}

fn forwarding_values<'a>(extensions: &'a Vec<Extension>) -> (r: Vec<&'a Vec<u8>>)
    ensures
        r@.map_values(|v: &Vec<u8>| v@) == values_of(
            extension_list(extensions@),
            oid_text(forwarding_oid()),
        ),
{
    let ghost oid = oid_text(forwarding_oid());
    let ghost list = extension_list(extensions@);
    let mut found: Vec<&'a Vec<u8>> = Vec::new();
    let mut i: usize = 0;
    assert(found@.map_values(|v: &Vec<u8>| v@) =~= values_of(list.take(0), oid));
    while i < extensions.len()
        invariant
            i <= extensions.len(),
            list == extension_list(extensions@),
            oid == oid_text(forwarding_oid()),
            found@.map_values(|v: &Vec<u8>| v@) == values_of(list.take(i as int), oid),
        decreases extensions.len() - i,
    {
        proof {
            lemma_forwarding_oid();
            assert(list.take(i + 1).drop_last() =~= list.take(i as int));
        }
        let ghost before = found@;
        if equal(extensions[i].oid.as_str(), "2.25.247823191") {
            found.push(&extensions[i].value);
            assert(found@.map_values(|v: &Vec<u8>| v@) =~= before.map_values(
                |v: &Vec<u8>| v@,
            ).push(extensions@[i as int].value@));
        }
        i += 1;
    }
    assert(list.take(i as int) =~= list);
    found
}

fn read_identity(payload: &Vec<u8>) -> (r: Result<ForwardedIdentity, ProxyError>)
    ensures
        match read_payload(payload@) {
            Ok((addr, cert)) => r matches Ok(id) && id.addr == addr && id.cert.der@ == cert
                && id.cert.valid(),
            Err(error) => r == Err::<ForwardedIdentity, ProxyError>(error),
        },
        forall|addr: Endpoint, cert: Seq<u8>|
            payload@ == #[trigger] payload_bytes(FORWARDING_VERSION, addr, cert) && claimed(
                addr,
                cert.len(),
            ) <= MAX_FORWARDING_SIZE && x509_fields(cert) is Some ==> (r matches Ok(id) && id.addr
                == addr && id.cert.der@ == cert),
{
    let decoded = decode_payload::<MAX_FORWARDING_SIZE>(payload.as_slice());
    forwarded_identity(decoded, payload.len())
}

/// The identity that a payload of the given length forwards, of which this
/// was read.
pub fn forwarded_identity(decoded: Option<Decoded>, len: usize) -> (r: Result<
    ForwardedIdentity,
    ProxyError,
>)
    ensures
        match forwarded(decoded_view(decoded), len as nat) {
            Ok((addr, cert)) => r matches Ok(id) && id.addr == addr && id.cert.der@ == cert
                && id.cert.valid(),
            Err(error) => r == Err::<ForwardedIdentity, ProxyError>(error),
        },
{
    match decoded {
        None => Err(ProxyError::Encoding),
        Some(decoded) => {
            if decoded.version != FORWARDING_VERSION {
                return Err(ProxyError::Version);
            }
            if decoded.consumed != len {
                return Err(ProxyError::TrailingData);
            }
            let addr = match decoded.addr {
                Ok((ip, port)) => Endpoint::V4 { ip, port },
                Err((ip, port)) => Endpoint::V6 { ip, port },
            };
            match Certificate::from_der(decoded.cert.as_slice()) {
                Some(cert) => Ok(ForwardedIdentity { addr, cert }),
                None => Err(ProxyError::Encoding),
            }
        },
    }
}

/// The fingerprint is in the list.
pub(crate) fn holds_hash(list: &Vec<[u8; 32]>, hash: &[u8; 32]) -> (r: bool)
    ensures
        r == hash_list(list@).contains(hash@),
{
    let mut i: usize = 0;
    while i < list.len()
        invariant
            i <= list.len(),
            forall|j: int| 0 <= j < i ==> #[trigger] hash_list(list@)[j] != hash@,
        decreases list.len() - i,
    {
        if same_bytes(list[i].as_slice(), hash.as_slice()) {
            assert(hash_list(list@)[i as int] == hash@);
            return true;
        }
        i += 1;
    }
    false
}

impl TrustedProxies {
    /// Nobody is trusted.
    pub fn new() -> (r: Self)
        ensures
            r.hashes() == Seq::<Seq<u8>>::empty(),
            r.valid(),
    {
        let r = TrustedProxies { public_key_hashes: Vec::new() };
        assert(r.hashes() =~= Seq::<Seq<u8>>::empty());
        r
    }

    /// Tells whether a fingerprint is trusted.
    pub fn contains(&self, hash: &[u8; 32]) -> (r: bool)
        ensures
            r == self.hashes().contains(hash@),
    {
        holds_hash(&self.public_key_hashes, hash)
    }

    /// Reads one SHA-256 fingerprint of a public key (64 hexadecimal digits)
    /// per line. Empty lines and lines that begin with `#` are ignored;
    /// duplicates are collapsed.
    pub fn from_hash_list(contents: &str) -> (r: Result<Self, ProxyError>)
        ensures
            match read_hashes(lines_of(contents@)) {
                Ok(list) => r matches Ok(proxies) && proxies.hashes() == list,
                Err(line) => r matches Err(ProxyError::InvalidHash { line: at }) && at == line,
            },
            r matches Ok(proxies) ==> proxies.valid(),
    {
        let text = chars_of(contents);
        let list = lines(&text);
        let ghost all = texts(list@);
        let mut proxies = TrustedProxies::new();
        let mut i: usize = 0;
        assert(all.take(0) =~= seq![]);
        while i < list.len()
            invariant
                i <= list.len(),
                all == texts(list@),
                all == lines_of(contents@),
                read_hashes(all.take(i as int)) == Ok::<Seq<Seq<u8>>, nat>(proxies.hashes()),
            decreases list.len() - i,
        {
            proof {
                assert(all.take(i + 1).drop_last() =~= all.take(i as int));
                assert(all.take(i + 1).last() == list@[i as int]@);
            }
            let line = trim(&list[i]);
            if line.len() > 0 && line[0] != '#' {
                match decode_hash(string_of(&line).as_str()) {
                    Some(hash) => {
                        if !proxies.contains(&hash) {
                            let ghost before = proxies.hashes();
                            proxies.public_key_hashes.push(hash);
                            assert(proxies.hashes() =~= before.push(hash@));
                        }
                    },
                    None => {
                        proof {
                            lemma_first_bad_line(all, i as int);
                        }
                        return Err(ProxyError::InvalidHash { line: i as u64 + 1 });
                    },
                }
            }
            i += 1;
        }
        assert(all.take(i as int) =~= all);
        proof {
            listed_hashes_are_distinct(all);
        }
        Ok(proxies)
    }

    /// Tells who a peer is. To be called only after TLS has authenticated
    /// that the peer possesses its private key.
    pub fn resolve(&self, peer: &Certificate) -> (r: Result<Option<ForwardedIdentity>, ProxyError>)
        ensures
            match resolved(self.hashes(), peer.fields()) {
                Ok(None) => r matches Ok(None),
                Ok(Some((addr, cert))) => r matches Ok(Some(id)) && id.addr == addr
                    && id.cert.der@ == cert && id.cert.valid(),
                Err(error) => r == Err::<Option<ForwardedIdentity>, ProxyError>(error),
            },
            // What a trusted proxy forwards comes out as it went in.
            forall|key: SigningKey, addr: Endpoint, cert: Seq<u8>|
                #[trigger] made_with(
                    *peer,
                    key,
                    seq![der_octets(payload_bytes(FORWARDING_VERSION, addr, cert))],
                ) && self.hashes().contains(peer.fields().fingerprint->0) && claimed(
                    addr,
                    cert.len(),
                ) <= MAX_FORWARDING_SIZE && x509_fields(cert) is Some ==> (r matches Ok(Some(id))
                    && id.addr == addr && id.cert.der@ == cert),
    {
        let values = forwarding_values(&peer.extensions);
        let ghost held = values@.map_values(|v: &Vec<u8>| v@);
        let fingerprint = match peer.fingerprint {
            Some(fingerprint) => fingerprint,
            None => {
                return Err(ProxyError::Encoding);
            },
        };
        if !self.contains(&fingerprint) {
            if values.len() > 0 {
                return Err(ProxyError::Untrusted);
            }
            return Ok(None);
        }
        if values.len() == 0 {
            return Err(ProxyError::Omitted);
        }
        if values.len() > 1 {
            return Err(ProxyError::Duplicate);
        }
        assert(held[0] == values@[0]@);
        proof {
            assert forall|addr: Endpoint, cert: Seq<u8>|
                claimed(addr, cert.len()) <= MAX_FORWARDING_SIZE implies (
            #[trigger] payload_bytes(FORWARDING_VERSION, addr, cert)).len() <= MAX_FORWARDING_SIZE by {
            }
        }
        if values[0].len() > MAX_FORWARDING_SIZE + DER_OVERHEAD {
            return Err(ProxyError::TooLarge);
        }
        match decode_octets(values[0].as_slice()) {
            None => Err(ProxyError::Encoding),
            Some(payload) => {
                proof {
                    assert(payload@.len() <= values@[0]@.len());
                    let content = der_content(values@[0]@)->0;
                    lemma_der_octets_injective(payload@, content);
                    assert forall|addr: Endpoint, cert: Seq<u8>|
                        claimed(addr, cert.len()) <= MAX_FORWARDING_SIZE && values@[0]@
                            == der_octets(
                            #[trigger] payload_bytes(FORWARDING_VERSION, addr, cert),
                        ) implies payload@ == payload_bytes(FORWARDING_VERSION, addr, cert) by {
                        lemma_der_octets_injective(
                            payload@,
                            payload_bytes(FORWARDING_VERSION, addr, cert),
                        );
                    }
                }
                match read_identity(&payload) {
                    Ok(identity) => Ok(Some(identity)),
                    Err(error) => Err(error),
                }
            },
        }
    }
}

/// An unreadable line decides about the whole list.
proof fn lemma_first_bad_line(lines: Seq<Seq<char>>, i: int)
    requires
        0 <= i < lines.len(),
        read_hashes(lines.take(i)) is Ok,
        !is_blank(trimmed(lines[i])),
        !is_hash(trimmed(lines[i])),
    ensures
        read_hashes(lines) == Err::<Seq<Seq<u8>>, nat>((i + 1) as nat),
    decreases lines.len(),
{
    if i == lines.len() - 1 {
        assert(lines.take(i) =~= lines.drop_last());
    } else {
        let head = lines.drop_last();
        assert(head.take(i) =~= lines.take(i));
        assert(head[i] == lines[i]);
        lemma_first_bad_line(head, i);
    }
}

} // verus!
