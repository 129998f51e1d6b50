//! How keys, identities and trust pass from one operation to the next.
use crate::certificate::{
    certificate_for_key, certified_keys_from_pem, create_certifified_keys, ed25519_public,
    forwarding_oid, made_with, oid_text, secret_of_pem, values_of, x509_fields, Certificate,
    CertificateError, SigningKey,
};
use crate::config::{
    created_config_has_its_identity, default_backend_s2s, import_hash, imported_hash_is_trusted,
    keep_config, list_text, new_hash_list, trust_list_after_init, Config, ConfigError, SocketV4,
    SocketV6,
};
use crate::hash::{decode_hash, hex_bytes, is_hash, parse_hash};
use crate::proxy::{
    create_proxy_certificate, decoded_payload, decoded_view, der_content, der_octets,
    forwarded_identity, lemma_der_octets_injective, lemma_forwarding_oid, payload_bytes,
    read_hashes, Decoded, Endpoint, ForwardedIdentity, ProxyError, TrustedProxies,
    FORWARDING_VERSION,
};
use crate::relay::{
    admission, backend_game, backend_options, bind_endpoint, client_certificate, copy_stream,
    datagram_goes_on, end_relay, propagate_close, takes_stream, Admission, BackendError,
    BackendOptions, Close, CloseReason, DatagramOutcome, RelayEnd, StreamAction, StreamEvent,
    StreamState,
};
use crate::text::{lines_of, trimmed};
use vstd::prelude::*;
use vstd::utf8::{encode_utf8, valid_utf8};

verus! {

/// The certificate forwards an identity: it has an extension for that.
pub open spec fn forwards_at(cert: Certificate, i: int) -> bool {
    0 <= i < cert.extensions@.len() && cert.extensions@[i].oid@ == "2.25.247823191"@
}

proof fn lemma_values(list: Seq<(Seq<char>, Seq<u8>)>, oid: Seq<char>)
    ensures
        ({
            let values = values_of(list, oid);
            &&& values.len() > 0 ==> exists|i: int|
                0 <= i < list.len() && (#[trigger] list[i]).0 == oid
            &&& forall|i: int|
                0 <= i < list.len() && (#[trigger] list[i]).0 == oid ==> values.contains(list[i].1)
            &&& forall|i: int, j: int|
                0 <= i < j < list.len() && (#[trigger] list[i]).0 == oid && (
                #[trigger] list[j]).0 == oid ==> values.len() >= 2
            &&& values.len() >= 2 ==> exists|i: int, j: int|
                0 <= i < j < list.len() && (#[trigger] list[i]).0 == oid && (
                #[trigger] list[j]).0 == oid
        }),
    decreases list.len(),
{
    if list.len() > 0 {
        let head = list.drop_last();
        lemma_values(head, oid);
        let before = values_of(head, oid);
        let values = values_of(list, oid);
        let n = list.len() - 1;
        if before.len() > 0 {
            let i = choose|i: int| 0 <= i < head.len() && (#[trigger] head[i]).0 == oid;
            assert(list[i].0 == oid);
            if list[n].0 == oid {
                assert(i < n && list[i].0 == oid && list[n].0 == oid);
            }
        }
        if before.len() >= 2 {
            let (i, j) = choose|i: int, j: int|
                0 <= i < j < head.len() && (#[trigger] head[i]).0 == oid && (
                #[trigger] head[j]).0 == oid;
            assert(list[i].0 == oid && list[j].0 == oid);
        }
        assert forall|i: int|
            0 <= i < list.len() && (#[trigger] list[i]).0 == oid implies values.contains(
            list[i].1,
        ) by {
            if i < n {
                assert(head[i].0 == oid);
                let k = choose|k: int| 0 <= k < before.len() && before[k] == list[i].1;
                assert(values[k] == list[i].1);
            } else {
                assert(values[values.len() - 1] == list[i].1);
            }
        }
        assert forall|i: int, j: int|
            0 <= i < j < list.len() && (#[trigger] list[i]).0 == oid && (#[trigger] list[j]).0
                == oid implies values.len() >= 2 by {
            assert(head[i].0 == oid);
            assert(before.contains(head[i].1));
            if j < n {
                assert(head[j].0 == oid);
            }
        }
        if list[n].0 == oid {
            assert(list[n].0 == oid);
        }
    }
}

proof fn lemma_forwarding(cert: Certificate)
    ensures
        ({
            let values = values_of(cert.fields().extensions, oid_text(forwarding_oid()));
            &&& (values.len() == 0 <==> forall|i: int| !forwards_at(cert, i))
            &&& (values.len() >= 2 <==> exists|i: int, j: int|
                i < j && forwards_at(cert, i) && forwards_at(cert, j))
            &&& forall|i: int| #[trigger]
                forwards_at(cert, i) ==> values.contains(cert.extensions@[i].value@)
        }),
{
    lemma_forwarding_oid();
    let list = cert.fields().extensions;
    let oid = oid_text(forwarding_oid());
    lemma_values(list, oid);
    let values = values_of(list, oid);
    assert forall|i: int| #[trigger]
        forwards_at(cert, i) implies values.contains(cert.extensions@[i].value@) by {
        assert(list[i].0 == oid);
    }
    if values.len() > 0 {
        let i = choose|i: int| 0 <= i < list.len() && (#[trigger] list[i]).0 == oid;
        assert(forwards_at(cert, i));
    }
    if values.len() >= 2 {
        let (i, j) = choose|i: int, j: int|
            0 <= i < j < list.len() && (#[trigger] list[i]).0 == oid && (#[trigger] list[j]).0
                == oid;
        assert(forwards_at(cert, i) && forwards_at(cert, j));
    }
    if exists|i: int, j: int| i < j && forwards_at(cert, i) && forwards_at(cert, j) {
        let (i, j) = choose|i: int, j: int| i < j && forwards_at(cert, i) && forwards_at(cert, j);
        assert(list[i].0 == oid && list[j].0 == oid);
    }
    assert forall|i: int| values.len() == 0 implies !forwards_at(cert, i) by {
        if forwards_at(cert, i) {
            assert(values.contains(cert.extensions@[i].value@));
        }
    }
}

/// The bytes of a key are kept, and its PKCS#8 form holds them with the
/// public key.
pub proof fn keys_keep_their_bytes(
    bytes: &[u8; 32],
    key: SigningKey,
    public: [u8; 32],
    der: Option<Vec<u8>>,
)
    requires
        call_ensures(SigningKey::from_bytes, (bytes,), key),
        call_ensures(SigningKey::verifying_key, (&key,), public),
        call_ensures(SigningKey::to_der, (&key,), der),
        ed25519_public(key.bytes@).len() == 32,
    ensures
        key.bytes@ == bytes@,
        der is Some,
        der->0@.len() == 83,
        der->0@.subrange(16, 48) == bytes@,
        der->0@.subrange(51, 83) == public@,
{
    assert(der->0@.subrange(16, 48) =~= bytes@);
    assert(der->0@.subrange(51, 83) =~= public@);
}

/// The certificate of a key holds the public key, forwards nothing, and can
/// be read back from its DER form.
pub proof fn certificates_hold_their_key(
    key: &SigningKey,
    cert: Option<Certificate>,
    public: [u8; 32],
    der: &[u8],
    back: Option<Certificate>,
    i: int,
)
    requires
        call_ensures(certificate_for_key, (key,), cert),
        call_ensures(SigningKey::verifying_key, (key,), public),
        call_ensures(Certificate::from_der, (der,), back),
        cert matches Some(c) ==> der@ == c.der@,
    ensures
        cert matches Some(c) ==> {
            &&& c.public_key matches Some(held)
            &&& held@ == public@
            &&& c.fingerprint is Some
            &&& !forwards_at(c, i)
            &&& back matches Some(b)
            &&& b.der@ == c.der@
            &&& b.public_key matches Some(same)
            &&& same@ == held@
            &&& b.fingerprint matches Some(print)
            &&& print@ == c.fingerprint->0@
        },
{
    if let Some(c) = cert {
        lemma_forwarding(c);
        assert(back->0.fields() == c.fields());
    }
}

/// What is read as a certificate keeps its DER form.
pub proof fn certificates_keep_their_form(der: &[u8], r: Option<Certificate>)
    requires
        call_ensures(Certificate::from_der, (der,), r),
    ensures
        r is Some <==> x509_fields(der@) is Some,
        r matches Some(c) ==> c.der@ == der@ && c.valid(),
{
}

/// A key that was written as text is restored, with the certificate that is
/// made for it. A text that holds no key is an error of its own.
pub proof fn written_keys_are_restored(
    key: &SigningKey,
    pem: Option<String>,
    text: &str,
    cert: Option<Certificate>,
    r: Result<(Certificate, SigningKey), CertificateError>,
)
    requires
        call_ensures(SigningKey::to_pem, (key,), pem),
        call_ensures(certificate_for_key, (key,), cert),
        call_ensures(certified_keys_from_pem, (text,), r),
        pem matches Some(p) ==> text@ == p@,
    ensures
        pem is Some,
        r is Ok <==> cert is Some,
        r matches Ok((c, k)) ==> k.bytes@ == key.bytes@ && cert is Some && c.der@ == cert->0.der@,
        r matches Err(e) ==> e == CertificateError::Signing,
{
}

/// A text is refused for its key exactly if it holds none.
pub proof fn texts_without_a_key_are_refused(
    text: &str,
    r: Result<(Certificate, SigningKey), CertificateError>,
)
    requires
        call_ensures(certified_keys_from_pem, (text,), r),
    ensures
        secret_of_pem(text@) is None <==> r == Err::<(Certificate, SigningKey), CertificateError>(
            CertificateError::InvalidKey,
        ),
        r matches Ok((c, k)) ==> secret_of_pem(text@) == Some(k.bytes@),
{
}

/// A new key comes with the certificate that is made for it.
pub proof fn new_keys_come_with_their_certificate(
    r: Option<(Certificate, SigningKey)>,
    cert: Option<Certificate>,
)
    requires
        call_ensures(create_certifified_keys, (), r),
        r matches Some((_, key)) ==> call_ensures(certificate_for_key, (&key,), cert),
    ensures
        r matches Some((c, key)) ==> cert is Some && c.der@ == cert->0.der@,
{
}

/// The bytes of a forwarded identity: the version, the family, the address,
/// the port and the length in as few bytes as they take, and the certificate.
pub open spec fn identity_size(addr: Endpoint, len: int) -> int {
    let (host, port) = match addr {
        Endpoint::V4 { ip, port } => (4int, port),
        Endpoint::V6 { ip, port } => (16int, port),
    };
    2 + host + (if port <= 250 {
        1int
    } else {
        3
    }) + (if len <= 250 {
        1int
    } else if len <= 0xffff {
        3
    } else if len <= 0xffff_ffff {
        5
    } else {
        9
    }) + len
}

/// An identity is forwarded in one extension of a certificate with the
/// proxy's key, unless it takes more than 32 KiB or no certificate can be
/// made.
pub proof fn proxies_forward_one_identity(
    key: &SigningKey,
    addr: Endpoint,
    cert: &Certificate,
    r: Result<Certificate, ProxyError>,
    public: [u8; 32],
    i: int,
    j: int,
)
    requires
        call_ensures(create_proxy_certificate, (key, addr, cert), r),
        call_ensures(SigningKey::verifying_key, (key,), public),
    ensures
        identity_size(addr, cert.der@.len() as int) > 0x8000 <==> r == Err::<
            Certificate,
            ProxyError,
        >(ProxyError::TooLarge),
        r matches Err(e) ==> e == ProxyError::TooLarge || e == ProxyError::Signing,
        r matches Ok(c) ==> {
            &&& c.public_key matches Some(held)
            &&& held@ == public@
            &&& exists|k: int| forwards_at(c, k)
            &&& !(i < j && forwards_at(c, i) && forwards_at(c, j))
        },
{
    if let Ok(c) = r {
        lemma_forwarding(c);
    }
}

/// What a trusted proxy forwards comes out as it went in: the original
/// address, and the original certificate byte for byte.
pub proof fn forwarded_identity_comes_out_as_it_went_in(
    trusted: &TrustedProxies,
    key: &SigningKey,
    addr: Endpoint,
    cert: &Certificate,
    made: Certificate,
    r: Result<Option<ForwardedIdentity>, ProxyError>,
    k: int,
)
    requires
        call_ensures(create_proxy_certificate, (key, addr, cert), Ok::<Certificate, ProxyError>(
            made,
        )),
        call_ensures(TrustedProxies::resolve, (trusted, &made), r),
        0 <= k < trusted.public_key_hashes@.len(),
        made.fingerprint matches Some(print) ==> trusted.public_key_hashes@[k]@ == print@,
        x509_fields(cert.der@) is Some,
        cert.der@.len() + 31 <= 0x8000,
    ensures
        r matches Ok(Some(id)) && id.addr == addr && id.cert.der@ == cert.der@,
{
    let payload = payload_bytes(FORWARDING_VERSION, addr, cert.der@);
    assert(made_with(made, *key, seq![der_octets(payload)]));
    assert(trusted.hashes()[k] == made.fields().fingerprint->0);
    assert(trusted.hashes().contains(made.fields().fingerprint->0));
}

/// A peer that is not trusted is a client of its own, and must not forward an
/// identity. A trusted one must forward exactly one.
pub proof fn only_trusted_peers_forward(
    trusted: &TrustedProxies,
    peer: &Certificate,
    r: Result<Option<ForwardedIdentity>, ProxyError>,
    known: bool,
    i: int,
    j: int,
)
    requires
        call_ensures(TrustedProxies::resolve, (trusted, peer), r),
        peer.fingerprint matches Some(print) ==> call_ensures(
            TrustedProxies::contains,
            (trusted, &print),
            known,
        ),
    ensures
        peer.fingerprint is None ==> r == Err::<Option<ForwardedIdentity>, ProxyError>(
            ProxyError::Encoding,
        ),
        peer.fingerprint is Some && !known ==> {
            &&& forwards_at(*peer, i) ==> r == Err::<Option<ForwardedIdentity>, ProxyError>(
                ProxyError::Untrusted,
            )
            &&& (forall|k: int| !forwards_at(*peer, k)) ==> (r matches Ok(None))
        },
        peer.fingerprint is Some && known ==> {
            &&& !(r matches Ok(None))
            &&& (forall|k: int| !forwards_at(*peer, k)) ==> r == Err::<
                Option<ForwardedIdentity>,
                ProxyError,
            >(ProxyError::Omitted)
            &&& i < j && forwards_at(*peer, i) && forwards_at(*peer, j) ==> r == Err::<
                Option<ForwardedIdentity>,
                ProxyError,
            >(ProxyError::Duplicate)
            &&& forwards_at(*peer, i) && (forall|k: int|
                k != i ==> !forwards_at(*peer, k)) && peer.extensions@[i].value@.len() > 0x8008
                ==> r == Err::<Option<ForwardedIdentity>, ProxyError>(ProxyError::TooLarge)
        },
{
    lemma_forwarding(*peer);
    let values = values_of(peer.fields().extensions, oid_text(forwarding_oid()));
    if forwards_at(*peer, i) {
        assert(values.contains(peer.extensions@[i].value@));
        let k = choose|k: int| 0 <= k < values.len() && values[k] == peer.extensions@[i].value@;
        if values.len() < 2 {
            assert(k == 0);
        }
    }
}

/// An identity that was read counts if it is of version one, takes all of the
/// payload, and holds a certificate. It is taken as it is.
pub proof fn identities_are_read_whole(
    d: Decoded,
    len: usize,
    r: Result<ForwardedIdentity, ProxyError>,
    none: Result<ForwardedIdentity, ProxyError>,
)
    requires
        call_ensures(forwarded_identity, (Some(d), len), r),
        call_ensures(forwarded_identity, (None::<Decoded>, len), none),
    ensures
        none == Err::<ForwardedIdentity, ProxyError>(ProxyError::Encoding),
        r is Ok <==> d.version == 1 && d.consumed == len && x509_fields(d.cert@) is Some,
        r matches Ok(id) ==> {
            &&& id.cert.der@ == d.cert@
            &&& d.addr matches Ok((ip, port)) ==> id.addr == (Endpoint::V4 { ip, port })
            &&& d.addr matches Err((ip, port)) ==> id.addr == (Endpoint::V6 { ip, port })
        },
        r is Err && d.version != 1 ==> r == Err::<ForwardedIdentity, ProxyError>(
            ProxyError::Version,
        ),
        d.version == 1 && d.consumed != len ==> r == Err::<ForwardedIdentity, ProxyError>(
            ProxyError::TrailingData,
        ),
        d.version == 1 && d.consumed == len && r is Err ==> r == Err::<
            ForwardedIdentity,
            ProxyError,
        >(ProxyError::Encoding),
{
}

/// A fingerprint is trusted exactly if it is listed. At first nobody is.
pub proof fn listed_fingerprints_are_trusted(
    trusted: &TrustedProxies,
    hash: &[u8; 32],
    r: bool,
    fresh: TrustedProxies,
)
    requires
        call_ensures(TrustedProxies::contains, (trusted, hash), r),
        call_ensures(TrustedProxies::new, (), fresh),
    ensures
        r <==> exists|k: int|
            0 <= k < trusted.public_key_hashes@.len() && (
            #[trigger] trusted.public_key_hashes@[k])@ == hash@,
        fresh.public_key_hashes@.len() == 0,
{
    let list = trusted.hashes();
    if r {
        let k = choose|k: int| 0 <= k < list.len() && list[k] == hash@;
        assert(trusted.public_key_hashes@[k]@ == hash@);
    }
    if exists|k: int|
        0 <= k < trusted.public_key_hashes@.len() && (#[trigger] trusted.public_key_hashes@[k])@
            == hash@ {
        let k = choose|k: int|
            0 <= k < trusted.public_key_hashes@.len() && (
            #[trigger] trusted.public_key_hashes@[k])@ == hash@;
        assert(list[k] == hash@);
    }
    assert(fresh.hashes().len() == 0);
}

/// The line names something: it is neither empty nor a comment.
pub open spec fn says_something(line: Seq<char>) -> bool {
    trimmed(line).len() > 0 && trimmed(line)[0] != '#'
}

proof fn lemma_next_hash(lines: Seq<Seq<char>>, list: Seq<Seq<u8>>)
    requires
        lines.len() > 0,
        read_hashes(lines.drop_last()) == Ok::<Seq<Seq<u8>>, nat>(list),
    ensures
        ({
            let last = lines.last();
            let hash = hex_bytes(trimmed(last));
            let r = read_hashes(lines);
            &&& !says_something(last) ==> r == Ok::<Seq<Seq<u8>>, nat>(list)
            &&& says_something(last) && !is_hash(trimmed(last)) ==> r == Err::<Seq<Seq<u8>>, nat>(
                lines.len(),
            )
            &&& says_something(last) && is_hash(trimmed(last)) && list.contains(hash) ==> r == Ok::<
                Seq<Seq<u8>>,
                nat,
            >(list)
            &&& says_something(last) && is_hash(trimmed(last)) && !list.contains(hash) ==> r
                == Ok::<Seq<Seq<u8>>, nat>(list.push(hash))
        }),
{
}

/// The fingerprint comes from one of the lines.
pub open spec fn is_named(lines: Seq<Seq<char>>, hash: Seq<u8>) -> bool {
    exists|i: int|
        0 <= i < lines.len() && says_something(#[trigger] lines[i]) && hex_bytes(trimmed(lines[i]))
            == hash
}

/// The lines and the fingerprints that were read of them belong together.
spec fn hashes_read(lines: Seq<Seq<char>>, list: Seq<Seq<u8>>) -> bool {
    &&& forall|i: int|
        0 <= i < lines.len() && says_something(#[trigger] lines[i]) ==> is_hash(trimmed(lines[i]))
            && list.contains(hex_bytes(trimmed(lines[i])))
    &&& forall|k: int| 0 <= k < list.len() ==> is_named(lines, #[trigger] list[k])
}

/// The `n`th line is the first that is no fingerprint.
spec fn hashes_refused(lines: Seq<Seq<char>>, n: nat) -> bool {
    &&& 1 <= n <= lines.len()
    &&& says_something(lines[n - 1])
    &&& !is_hash(trimmed(lines[n - 1]))
    &&& forall|i: int|
        0 <= i < n - 1 && says_something(#[trigger] lines[i]) ==> is_hash(trimmed(lines[i]))
}

proof fn lemma_more_hashes(lines: Seq<Seq<char>>, list: Seq<Seq<u8>>, after: Seq<Seq<u8>>)
    requires
        lines.len() > 0,
        hashes_read(lines.drop_last(), list),
        after == list || (says_something(lines.last()) && after == list.push(
            hex_bytes(trimmed(lines.last())),
        )),
        says_something(lines.last()) ==> is_hash(trimmed(lines.last())) && after.contains(
            hex_bytes(trimmed(lines.last())),
        ),
    ensures
        hashes_read(lines, after),
{
    let head = lines.drop_last();
    let n = lines.len() - 1;
    assert forall|i: int| 0 <= i < lines.len() && says_something(#[trigger] lines[i]) implies is_hash(
        trimmed(lines[i]),
    ) && after.contains(hex_bytes(trimmed(lines[i]))) by {
        if i < n {
            let hash = hex_bytes(trimmed(lines[i]));
            assert(head[i] == lines[i]);
            assert(list.contains(hash));
            let k = choose|k: int| 0 <= k < list.len() && list[k] == hash;
            assert(after[k] == hash);
        }
    }
    assert forall|k: int| 0 <= k < after.len() implies is_named(lines, #[trigger] after[k]) by {
        if k < list.len() {
            assert(after[k] == list[k]);
            assert(is_named(head, list[k]));
            let i = choose|i: int|
                0 <= i < head.len() && says_something(#[trigger] head[i]) && hex_bytes(
                    trimmed(head[i]),
                ) == list[k];
            assert(lines[i] == head[i]);
            assert(says_something(lines[i]));
        } else {
            assert(says_something(lines[n]));
        }
    }
}

proof fn lemma_read_hashes(lines: Seq<Seq<char>>)
    ensures
        match read_hashes(lines) {
            Ok(list) => hashes_read(lines, list),
            Err(n) => hashes_refused(lines, n),
        },
    decreases lines.len(),
{
    if lines.len() > 0 {
        let head = lines.drop_last();
        let last = lines.last();
        lemma_read_hashes(head);
        match read_hashes(head) {
            Err(n) => {
                assert(head[n - 1] == lines[n - 1]);
                assert forall|i: int|
                    0 <= i < n - 1 && says_something(#[trigger] lines[i]) implies is_hash(
                    trimmed(lines[i]),
                ) by {
                    assert(head[i] == lines[i]);
                }
            },
            Ok(list) => {
                lemma_next_hash(lines, list);
                let hash = hex_bytes(trimmed(last));
                match read_hashes(lines) {
                    Ok(after) => {
                        if says_something(last) && !list.contains(hash) {
                            assert(after[list.len() as int] == hash);
                        }
                        lemma_more_hashes(lines, list, after);
                    },
                    Err(n) => {
                        assert forall|i: int|
                            0 <= i < n - 1 && says_something(#[trigger] lines[i]) implies is_hash(
                            trimmed(lines[i]),
                        ) by {
                            assert(head[i] == lines[i]);
                        }
                    },
                }
            },
        }
    }
}

/// A trust list holds what its lines say: each line that says something is a
/// fingerprint, and is trusted.
pub proof fn lines_of_a_trust_list_are_trusted(
    contents: &str,
    r: Result<TrustedProxies, ProxyError>,
    i: int,
    line: &str,
    hash: Option<[u8; 32]>,
)
    requires
        call_ensures(TrustedProxies::from_hash_list, (contents,), r),
        call_ensures(parse_hash, (line,), hash),
        0 <= i < lines_of(contents@).len(),
        lines_of(contents@)[i] == line@,
        says_something(line@),
    ensures
        hash is None ==> (r matches Err(ProxyError::InvalidHash { line: n }) && n <= i + 1),
        r matches Ok(p) ==> hash is Some && exists|k: int|
            0 <= k < p.public_key_hashes@.len() && (#[trigger] p.public_key_hashes@[k])@
                == hash->0@,
{
    let lines = lines_of(contents@);
    lemma_read_hashes(lines);
    assert(says_something(lines[i]));
    if let Ok(p) = r {
        let h = hash->0@;
        assert(p.hashes().contains(h));
        let k = choose|k: int| 0 <= k < p.hashes().len() && p.hashes()[k] == h;
        assert(p.public_key_hashes@[k]@ == h);
    }
}

/// A trust list holds nothing but what its lines say, and nothing twice.
pub proof fn nobody_else_is_trusted(
    contents: &str,
    p: TrustedProxies,
    k: int,
    other: int,
)
    requires
        call_ensures(
            TrustedProxies::from_hash_list,
            (contents,),
            Ok::<TrustedProxies, ProxyError>(p),
        ),
        0 <= k < p.public_key_hashes@.len(),
    ensures
        exists|i: int|
            #![trigger lines_of(contents@)[i]]
            {
                &&& 0 <= i < lines_of(contents@).len()
                &&& says_something(lines_of(contents@)[i])
                &&& forall|line: &str, hash: Option<[u8; 32]>|
                    line@ == lines_of(contents@)[i] && #[trigger] call_ensures(
                        parse_hash,
                        (line,),
                        hash,
                    ) ==> hash is Some && hash->0@ == p.public_key_hashes@[k]@
            },
        k < other < p.public_key_hashes@.len() ==> p.public_key_hashes@[k]@
            != p.public_key_hashes@[other]@,
{
    let lines = lines_of(contents@);
    lemma_read_hashes(lines);
    let list = p.hashes();
    assert(list[k] == p.public_key_hashes@[k]@);
    assert(is_named(lines, list[k]));
    let i = choose|i: int|
        0 <= i < lines.len() && says_something(#[trigger] lines[i]) && hex_bytes(trimmed(lines[i]))
            == list[k];
    assert(is_hash(trimmed(lines[i])));
    if k < other < p.public_key_hashes@.len() {
        assert(list[other] == p.public_key_hashes@[other]@);
    }
}

/// A trust list is refused for the first line that says something but is no
/// fingerprint.
pub proof fn first_bad_line_is_told(contents: &str, e: ProxyError, i: int)
    requires
        call_ensures(
            TrustedProxies::from_hash_list,
            (contents,),
            Err::<TrustedProxies, ProxyError>(e),
        ),
    ensures
        e matches ProxyError::InvalidHash { line: n } && 1 <= n <= lines_of(contents@).len() && {
            let line = lines_of(contents@)[n - 1];
            &&& says_something(line)
            &&& !is_hash(trimmed(line))
            &&& 0 <= i < n - 1 && says_something(lines_of(contents@)[i]) ==> is_hash(
                trimmed(lines_of(contents@)[i]),
            )
        },
{
    lemma_read_hashes(lines_of(contents@));
}

/// A configuration that is made with a key has that key and its certificate
/// as its identity, and everything else as it was given or starts out.
pub proof fn configurations_keep_their_identity(
    v4: SocketV4,
    v6: SocketV6,
    backend: String,
    key: SigningKey,
    cert: Certificate,
    r: Result<Config, ConfigError>,
    identity: Result<(Certificate, SigningKey), ConfigError>,
    hash: Result<[u8; 32], ConfigError>,
)
    requires
        call_ensures(certificate_for_key, (&key,), Some(cert)),
        call_ensures(Config::with_keys, (v4, v6, backend, &Some((cert, key))), r),
        r matches Ok(c) ==> call_ensures(Config::identity, (&c,), identity) && call_ensures(
            Config::hash,
            (&c,),
            hash,
        ),
    ensures
        r matches Ok(c) && {
            &&& identity matches Ok((same_cert, same_key))
            &&& same_cert.der@ == cert.der@
            &&& same_key.bytes@ == key.bytes@
            &&& hash matches Ok(print)
            &&& cert.fingerprint matches Some(expected)
            &&& print@ == expected@
            &&& c.listen_game_v4 == v4
            &&& c.listen_game_v6 == v6
            &&& c.backend_public_key_hash@ == backend@
            &&& c.backend_server_name@ == "localhost"@
            &&& c.max_connections == 1024
            &&& c.connect_timeout_seconds == 10
            &&& c.idle_timeout_seconds == 30
            &&& c.backend_s2s matches Endpoint::V4 { ip, port }
            &&& port == 8315
            &&& ip@ == seq![127u8, 0u8, 0u8, 1u8]
        },
{
    let c = r->Ok_0;
    created_config_has_its_identity(c, cert, key);
    assert(hash->Ok_0@ == cert.fields().fingerprint->0);
}

/// Without keys there is no configuration.
pub proof fn configurations_need_keys(
    v4: SocketV4,
    v6: SocketV6,
    backend: String,
    r: Result<Config, ConfigError>,
)
    requires
        call_ensures(Config::with_keys, (v4, v6, backend, &None::<(Certificate, SigningKey)>), r),
    ensures
        r matches Err(e) && e == ConfigError::Signing,
{
}

/// A new configuration needs the fingerprint of a backend, keeps it and the
/// addresses, and has an identity.
pub proof fn new_configurations_name_their_backend(
    v4: SocketV4,
    v6: SocketV6,
    backend: String,
    r: Result<Config, ConfigError>,
    text: &str,
    hash: Option<[u8; 32]>,
    identity: Result<(Certificate, SigningKey), ConfigError>,
)
    requires
        call_ensures(Config::create, (v4, v6, backend), r),
        text@ == backend@,
        call_ensures(parse_hash, (text,), hash),
        r matches Ok(c) ==> call_ensures(Config::identity, (&c,), identity),
    ensures
        hash is None <==> (r matches Err(e) && e == ConfigError::InvalidHash),
        r matches Err(e) ==> e == ConfigError::InvalidHash || e == ConfigError::Signing,
        r matches Ok(c) ==> {
            &&& c.listen_game_v4 == v4
            &&& c.listen_game_v6 == v6
            &&& c.backend_public_key_hash@ == backend@
            &&& c.max_connections == 1024
            &&& c.connect_timeout_seconds == 10
            &&& c.idle_timeout_seconds == 30
            &&& identity is Ok
        },
{
}

/// The identity of a configuration is the key and the certificate that it
/// holds, which must belong together.
pub proof fn identities_belong_together(
    c: &Config,
    r: Result<(Certificate, SigningKey), ConfigError>,
    key_text: &str,
    key_bytes: Option<[u8; 32]>,
    public: [u8; 32],
)
    requires
        call_ensures(Config::identity, (c,), r),
        key_text@ == c.private_key@,
        call_ensures(decode_hash, (key_text,), key_bytes),
        r matches Ok((_, key)) ==> call_ensures(SigningKey::verifying_key, (&key,), public),
    ensures
        r matches Ok((cert, key)) ==> {
            &&& key_bytes matches Some(bytes)
            &&& key.bytes@ == bytes@
            &&& cert.public_key matches Some(held)
            &&& held@ == public@
            &&& c.certificate@.len() == 2 * cert.der@.len()
        },
        key_bytes is None <==> (r matches Err(e) && e == ConfigError::InvalidKey),
        r matches Err(e) ==> e == ConfigError::InvalidKey || e == ConfigError::CertificateEncoding
            || e == ConfigError::InvalidCertificate || e == ConfigError::Mismatch,
{
    if let Ok((cert, key)) = r {
        assert(cert.fields().public_key == Some(public@));
    }
}

/// A configuration is kept exactly if that is wanted, it is there and it has
/// an identity; then it stays as it is.
pub proof fn usable_configurations_are_kept(
    keep: bool,
    c: Config,
    r: Option<Config>,
    identity: Result<(Certificate, SigningKey), ConfigError>,
    none: Option<Config>,
)
    requires
        call_ensures(keep_config, (keep, Some(c)), r),
        call_ensures(Config::identity, (&c,), identity),
        call_ensures(keep_config, (keep, None::<Config>), none),
    ensures
        r is Some <==> keep && identity is Ok,
        r matches Some(kept) ==> kept == c,
        none is None,
{
}

/// A fingerprint that was imported into a trust list is trusted, and all that
/// was trusted before still is.
pub proof fn imported_fingerprints_are_trusted(
    data: Option<Vec<u8>>,
    hash: [u8; 32],
    text: String,
    before: &str,
    old_list: TrustedProxies,
    after: &str,
    r: Result<TrustedProxies, ProxyError>,
    k: int,
)
    requires
        call_ensures(import_hash, (data, hash), Ok::<Option<String>, ConfigError>(Some(text))),
        before@ == list_text(data),
        call_ensures(
            TrustedProxies::from_hash_list,
            (before,),
            Ok::<TrustedProxies, ProxyError>(old_list),
        ),
        after@ == text@,
        call_ensures(TrustedProxies::from_hash_list, (after,), r),
    ensures
        r matches Ok(p) && {
            let n = old_list.public_key_hashes@.len();
            &&& p.public_key_hashes@.len() == n + 1
            &&& p.public_key_hashes@[n as int]@ == hash@
            &&& 0 <= k < n ==> p.public_key_hashes@[k]@ == old_list.public_key_hashes@[k]@
        },
{
    imported_hash_is_trusted(before@, hash@);
    let p = r->Ok_0;
    assert(p.hashes() == old_list.hashes().push(hash@));
    let n = old_list.public_key_hashes@.len() as int;
    assert(old_list.hashes().len() == n);
    assert(p.hashes().len() == p.public_key_hashes@.len());
    assert(p.hashes()[n] == p.public_key_hashes@[n]@);
    if 0 <= k < n {
        assert(p.hashes()[k] == p.public_key_hashes@[k]@);
        assert(old_list.hashes()[k] == old_list.public_key_hashes@[k]@);
    }
}

/// Nothing is written exactly if the fingerprint is trusted already. A list
/// that cannot be read is left alone.
pub proof fn trusted_fingerprints_are_not_imported_again(
    data: Option<Vec<u8>>,
    hash: [u8; 32],
    r: Result<Option<String>, ConfigError>,
    before: &str,
    list: Result<TrustedProxies, ProxyError>,
    known: bool,
)
    requires
        call_ensures(import_hash, (data, hash), r),
        data matches Some(bytes) ==> valid_utf8(bytes@),
        before@ == list_text(data),
        call_ensures(TrustedProxies::from_hash_list, (before,), list),
        list matches Ok(p) ==> call_ensures(TrustedProxies::contains, (&p, &hash), known),
    ensures
        list is Ok <==> r is Ok,
        list matches Ok(_) ==> (known <==> (r matches Ok(None))),
        r matches Err(e) ==> e == ConfigError::TrustList(list->Err_0),
        r matches Ok(Some(text)) ==> before@.is_prefix_of(text@) && text@.last() == '\n',
{
    lemma_read_hashes(lines_of(before@));
    if let Err(n) = read_hashes(lines_of(before@)) {
        assert(list->Err_0 matches ProxyError::InvalidHash { line } && line == n);
    }
    if let Ok(Some(text)) = r {
        assert(text@.take(before@.len() as int) =~= before@);
    }
}

/// A list that is not text is refused as such.
pub proof fn lists_must_be_text(
    bytes: Vec<u8>,
    hash: [u8; 32],
    r: Result<Option<String>, ConfigError>,
)
    requires
        call_ensures(import_hash, (Some(bytes), hash), r),
    ensures
        !valid_utf8(bytes@) <==> (r matches Err(e) && e == ConfigError::Utf8),
{
}

/// A new trust list trusts the fingerprint and nobody else.
pub proof fn new_lists_trust_one(
    hash: &[u8; 32],
    text: String,
    list: &str,
    r: Result<TrustedProxies, ProxyError>,
)
    requires
        call_ensures(new_hash_list, (hash,), text),
        list@ == text@,
        call_ensures(TrustedProxies::from_hash_list, (list,), r),
    ensures
        r matches Ok(p) && p.public_key_hashes@.len() == 1 && p.public_key_hashes@[0]@ == hash@,
{
    let none = Seq::<char>::empty();
    assert(lines_of(none) == Seq::<Seq<char>>::empty());
    imported_hash_is_trusted(none, hash@);
    let p = r->Ok_0;
    assert(p.hashes() == Seq::<Seq<u8>>::empty().push(hash@));
    assert(p.hashes()[0] == p.public_key_hashes@[0]@);
}

/// Setting up a proxy replaces the trust list, unless it is to be kept; then
/// the fingerprint is imported.
pub proof fn set_up_replaces_or_imports(
    keep: bool,
    data: Option<Vec<u8>>,
    hash: [u8; 32],
    r: Result<Option<String>, ConfigError>,
    imported: Result<Option<String>, ConfigError>,
    fresh: String,
)
    requires
        call_ensures(trust_list_after_init, (keep, data, hash), r),
        call_ensures(import_hash, (data, hash), imported),
        call_ensures(new_hash_list, (&hash,), fresh),
    ensures
        !keep ==> (r matches Ok(Some(text)) && text@ == fresh@),
        keep ==> {
            &&& r is Ok <==> imported is Ok
            &&& r matches Err(e) ==> imported == Err::<Option<String>, ConfigError>(e)
            &&& (r matches Ok(None)) <==> (imported matches Ok(None))
            &&& r matches Ok(Some(a)) ==> imported matches Ok(Some(b)) ==> a@ == b@
        },
{
}

/// A backend on the same host is reached at the loopback address.
pub proof fn default_backend_is_on_the_same_host(r: Endpoint)
    requires
        call_ensures(default_backend_s2s, (), r),
    ensures
        r matches Endpoint::V4 { ip, port } && port == 8315 && ip@[0] == 127 && ip@[1] == 0
            && ip@[2] == 0 && ip@[3] == 1,
{
}

/// A client is refused exactly if as many are connected as may be, and
/// accepted exactly if there is room and its address is validated.
pub proof fn clients_are_accepted_with_room_and_address(
    n: usize,
    limit: usize,
    validated: bool,
    r: Admission,
)
    requires
        call_ensures(admission, (n, limit, validated), r),
    ensures
        r == Admission::Refuse <==> n >= limit,
        r == Admission::Accept <==> n < limit && validated,
        r == Admission::Retry <==> n < limit && !validated,
{
}

/// The game of a backend is on the host of its control endpoint, at the port
/// of that family. Connections start from any address of the family.
pub proof fn games_are_on_the_host_of_the_backend(
    control: Endpoint,
    v4: u16,
    v6: u16,
    r: Endpoint,
    local: Endpoint,
)
    requires
        call_ensures(backend_game, (control, v4, v6), r),
        call_ensures(bind_endpoint, (r,), local),
    ensures
        control matches Endpoint::V4 { ip, port } ==> r == (Endpoint::V4 { ip, port: v4 }),
        control matches Endpoint::V6 { ip, port } ==> r == (Endpoint::V6 { ip, port: v6 }),
        control is V4 <==> local is V4,
        local matches Endpoint::V4 { ip, port } ==> port == 0 && ip@ =~= seq![0u8, 0u8, 0u8, 0u8],
        local matches Endpoint::V6 { ip, port } ==> port == 0 && forall|i: int|
            0 <= i < 16 ==> #[trigger] ip@[i] == 0,
{
}

/// A connection that was closed closes the other one with the same code and
/// reason. One that broke closes it for a shutdown.
pub proof fn closes_are_passed_on(reason: CloseReason, r: Close<Vec<u8>>)
    requires
        call_ensures(propagate_close, (reason,), r),
    ensures
        reason matches CloseReason::Application { code, reason: why } ==> (r matches Close::With {
            code: same,
            reason: told,
        } && same == code && told@ == why@),
        reason is Broken ==> (r matches Close::Shutdown { reason: told } && told@ == encode_utf8(
            "proxy peer disconnected"@,
        )),
{
}

/// Two closes are told alike.
pub open spec fn same_close(a: Close<Vec<u8>>, b: Close<Vec<u8>>) -> bool {
    match (a, b) {
        (Close::With { code, reason }, Close::With { code: c2, reason: r2 }) => code == c2
            && reason@ == r2@,
        (Close::Shutdown { reason }, Close::Shutdown { reason: r2 }) => reason@ == r2@,
        _ => false,
    }
}

/// When a relay ends, the side that was closed first in line closes the other
/// one. If neither was, both are shut down.
pub proof fn ends_are_passed_to_the_other_side(
    front: Option<CloseReason>,
    back: Option<CloseReason>,
    r: RelayEnd<Vec<u8>>,
    passed: Close<Vec<u8>>,
)
    requires
        call_ensures(end_relay, (front, back), r),
        front matches Some(reason) ==> call_ensures(propagate_close, (reason,), passed),
        front is None ==> (back matches Some(reason) ==> call_ensures(
            propagate_close,
            (reason,),
            passed,
        )),
    ensures
        front is Some ==> r.front is None && r.back is Some && same_close(r.back->0, passed),
        front is None && back is Some ==> r.back is None && r.front is Some && same_close(
            r.front->0,
            passed,
        ),
        front is None && back is None ==> {
            &&& r.front matches Some(Close::Shutdown { reason: a })
            &&& r.back matches Some(Close::Shutdown { reason: b })
            &&& a@ == encode_utf8("proxy relay failed"@)
            &&& b@ == encode_utf8("proxy relay failed"@)
        },
{
    if let Some(reason) = front {
        assert(r@.back == Some(passed@));
        assert(r.back->0@ == passed@);
    } else if let Some(reason) = back {
        assert(r@.front == Some(passed@));
        assert(r.front->0@ == passed@);
    } else {
        assert(r@.front is Some && r@.back is Some);
        assert(r.front->0@ == r@.front->0);
        assert(r.back->0@ == r@.back->0);
    }
}

/// Data of a stream is written once it arrived and read again once written.
/// The end of the source ends the target, a reset resets it with the same
/// code, and a stop of the target stops the source with the same code. What
/// cannot happen fails.
pub proof fn streams_end_as_their_source(
    state: StreamState,
    event: StreamEvent,
    r: (StreamState, StreamAction),
)
    requires
        call_ensures(copy_stream, (state, event), r),
    ensures
        r.1 == StreamAction::Write <==> state == StreamState::Reading && event == StreamEvent::Data,
        r.1 == StreamAction::Read <==> state == StreamState::Writing && event
            == StreamEvent::Written,
        r.1 == StreamAction::Finish <==> state == StreamState::Reading && event
            == StreamEvent::Finished,
        state == StreamState::Reading ==> (event matches StreamEvent::Reset { code } ==> r.1
            == (StreamAction::ResetTarget { code })),
        r.1 is ResetTarget ==> state == StreamState::Reading && event is Reset,
        state != StreamState::Ended ==> (event matches StreamEvent::Stopped {
            code: Some(code),
        } ==> r.1 == (StreamAction::StopSource { code })),
        r.1 is StopSource ==> event is Stopped,
        r.1 == StreamAction::Done <==> state != StreamState::Ended && event
            == (StreamEvent::Stopped { code: None }),
        r.0 == StreamState::Writing <==> r.1 == StreamAction::Write,
        r.0 == StreamState::Reading <==> r.1 == StreamAction::Read,
        r.0 == StreamState::Finishing <==> r.1 == StreamAction::Finish,
        state == StreamState::Ended || event == StreamEvent::Broken ==> r.1 == StreamAction::Fail,
{
}

/// At most 16 streams of both directions and 32 of one are relayed at a time,
/// and only a failed datagram ends the relay of datagrams.
pub proof fn streams_are_taken_up_to_the_limit(
    n: usize,
    both: bool,
    r: bool,
    outcome: DatagramOutcome,
    goes_on: bool,
)
    requires
        call_ensures(takes_stream, (n, both), r),
        call_ensures(datagram_goes_on, (outcome,), goes_on),
    ensures
        both ==> (r <==> n < 16),
        !both ==> (r <==> n < 32),
        goes_on <==> outcome != DatagramOutcome::Failed,
{
}

/// A client is known by the first certificate of its chain.
pub proof fn clients_are_known_by_their_first_certificate(
    chain: &Vec<Vec<u8>>,
    r: Result<Certificate, BackendError>,
)
    requires
        call_ensures(client_certificate, (chain,), r),
    ensures
        chain@.len() == 0 <==> (r matches Err(e) && e == BackendError::NoCertificate),
        r matches Ok(c) ==> c.der@ == chain@[0]@ && c.valid(),
        chain@.len() > 0 ==> (r is Ok <==> x509_fields(chain@[0]@) is Some),
        chain@.len() > 0 && r is Err ==> (r matches Err(e) && e
            == BackendError::InvalidCertificate),
{
}

/// A connection to the backend presents the certificate that forwards the
/// client, made with the key of the configuration, expects the backend that
/// the configuration names, and waits as long as it says.
pub proof fn backends_are_told_the_client(
    config: &Config,
    addr: Endpoint,
    cert: &Certificate,
    r: Result<BackendOptions, BackendError>,
    identity: Result<(Certificate, SigningKey), ConfigError>,
    made: Result<Certificate, ProxyError>,
    text: &str,
    hash: Option<[u8; 32]>,
)
    requires
        call_ensures(backend_options, (config, addr, cert), r),
        call_ensures(Config::identity, (config,), identity),
        identity matches Ok((_, key)) ==> call_ensures(
            create_proxy_certificate,
            (&key, addr, cert),
            made,
        ),
        text@ == config.backend_public_key_hash@,
        call_ensures(parse_hash, (text,), hash),
    ensures
        r is Ok <==> identity is Ok && made is Ok && hash is Some,
        identity matches Err(e) ==> (r matches Err(f) && f == BackendError::Config(e)),
        identity is Ok ==> (made matches Err(e) ==> (r matches Err(f) && f == BackendError::Proxy(
            e,
        ))),
        identity is Ok && made is Ok && hash is None ==> (r matches Err(f) && f
            == BackendError::Config(ConfigError::InvalidHash)),
        r matches Ok(o) ==> {
            &&& identity matches Ok((_, key))
            &&& o.private_key.bytes@ == key.bytes@
            &&& made matches Ok(forwarding)
            &&& o.cert.der@ == forwarding.der@
            &&& hash matches Some(expected)
            &&& o.backend_hash@ == expected@
            &&& o.timeout_seconds == config.idle_timeout_seconds
        },
{
}

/// What the extension of a trusted proxy holds is read as an identity, and
/// the answer is that of reading it.
pub proof fn extensions_are_read_as_identities(
    trusted: &TrustedProxies,
    peer: &Certificate,
    r: Result<Option<ForwardedIdentity>, ProxyError>,
    i: int,
    payload: Seq<u8>,
    decoded: Option<Decoded>,
    len: usize,
    read: Result<ForwardedIdentity, ProxyError>,
)
    requires
        call_ensures(TrustedProxies::resolve, (trusted, peer), r),
        peer.fingerprint is Some,
        trusted.hashes().contains(peer.fingerprint->0@),
        forwards_at(*peer, i),
        forall|k: int| k != i ==> !forwards_at(*peer, k),
        peer.extensions@[i].value@ == der_octets(payload),
        peer.extensions@[i].value@.len() <= 0x8008,
        len == payload.len(),
        decoded_view(decoded) == decoded_payload(payload, 0x8000),
        call_ensures(forwarded_identity, (decoded, len), read),
    ensures
        r matches Err(e) ==> read == Err::<ForwardedIdentity, ProxyError>(e),
        read matches Err(e) ==> r == Err::<Option<ForwardedIdentity>, ProxyError>(e),
        read matches Ok(id) ==> (r matches Ok(Some(same)) && same.addr == id.addr && same.cert.der@
            == id.cert.der@),
{
    lemma_forwarding(*peer);
    let values = values_of(peer.fields().extensions, oid_text(forwarding_oid()));
    assert(values.contains(peer.extensions@[i].value@));
    let k = choose|k: int| 0 <= k < values.len() && values[k] == peer.extensions@[i].value@;
    assert(values.len() == 1) by {
        if values.len() >= 2 {
            let (a, b) = choose|a: int, b: int|
                a < b && forwards_at(*peer, a) && forwards_at(*peer, b);
            assert(a == i && b == i);
        }
    }
    assert(k == 0);
    assert(payload.len() <= 0xffff);
    assert(values[0] == der_octets(payload));
    let content = der_content(values[0])->0;
    lemma_der_octets_injective(payload, content);
}

} // verus!
