//! The configuration of a proxy: its identity and the backend that it serves.
use crate::certificate::{
    certificate_der, create_certifified_keys, ed25519_public, made_with, x509_fields, Certificate,
    SigningKey,
};
use crate::hash::{
    decode_hash, decode_hex, encode_hex, fmt_hash, hash_reads_back, hex_bytes, hex_digit,
    hex_reads_back, hex_text, is_hash, is_hex, parse_hash,
};
use crate::proxy::{is_blank, read_hashes, Endpoint, ProxyError, TrustedProxies};
use crate::text::{
    append, chars_of, line_end, lines_of, same_bytes, trim_start, trimmed, utf8_string,
    white_space, without_return,
};
use vstd::prelude::*;
use vstd::utf8::{decode_utf8, valid_utf8};

verus! {

/// The name of the configuration file.
pub const CONFIG_FILE: &'static str = "config.json";

/// The name of the trust list.
pub const HASH_FILE: &'static str = "trusted-proxies.txt";

/// An address to listen on.
#[derive(Clone, Copy, Debug, PartialEq, Eq)]
pub struct SocketV4 {
    pub ip: [u8; 4],
    pub port: u16,
}

/// An address to listen on.
#[derive(Clone, Copy, Debug, PartialEq, Eq)]
pub struct SocketV6 {
    pub ip: [u8; 16],
    pub port: u16,
    pub flowinfo: u32,
    pub scope_id: u32,
}

/// The configuration of a proxy. It has no `Debug`: it holds a private key.
pub struct Config {
    pub listen_game_v4: SocketV4,
    pub listen_game_v6: SocketV6,
    pub backend_s2s: Endpoint,
    pub backend_server_name: String,
    pub backend_public_key_hash: String,
    pub private_key: String,
    pub certificate: String,
    pub max_connections: u64,
    pub connect_timeout_seconds: u64,
    pub idle_timeout_seconds: u64,
}

/// Why a configuration cannot be used.
#[derive(Clone, Copy, Debug, PartialEq, Eq, Structural)]
pub enum ConfigError {
    /// The fingerprint of the backend is not 64 hexadecimal digits.
    InvalidHash,
    /// No certificate could be made.
    Signing,
    /// The private key is not 64 hexadecimal digits.
    InvalidKey,
    /// The certificate is not hexadecimal.
    CertificateEncoding,
    /// The certificate cannot be read.
    InvalidCertificate,
    /// The certificate belongs to another key.
    Mismatch,
    /// The trust list is not UTF-8.
    Utf8,
    /// The trust list cannot be read.
    TrustList(ProxyError),
}

/// The port of the backend's control endpoint.
pub const S2S_PORT: u16 = 8315;

/// The control endpoint of a backend on the same host.
pub fn default_backend_s2s() -> (r: Endpoint)
    ensures
        r matches Endpoint::V4 { ip, port } && ip@ == seq![127u8, 0u8, 0u8, 1u8] && port
            == S2S_PORT,
{
    let ip = [127u8, 0u8, 0u8, 1u8];
    assert(ip@ =~= seq![127u8, 0u8, 0u8, 1u8]);
    Endpoint::V4 { ip, port: S2S_PORT }
}

/// The identity in a configuration: the certificate's DER form and the key.
pub open spec fn identity_of(c: Config) -> Result<(Seq<u8>, Seq<u8>), ConfigError> {
    let key = hex_bytes(c.private_key@);
    let der = hex_bytes(c.certificate@);
    if !is_hash(c.private_key@) {
        Err(ConfigError::InvalidKey)
    } else if !is_hex(c.certificate@) {
        Err(ConfigError::CertificateEncoding)
    } else {
        match x509_fields(der) {
            None => Err(ConfigError::InvalidCertificate),
            Some(fields) => if fields.public_key == Some(ed25519_public(key)) {
                Ok((der, key))
            } else {
                Err(ConfigError::Mismatch)
            },
        }
    }
}

/// The fingerprint of the key in a configuration.
pub open spec fn hash_of(c: Config) -> Result<Seq<u8>, ConfigError> {
    match identity_of(c) {
        Err(error) => Err(error),
        Ok((der, _)) => match x509_fields(der)->0.fingerprint {
            Some(hash) => Ok(hash),
            None => Err(ConfigError::InvalidCertificate),
        },
    }
}

/// A configuration with the given key and certificate.
pub open spec fn holds_identity(c: Config, cert: Certificate, key: SigningKey) -> bool {
    c.private_key@ == hex_text(key.bytes@) && c.certificate@ == hex_text(cert.der@)
}

/// A configuration with the given addresses and backend, and otherwise with
/// what a new one starts with.
pub open spec fn is_new_config(
    c: Config,
    listen_game_v4: SocketV4,
    listen_game_v6: SocketV6,
    backend_hash: Seq<char>,
) -> bool {
    &&& c.listen_game_v4 == listen_game_v4
    &&& c.listen_game_v6 == listen_game_v6
    &&& c.backend_s2s matches Endpoint::V4 { ip, port } && ip@ == seq![127u8, 0u8, 0u8, 1u8] && port
        == S2S_PORT
    &&& c.backend_server_name@ == "localhost"@
    &&& c.backend_public_key_hash@ == backend_hash
    &&& c.max_connections == 1024
    &&& c.connect_timeout_seconds == 10
    &&& c.idle_timeout_seconds == 30
}

/// A configuration that was made with a key and its certificate has them as
/// its identity.
pub proof fn created_config_has_its_identity(c: Config, cert: Certificate, key: SigningKey)
    requires
        holds_identity(c, cert, key),
        made_with(cert, key, seq![]),
    ensures
        identity_of(c) == Ok::<(Seq<u8>, Seq<u8>), ConfigError>((cert.der@, key.bytes@)),
        hash_of(c) == Ok::<Seq<u8>, ConfigError>(cert.fields().fingerprint->0),
{
    hex_reads_back(cert.der@);
    hash_reads_back(key.bytes);
}

impl Config {
    /// A new configuration with a new key.
    pub fn create(listen_game_v4: SocketV4, listen_game_v6: SocketV6, backend_hash: String) -> (r:
        Result<Self, ConfigError>)
        ensures
            if !is_hash(trimmed(backend_hash@)) {
                r is Err && r->Err_0 == ConfigError::InvalidHash
            } else {
                match r {
                    Err(error) => error == ConfigError::Signing && exists|key: SigningKey|
                        #![trigger key.bytes@]
                        certificate_der(key.bytes@, None) is None,
                    Ok(c) => {
                        &&& is_new_config(c, listen_game_v4, listen_game_v6, backend_hash@)
                        &&& exists|cert: Certificate, key: SigningKey| #[trigger]
                            holds_identity(c, cert, key) && made_with(cert, key, seq![])
                                && certificate_der(key.bytes@, None) == Some(cert.der@)
                        &&& identity_of(c) is Ok
                        &&& hash_of(c) is Ok
                    },
                }
            },
    {
        if parse_hash(backend_hash.as_str()).is_none() {
            return Err(ConfigError::InvalidHash);
        }
        let keys = create_certifified_keys();
        let c = Config::with_keys(listen_game_v4, listen_game_v6, backend_hash, &keys);
        proof {
            if keys is Some {
                let (cert, key) = keys->0;
                assert(holds_identity(c->Ok_0, cert, key));
                created_config_has_its_identity(c->Ok_0, cert, key);
            }
        }
        c
    }

    /// A new configuration with the key and the certificate that were made,
    /// if they were.
    pub fn with_keys(
        listen_game_v4: SocketV4,
        listen_game_v6: SocketV6,
        backend_hash: String,
        keys: &Option<(Certificate, SigningKey)>,
    ) -> (r: Result<Self, ConfigError>)
        ensures
            match *keys {
                Some((cert, key)) => r matches Ok(c) && is_new_config(
                    c,
                    listen_game_v4,
                    listen_game_v6,
                    backend_hash@,
                ) && holds_identity(c, cert, key),
                None => r is Err && r->Err_0 == ConfigError::Signing,
            },
    {
        let (cert, key) = match keys {
            Some((cert, key)) => (cert, key),
            None => {
                return Err(ConfigError::Signing);
            },
        };
        Ok(Config {
            listen_game_v4,
            listen_game_v6,
            backend_s2s: default_backend_s2s(),
            backend_server_name: "localhost".to_owned(),
            backend_public_key_hash: backend_hash,
            private_key: encode_hex(key.bytes.as_slice()),
            certificate: encode_hex(cert.der.as_slice()),
            max_connections: 1024,
            connect_timeout_seconds: 10,
            idle_timeout_seconds: 30,
        })
    }

    /// The certificate and the key of the proxy, which must belong together.
    pub fn identity(&self) -> (r: Result<(Certificate, SigningKey), ConfigError>)
        ensures
            match identity_of(*self) {
                Ok((der, bytes)) => r matches Ok((cert, key)) && cert.der@ == der && cert.valid()
                    && key.bytes@ == bytes,
                Err(error) => r is Err && r->Err_0 == error,
            },
    {
        let key = match decode_hash(self.private_key.as_str()) {
            Some(bytes) => SigningKey { bytes },
            None => {
                return Err(ConfigError::InvalidKey);
            },
        };
        let der = match decode_hex(self.certificate.as_str()) {
            Some(der) => der,
            None => {
                return Err(ConfigError::CertificateEncoding);
            },
        };
        let cert = match Certificate::from_der(der.as_slice()) {
            Some(cert) => cert,
            None => {
                return Err(ConfigError::InvalidCertificate);
            },
        };
        let public = key.verifying_key();
        let matching = match &cert.public_key {
            Some(bytes) => same_bytes(bytes.as_slice(), public.as_slice()),
            None => false,
        };
        if matching {
            Ok((cert, key))
        } else {
            Err(ConfigError::Mismatch)
        }
    }

    /// The fingerprint of the proxy's key.
    pub fn hash(&self) -> (r: Result<[u8; 32], ConfigError>)
        ensures
            match hash_of(*self) {
                Ok(hash) => r matches Ok(bytes) && bytes@ == hash,
                Err(error) => r is Err && r->Err_0 == error,
            },
    {
        match self.identity() {
            Err(error) => Err(error),
            Ok((cert, _)) => match cert.fingerprint {
                Some(hash) => Ok(hash),
                None => Err(ConfigError::InvalidCertificate),
            },
        }
    }
}

/// A trust list with one more fingerprint on a line of its own.
pub open spec fn with_hash(contents: Seq<char>, hash: Seq<u8>) -> Seq<char> {
    contents + (if contents.len() > 0 && contents.last() != '\n' {
        seq!['\n']
    } else {
        seq![]
    }) + hex_text(hash) + seq!['\n']
}

/// The text of a trust list that may not be there.
pub open spec fn list_text(data: Option<Vec<u8>>) -> Seq<char> {
    match data {
        Some(bytes) => decode_utf8(bytes@),
        None => seq![],
    }
}

/// The contents that a trust list must be given so that it holds `hash`, or
/// none if it holds it already. A list that cannot be read is left alone.
pub fn import_hash(data: Option<Vec<u8>>, hash: [u8; 32]) -> (r: Result<Option<String>, ConfigError>)
    ensures
        if data matches Some(bytes) && !valid_utf8(bytes@) {
            r is Err && r->Err_0 == ConfigError::Utf8
        } else {
            match read_hashes(lines_of(list_text(data))) {
                Err(line) => r is Err && r->Err_0 == ConfigError::TrustList(
                    ProxyError::InvalidHash { line: line as u64 },
                ),
                Ok(list) => if list.contains(hash@) {
                    r matches Ok(None)
                } else {
                    r matches Ok(Some(text)) && text@ == with_hash(list_text(data), hash@)
                },
            }
        },
{
    let mut contents = match data {
        Some(bytes) => match utf8_string(bytes) {
            Some(text) => text,
            None => {
                return Err(ConfigError::Utf8);
            },
        },
        None => String::new(),
    };
    assert(contents@ =~= list_text(data));
    let list = match TrustedProxies::from_hash_list(contents.as_str()) {
        Ok(list) => list,
        Err(error) => {
            return Err(ConfigError::TrustList(error));
        },
    };
    if list.contains(&hash) {
        return Ok(None);
    }
    let chars = chars_of(contents.as_str());
    if chars.len() > 0 && chars[chars.len() - 1] != '\n' {
        contents.push('\n');
    }
    append(&mut contents, fmt_hash(&hash).as_str());
    contents.push('\n');
    assert(contents@ =~= with_hash(list_text(data), hash@));
    Ok(Some(contents))
}

/// The contents of a new trust list that holds one fingerprint.
pub fn new_hash_list(hash: &[u8; 32]) -> (r: String)
    ensures
        r@ == with_hash(seq![], hash@),
{
    let mut contents = fmt_hash(hash);
    contents.push('\n');
    assert(contents@ =~= with_hash(seq![], hash@));
    contents
}

/// Chooses the configuration to go on with: the one that is there, if it is
/// to be kept and has an identity. `None` stands for a new one.
pub fn keep_config(keep: bool, existing: Option<Config>) -> (r: Option<Config>)
    ensures
        r == if keep && existing is Some && identity_of(existing->0) is Ok {
            existing
        } else {
            None
        },
{
    if !keep {
        return None;
    }
    match existing {
        Some(config) => if config.identity().is_ok() {
            Some(config)
        } else {
            None
        },
        None => None,
    }
}

/// The contents of the trust list after a configuration was set up: it is
/// replaced, or extended if it is to be kept. `None` stands for no change.
pub fn trust_list_after_init(keep: bool, data: Option<Vec<u8>>, hash: [u8; 32]) -> (r: Result<
    Option<String>,
    ConfigError,
>)
    ensures
        if !keep {
            r matches Ok(Some(text)) && text@ == with_hash(seq![], hash@)
        } else if data matches Some(bytes) && !valid_utf8(bytes@) {
            r is Err && r->Err_0 == ConfigError::Utf8
        } else {
            match read_hashes(lines_of(list_text(data))) {
                Err(line) => r is Err && r->Err_0 == ConfigError::TrustList(
                    ProxyError::InvalidHash { line: line as u64 },
                ),
                Ok(list) => if list.contains(hash@) {
                    r matches Ok(None)
                } else {
                    r matches Ok(Some(text)) && text@ == with_hash(list_text(data), hash@)
                },
            }
        },
{
    if keep {
        import_hash(data, hash)
    } else {
        Ok(Some(new_hash_list(&hash)))
    }
}

proof fn lemma_line_end_append(s: Seq<char>, t: Seq<char>)
    requires
        line_end(s) < s.len(),
    ensures
        line_end(s + t) == line_end(s),
    decreases s.len(),
{
    if s.len() > 0 && s[0] != '\n' {
        assert((s + t).drop_first() =~= s.drop_first() + t);
        lemma_line_end_append(s.drop_first(), t);
    }
}

proof fn lemma_line_end_found(s: Seq<char>)
    requires
        s.len() > 0,
        s.last() == '\n',
    ensures
        line_end(s) < s.len(),
    decreases s.len(),
{
    if s[0] != '\n' {
        lemma_line_end_found(s.drop_first());
    }
}

proof fn lemma_line_end_last(s: Seq<char>)
    requires
        line_end(s) == s.len(),
    ensures
        line_end(s.push('\n')) == s.len(),
    decreases s.len(),
{
    if s.len() > 0 {
        assert(s.push('\n').drop_first() =~= s.drop_first().push('\n'));
        lemma_line_end_last(s.drop_first());
    }
}

/// Lines after the end of a line are lines of their own.
proof fn lemma_lines_append(s: Seq<char>, t: Seq<char>)
    requires
        s.len() == 0 || s.last() == '\n',
    ensures
        lines_of(s + t) == lines_of(s) + lines_of(t),
    decreases s.len(),
{
    if s.len() == 0 {
        assert(s + t =~= t);
        assert(lines_of(s) + lines_of(t) =~= lines_of(t));
    } else {
        crate::text::lemma_line_end_bounds(s);
        lemma_line_end_found(s);
        lemma_line_end_append(s, t);
        let e = line_end(s);
        let rest = s.skip(e + 1);
        assert((s + t).take(e) =~= s.take(e));
        assert((s + t).skip(e + 1) =~= rest + t);
        if rest.len() > 0 {
            assert(rest.last() == s.last());
        }
        lemma_lines_append(rest, t);
        assert(lines_of(s + t) =~= lines_of(s) + lines_of(t));
    }
}

/// The two lists of lines say the same once white space is removed.
spec fn same_trimmed(a: Seq<Seq<char>>, b: Seq<Seq<char>>) -> bool {
    a.len() == b.len() && forall|i: int|
        0 <= i < a.len() ==> trimmed(#[trigger] a[i]) == trimmed(b[i])
}

proof fn lemma_trim_push(s: Seq<char>, c: char)
    requires
        white_space(c),
    ensures
        trimmed(s.push(c)) == trimmed(s),
    decreases s.len(),
{
    if s.len() == 0 {
        assert(s.push(c).drop_first() =~= seq![]);
        assert(trim_start(s.push(c)) == trim_start(s.push(c).drop_first()));
        assert(s =~= seq![]);
    } else if white_space(s[0]) {
        assert(s.push(c).drop_first() =~= s.drop_first().push(c));
        lemma_trim_push(s.drop_first(), c);
    } else {
        assert(s.push(c).drop_last() =~= s);
    }
}

/// Ending the last line changes nothing but white space.
proof fn lemma_lines_end(s: Seq<char>)
    requires
        s.len() > 0,
        s.last() != '\n',
    ensures
        same_trimmed(lines_of(s.push('\n')), lines_of(s)),
    decreases s.len(),
{
    let t = s.push('\n');
    crate::text::lemma_line_end_bounds(s);
    let e = line_end(s);
    if e == s.len() {
        lemma_line_end_last(s);
        assert(t.take(e) =~= s);
        assert(lines_of(t.skip(e + 1)) == Seq::<Seq<char>>::empty());
        assert(lines_of(t) =~= seq![without_return(s)]);
        if s.last() == '\r' {
            assert(white_space('\r'));
            assert(s.drop_last().push('\r') =~= s);
            lemma_trim_push(s.drop_last(), '\r');
        }
    } else {
        lemma_line_end_append(s, seq!['\n']);
        assert(s + seq!['\n'] =~= t);
        let rest = s.skip(e + 1);
        assert(s[e] == '\n') by {
            lemma_line_end_char(s);
        }
        assert(rest.len() > 0);
        assert(rest.last() == s.last());
        assert(t.take(e) =~= s.take(e));
        assert(t.skip(e + 1) =~= rest.push('\n'));
        lemma_lines_end(rest);
        let head = seq![without_return(s.take(e))];
        let a = lines_of(rest.push('\n'));
        let b = lines_of(rest);
        assert(lines_of(t) =~= head + a);
        assert(lines_of(s) =~= head + b);
        assert forall|i: int| 0 <= i < (head + a).len() implies trimmed(#[trigger] (head + a)[i])
            == trimmed((head + b)[i]) by {
            if i > 0 {
                assert(trimmed(a[i - 1]) == trimmed(b[i - 1]));
            }
        }
    }
}

proof fn lemma_line_end_char(s: Seq<char>)
    requires
        line_end(s) < s.len(),
    ensures
        s[line_end(s)] == '\n',
    decreases s.len(),
{
    if s.len() > 0 && s[0] != '\n' {
        lemma_line_end_char(s.drop_first());
        crate::text::lemma_line_end_bounds(s.drop_first());
    }
}

proof fn lemma_same_hashes(a: Seq<Seq<char>>, b: Seq<Seq<char>>)
    requires
        same_trimmed(a, b),
    ensures
        read_hashes(a) == read_hashes(b),
    decreases a.len(),
{
    if a.len() > 0 {
        assert(trimmed(a[a.len() - 1]) == trimmed(b[b.len() - 1]));
        assert forall|i: int| 0 <= i < a.drop_last().len() implies trimmed(
            #[trigger] a.drop_last()[i],
        ) == trimmed(b.drop_last()[i]) by {
            assert(trimmed(a[i]) == trimmed(b[i]));
        }
        lemma_same_hashes(a.drop_last(), b.drop_last());
    }
}

/// Hexadecimal text has neither white space nor line ends nor comments.
proof fn lemma_hash_text(hash: Seq<u8>)
    requires
        hash.len() == 32,
    ensures
        forall|i: int|
            0 <= i < 64 ==> !white_space(#[trigger] hex_text(hash)[i]) && hex_text(hash)[i] != '#',
{
    assert forall|i: int| 0 <= i < 64 implies !white_space(#[trigger] hex_text(hash)[i])
        && hex_text(hash)[i] != '#' by {
        let c = hex_text(hash)[i];
        let n = if i % 2 == 0 {
            hash[i / 2] as int / 16
        } else {
            hash[i / 2] as int % 16
        };
        assert(c == hex_digit(n));
        assert(0 <= n < 16);
    }
}

proof fn lemma_line_end_none(s: Seq<char>)
    requires
        forall|i: int| 0 <= i < s.len() ==> #[trigger] s[i] != '\n',
    ensures
        line_end(s) == s.len(),
    decreases s.len(),
{
    if s.len() > 0 {
        lemma_line_end_none(s.drop_first());
    }
}

/// A fingerprint that was imported is in the trust list, after all that the
/// list held before.
pub proof fn imported_hash_is_trusted(contents: Seq<char>, hash: Seq<u8>)
    requires
        hash.len() == 32,
        read_hashes(lines_of(contents)) is Ok,
        !read_hashes(lines_of(contents))->Ok_0.contains(hash),
    ensures
        read_hashes(lines_of(with_hash(contents, hash))) == Ok::<Seq<Seq<u8>>, nat>(
            read_hashes(lines_of(contents))->Ok_0.push(hash),
        ),
{
    let text = hex_text(hash);
    let head = if contents.len() > 0 && contents.last() != '\n' {
        contents.push('\n')
    } else {
        contents
    };
    if contents.len() > 0 && contents.last() != '\n' {
        lemma_lines_end(contents);
        lemma_same_hashes(lines_of(head), lines_of(contents));
        assert(contents + seq!['\n'] =~= head);
    } else {
        assert(contents + seq![] =~= head);
    }
    let line = text.push('\n');
    assert(with_hash(contents, hash) =~= head + line);
    lemma_lines_append(head, line);
    lemma_hash_text(hash);
    assert forall|i: int| 0 <= i < text.len() implies #[trigger] text[i] != '\n' by {
        assert(!white_space(text[i]));
        assert(white_space('\n'));
    }
    lemma_line_end_none(text);
    lemma_line_end_last(text);
    assert(line.take(64) =~= text);
    assert(lines_of(line.skip(65)) == Seq::<Seq<char>>::empty());
    assert(text.last() != '\r') by {
        assert(!white_space(text[63]));
        assert(white_space('\r'));
    }
    assert(lines_of(line) =~= seq![text]);
    let all = lines_of(head) + seq![text];
    assert(all.drop_last() =~= lines_of(head));
    assert(all.last() == text);
    assert(!white_space(text[0]) && !white_space(text[63]));
    assert(trimmed(text) == text);
    hex_reads_back(hash);
    assert(is_hash(text));
    assert(!is_blank(text));
}

/// Importing a fingerprint twice is the same as importing it once: the list
/// holds it, so nothing is written.
pub proof fn import_is_idempotent(contents: Seq<char>, hash: Seq<u8>)
    requires
        hash.len() == 32,
        read_hashes(lines_of(contents)) is Ok,
        !read_hashes(lines_of(contents))->Ok_0.contains(hash),
    ensures
        read_hashes(lines_of(with_hash(contents, hash))) is Ok,
        read_hashes(lines_of(with_hash(contents, hash)))->Ok_0.contains(hash),
{
    imported_hash_is_trusted(contents, hash);
    let list = read_hashes(lines_of(contents))->Ok_0;
    assert(list.push(hash)[list.len() as int] == hash);
}

} // verus!
