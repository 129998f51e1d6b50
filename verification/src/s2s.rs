//! The control connection between a proxy and its backend, and what master
//! servers are told.
use crate::certificate::{x509_fields, Certificate};
use crate::legacy::browser::BrowserInfo;
use crate::proxy::TrustedProxies;
use crate::text::{append, decimal, format_decimal};
use vstd::prelude::*;

verus! {

/// The most bytes of a backend's description.
pub const MAX_SERVER_INFO: usize = 0x8000;

/// The most bytes of a master server's answer.
pub const MAX_MASTER_RESPONSE: usize = 0x4000;

/// The path of the description on the control endpoint.
pub const SERVER_INFO_PATH: &'static str = "/server-info";

/// A backend's description of itself. Its ports refer to the host that serves
/// the authenticated control endpoint.
#[derive(Clone, Debug, PartialEq, Eq)]
pub struct ServerInfo {
    pub browser_info: BrowserInfo,
    pub game_port_v4: u16,
    pub game_port_v6: u16,
}

/// The ports that a game server listens on.
#[derive(Clone, Copy, Debug, PartialEq, Eq)]
pub struct Ports {
    pub game_v4: u16,
    pub game_v6: u16,
}

/// The description that a game server gives of itself.
pub fn server_info(browser_info: BrowserInfo, ports: Ports) -> (r: ServerInfo)
    ensures
        r == (ServerInfo {
            browser_info,
            game_port_v4: ports.game_v4,
            game_port_v6: ports.game_v6,
        }),
{
    ServerInfo { browser_info, game_port_v4: ports.game_v4, game_port_v6: ports.game_v6 }
}

/// Why the control connection cannot be used.
#[derive(Clone, Copy, Debug, PartialEq, Eq, Structural)]
pub enum S2sError {
    /// The backend reports no active game ports.
    NoGamePorts,
    /// The game ports of the backend changed.
    PortsChanged,
    /// The client certificate cannot be read.
    BadEncoding,
    /// The client's key is not trusted.
    UnknownIssuer,
    /// The master server wants a challenge to be answered.
    NeedChallenge,
    /// The master server wants the description that it was given.
    NeedInfo,
    /// The master server refused the registration.
    Refused,
}

/// A backend must report both game ports before it can be used.
pub fn discover(info: ServerInfo) -> (r: Result<ServerInfo, S2sError>)
    ensures
        if info.game_port_v4 > 0 && info.game_port_v6 > 0 {
            r is Ok && r->Ok_0 == info
        } else {
            r is Err && r->Err_0 == S2sError::NoGamePorts
        },
{
    if info.game_port_v4 > 0 && info.game_port_v6 > 0 {
        Ok(info)
    } else {
        Err(S2sError::NoGamePorts)
    }
}

/// The description that is registered: the backend's, under the fingerprint
/// of the proxy. The game ports must be those that were discovered.
pub fn registered_info(info: ServerInfo, initial: Ports, hash: [u8; 32]) -> (r: Result<
    BrowserInfo,
    S2sError,
>)
    ensures
        if info.game_port_v4 == initial.game_v4 && info.game_port_v6 == initial.game_v6 {
            r is Ok && r->Ok_0 == (BrowserInfo {
                cert_sha256_fingerprint: hash,
                ..info.browser_info
            })
        } else {
            r is Err && r->Err_0 == S2sError::PortsChanged
        },
{
    if info.game_port_v4 == initial.game_v4 && info.game_port_v6 == initial.game_v6 {
        let mut browser_info = info.browser_info;
        browser_info.cert_sha256_fingerprint = hash;
        Ok(browser_info)
    } else {
        Err(S2sError::PortsChanged)
    }
}

/// The protocol that a proxy of native clients registers.
pub const NATIVE_SCHEME: &'static str = "ddrs-0.1+quic";

/// The protocol that a proxy of old clients registers.
pub const LEGACY_SCHEME: &'static str = "tw-0.6+udp";

/// The address that a registration announces: the host that connects, at the
/// given port.
pub open spec fn announced_address(scheme: Seq<char>, port: u16) -> Seq<char> {
    scheme + "://connecting-address.invalid:"@ + decimal(port as nat)
}

/// The address that a registration announces.
pub fn address_header(scheme: &str, port: u16) -> (r: String)
    ensures
        r@ == announced_address(scheme@, port),
{
    let mut r = scheme.to_owned();
    append(&mut r, "://connecting-address.invalid:");
    append(&mut r, format_decimal(port as u64).as_str());
    r
}

/// The answer of a master server.
#[derive(Clone, Copy, Debug, PartialEq, Eq, Structural)]
pub enum RegisterResponse {
    Success,
    NeedChallenge,
    NeedInfo,
    Error,
}

/// What the answer of a master server means. Challenges are not supported.
pub fn register(response: RegisterResponse) -> (r: Result<(), S2sError>)
    ensures
        r == match response {
            RegisterResponse::Success => Ok::<(), S2sError>(()),
            RegisterResponse::NeedChallenge => Err::<(), S2sError>(S2sError::NeedChallenge),
            RegisterResponse::NeedInfo => Err::<(), S2sError>(S2sError::NeedInfo),
            RegisterResponse::Error => Err::<(), S2sError>(S2sError::Refused),
        },
{
    match response {
        RegisterResponse::Success => Ok(()),
        RegisterResponse::NeedChallenge => Err(S2sError::NeedChallenge),
        RegisterResponse::NeedInfo => Err(S2sError::NeedInfo),
        RegisterResponse::Error => Err(S2sError::Refused),
    }
}

/// One round of registration: the master servers are tried in order until one
/// takes it.
#[derive(Clone, Copy, Debug, PartialEq, Eq)]
pub struct RegisterRound {
    pub masters: usize,
    pub tried: usize,
    pub done: bool,
}

/// The master server to try next.
pub open spec fn next_of(round: RegisterRound) -> Option<usize> {
    if round.done || round.tried >= round.masters {
        None
    } else {
        Some(round.tried)
    }
}

impl RegisterRound {
    pub fn new(masters: usize) -> (r: Self)
        ensures
            r == (RegisterRound { masters, tried: 0, done: false }),
    {
        RegisterRound { masters, tried: 0, done: false }
    }

    /// The master server to try next.
    pub fn next(&self) -> (r: Option<usize>)
        ensures
            r == next_of(*self),
            r matches Some(i) ==> i < self.masters,
    {
        if self.done || self.tried >= self.masters {
            None
        } else {
            Some(self.tried)
        }
    }

    /// Takes note of how the attempt went.
    pub fn tried(&mut self, success: bool)
        requires
            next_of(*old(self)) is Some,
        ensures
            *final(self) == (RegisterRound {
                tried: (old(self).tried + 1) as usize,
                done: success,
                ..*old(self)
            }),
    {
        self.tried += 1;
        self.done = success;
    }
}

/// A round ends once a master server took the registration, and at the latest
/// when all have been tried.
pub proof fn round_ends(round: RegisterRound)
    ensures
        round.done ==> next_of(round) is None,
        round.tried == round.masters ==> next_of(round) is None,
        !round.done && round.tried < round.masters ==> next_of(round) == Some(round.tried),
{
}

/// What a registration loop keeps track of.
#[derive(Clone, Copy, Debug, PartialEq, Eq)]
pub struct RegisterState {
    pub serial: u64,
}

impl RegisterState {
    /// The serial number of the next description.
    pub fn next_serial(&mut self) -> (r: u64)
        requires
            old(self).serial < u64::MAX,
        ensures
            r == old(self).serial + 1,
            final(self).serial == r,
    {
        self.serial += 1;
        self.serial
    }
}

/// The control endpoint is served only if somebody is trusted.
pub fn is_served(trusted: &TrustedProxies) -> (r: bool)
    ensures
        r == (trusted.hashes().len() > 0),
{
    trusted.public_key_hashes.len() > 0
}

/// Whether the certificate belongs to a trusted key.
pub open spec fn verified_client(hashes: Seq<Seq<u8>>, der: Seq<u8>) -> Result<(), S2sError> {
    match x509_fields(der) {
        None => Err(S2sError::BadEncoding),
        Some(fields) => match fields.fingerprint {
            None => Err(S2sError::BadEncoding),
            Some(hash) => if hashes.contains(hash) {
                Ok(())
            } else {
                Err(S2sError::UnknownIssuer)
            },
        },
    }
}

/// Checks the certificate of a client of the control endpoint: its key must
/// be trusted.
pub fn verify_client_cert(trusted: &TrustedProxies, der: &[u8]) -> (r: Result<(), S2sError>)
    ensures
        r == verified_client(trusted.hashes(), der@),
{
    let cert = match Certificate::from_der(der) {
        Some(cert) => cert,
        None => {
            return Err(S2sError::BadEncoding);
        },
    };
    match cert.fingerprint {
        None => Err(S2sError::BadEncoding),
        Some(hash) => if trusted.contains(&hash) {
            Ok(())
        } else {
            Err(S2sError::UnknownIssuer)
        },
    }
}

/// Nobody gets through an empty trust list.
pub proof fn empty_trust_admits_nobody(der: Seq<u8>)
    ensures
        verified_client(Seq::empty(), der) is Err,
{
}

/// A server describes itself with its own ports, both of which must be there
/// for it to be used.
pub proof fn servers_are_used_with_both_ports(
    browser: BrowserInfo,
    ports: Ports,
    info: ServerInfo,
    r: Result<ServerInfo, S2sError>,
)
    requires
        call_ensures(server_info, (browser, ports), info),
        call_ensures(discover, (info,), r),
    ensures
        info.browser_info == browser,
        info.game_port_v4 == ports.game_v4,
        info.game_port_v6 == ports.game_v6,
        r is Ok <==> ports.game_v4 != 0 && ports.game_v6 != 0,
        r matches Ok(same) ==> same == info,
        r matches Err(e) ==> e == S2sError::NoGamePorts,
{
}

/// What is registered is the backend's description under the fingerprint of
/// the proxy, as long as the ports are those that were discovered.
pub proof fn proxies_register_the_backend(
    info: ServerInfo,
    initial: Ports,
    hash: [u8; 32],
    r: Result<BrowserInfo, S2sError>,
)
    requires
        call_ensures(registered_info, (info, initial, hash), r),
    ensures
        r is Ok <==> info.game_port_v4 == initial.game_v4 && info.game_port_v6 == initial.game_v6,
        r matches Err(e) ==> e == S2sError::PortsChanged,
        r matches Ok(b) ==> {
            &&& b.cert_sha256_fingerprint == hash
            &&& b == (BrowserInfo { cert_sha256_fingerprint: hash, ..info.browser_info })
        },
{
}

/// The address that is announced is that of the host that connects, at the
/// port in decimal.
pub proof fn announced_port_is_written_in_decimal(
    scheme: &str,
    port: u16,
    r: String,
    number: String,
)
    requires
        call_ensures(address_header, (scheme, port), r),
        call_ensures(format_decimal, (port as u64,), number),
    ensures
        r@ == scheme@ + "://connecting-address.invalid:"@ + number@,
{
}

/// Only a success is one. Every other answer is an error of its own.
pub proof fn only_success_registers(response: RegisterResponse, r: Result<(), S2sError>)
    requires
        call_ensures(register, (response,), r),
    ensures
        r is Ok <==> response == RegisterResponse::Success,
        r == Err::<(), S2sError>(S2sError::NeedChallenge) <==> response
            == RegisterResponse::NeedChallenge,
        r == Err::<(), S2sError>(S2sError::NeedInfo) <==> response == RegisterResponse::NeedInfo,
        r == Err::<(), S2sError>(S2sError::Refused) <==> response == RegisterResponse::Error,
{
}

/// A round starts with the first master server. After an attempt that failed
/// the next one is tried, if there is one; after one that did not, none is.
pub proof fn masters_are_tried_in_order(
    masters: usize,
    fresh: RegisterRound,
    first: Option<usize>,
    round: &mut RegisterRound,
    success: bool,
    before: Option<usize>,
    after: Option<usize>,
)
    requires
        call_ensures(RegisterRound::new, (masters,), fresh),
        call_ensures(RegisterRound::next, (&fresh,), first),
        call_ensures(RegisterRound::next, (&*old(round),), before),
        call_ensures(RegisterRound::tried, (round, success), ()),
        call_ensures(RegisterRound::next, (&*final(round),), after),
        before is Some,
    ensures
        fresh.masters == masters,
        masters > 0 ==> first == Some(0usize),
        masters == 0 ==> first is None,
        before->0 < old(round).masters,
        final(round).masters == old(round).masters,
        success ==> after is None,
        !success && before->0 + 1 < old(round).masters ==> after is Some && after->0 == before->0
            + 1,
        !success && before->0 + 1 == old(round).masters ==> after is None,
{
}

/// Serial numbers count up by one.
pub proof fn serial_numbers_count_up(state: &mut RegisterState, r: u64)
    requires
        call_ensures(RegisterState::next_serial, (state,), r),
    ensures
        r == old(state).serial + 1,
        final(state).serial == r,
{
}

/// The control endpoint is served, and lets a client in, only for keys that
/// are trusted.
pub proof fn only_trusted_keys_are_let_in(
    trusted: &TrustedProxies,
    der: &[u8],
    r: Result<(), S2sError>,
    cert: Option<Certificate>,
    known: bool,
    served: bool,
)
    requires
        call_ensures(verify_client_cert, (trusted, der), r),
        call_ensures(Certificate::from_der, (der,), cert),
        cert matches Some(c) ==> (c.fingerprint matches Some(print) ==> call_ensures(
            TrustedProxies::contains,
            (trusted, &print),
            known,
        )),
        call_ensures(is_served, (trusted,), served),
    ensures
        r is Ok <==> cert is Some && cert->0.fingerprint is Some && known,
        cert is Some && cert->0.fingerprint is Some && !known ==> r == Err::<(), S2sError>(
            S2sError::UnknownIssuer,
        ),
        cert is None || cert->0.fingerprint is None ==> r == Err::<(), S2sError>(
            S2sError::BadEncoding,
        ),
        served <==> trusted.public_key_hashes@.len() > 0,
{
    if let Some(c) = cert {
        assert(c.fields() == x509_fields(der@)->0);
    }
}

} // verus!
