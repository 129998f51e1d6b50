//! Relaying connections to the backend. Payloads pass verbatim: each stream
//! keeps its byte order, and how it ends.
use crate::certificate::{certificate_der, x509_fields, Certificate, SigningKey};
use crate::config::{identity_of, Config, ConfigError};
use crate::hash::{hex_bytes, is_hash, parse_hash};
use crate::proxy::{
    create_proxy_certificate, der_octets, payload_bytes, Endpoint, ProxyError, FORWARDING_VERSION,
    MAX_FORWARDING_SIZE,
};
use crate::text::trimmed;
use vstd::prelude::*;

verus! {

/// The streams of one direction that are relayed at a time.
pub const MAX_UNI_STREAMS: usize = 32;

/// The streams of both directions that are relayed at a time.
pub const MAX_BI_STREAMS: usize = 16;

/// The most bytes that are read from a stream at once.
pub const MAX_CHUNK: usize = 0x1_0000;

/// What happens to a client that wants to connect.
#[derive(Clone, Copy, Debug, PartialEq, Eq, Structural)]
pub enum Admission {
    /// There are too many already.
    Refuse,
    /// Its address must be validated first.
    Retry,
    Accept,
}

/// Decides about a client that wants to connect.
pub fn admission(connections: usize, max_connections: usize, address_validated: bool) -> (r: Admission)
    ensures
        r == if connections >= max_connections {
            Admission::Refuse
        } else if !address_validated {
            Admission::Retry
        } else {
            Admission::Accept
        },
{
    if connections >= max_connections {
        Admission::Refuse
    } else if !address_validated {
        Admission::Retry
    } else {
        Admission::Accept
    }
}

/// The game endpoint of the backend: on the host of its control endpoint, at
/// the port for that family.
pub open spec fn game_endpoint(control: Endpoint, port_v4: u16, port_v6: u16) -> Endpoint {
    match control {
        Endpoint::V4 { ip, port } => Endpoint::V4 { ip, port: port_v4 },
        Endpoint::V6 { ip, port } => Endpoint::V6 { ip, port: port_v6 },
    }
}

/// The game endpoint of the backend.
pub fn backend_game(control: Endpoint, port_v4: u16, port_v6: u16) -> (r: Endpoint)
    ensures
        r == game_endpoint(control, port_v4, port_v6),
{
    match control {
        Endpoint::V4 { ip, port: _ } => Endpoint::V4 { ip, port: port_v4 },
        Endpoint::V6 { ip, port: _ } => Endpoint::V6 { ip, port: port_v6 },
    }
}

/// The local endpoint for connections to a backend: any address of the
/// backend's family, at any port.
pub fn bind_endpoint(backend: Endpoint) -> (r: Endpoint)
    ensures
        match backend {
            Endpoint::V4 { .. } => r matches Endpoint::V4 { ip, port } && port == 0 && forall|i: int|
                0 <= i < 4 ==> #[trigger] ip@[i] == 0,
            Endpoint::V6 { .. } => r matches Endpoint::V6 { ip, port } && port == 0 && forall|i: int|
                0 <= i < 16 ==> #[trigger] ip@[i] == 0,
        },
{
    match backend {
        Endpoint::V4 { .. } => Endpoint::V4 { ip: [0u8;4], port: 0 },
        Endpoint::V6 { .. } => Endpoint::V6 { ip: [0u8;16], port: 0 },
    }
}

/// How a connection was closed.
#[derive(Clone, Debug, PartialEq, Eq)]
pub enum CloseReason {
    /// The peer closed it with a code and a reason.
    Application { code: u64, reason: Vec<u8> },
    /// It broke.
    Broken,
}

/// How a connection is to be closed.
#[derive(Clone, Debug, PartialEq, Eq)]
pub enum Close<T> {
    /// With this code and reason.
    With { code: u64, reason: T },
    /// As part of a shutdown, for this reason.
    Shutdown { reason: T },
}

impl View for Close<Vec<u8>> {
    type V = Close<Seq<u8>>;

    open spec fn view(&self) -> Close<Seq<u8>> {
        match self {
            Close::With { code, reason } => Close::With { code: *code, reason: reason@ },
            Close::Shutdown { reason } => Close::Shutdown { reason: reason@ },
        }
    }
}

/// How the other side is closed when one side was.
pub open spec fn propagated(reason: CloseReason) -> Close<Seq<u8>> {
    match reason {
        CloseReason::Application { code, reason } => Close::With { code, reason: reason@ },
        CloseReason::Broken => Close::Shutdown {
            reason: vstd::utf8::encode_utf8("proxy peer disconnected"@),
        },
    }
}

fn text_bytes(text: &str) -> (r: Vec<u8>)
    ensures
        r@ == vstd::utf8::encode_utf8(text@),
{
    vstd::slice::slice_to_vec(text.as_bytes())
}

/// How the other side is closed when one side was: the same way, so that both
/// see one code and one reason.
pub fn propagate_close(reason: CloseReason) -> (r: Close<Vec<u8>>)
    ensures
        r@ == propagated(reason),
{
    match reason {
        CloseReason::Application { code, reason } => Close::With { code, reason },
        CloseReason::Broken => Close::Shutdown { reason: text_bytes("proxy peer disconnected") },
    }
}

/// How both sides are closed after the relay between them ended.
pub struct RelayEnd<T> {
    pub front: Option<Close<T>>,
    pub back: Option<Close<T>>,
}

impl View for RelayEnd<Vec<u8>> {
    type V = RelayEnd<Seq<u8>>;

    open spec fn view(&self) -> RelayEnd<Seq<u8>> {
        RelayEnd {
            front: match self.front {
                Some(close) => Some(close@),
                None => None,
            },
            back: match self.back {
                Some(close) => Some(close@),
                None => None,
            },
        }
    }
}

/// A side that was closed closes the other one. If none was, both are closed.
pub open spec fn relay_ended(front: Option<CloseReason>, back: Option<CloseReason>) -> RelayEnd<
    Seq<u8>,
> {
    let failed = Close::Shutdown { reason: vstd::utf8::encode_utf8("proxy relay failed"@) };
    match (front, back) {
        (Some(reason), _) => RelayEnd { front: None, back: Some(propagated(reason)) },
        (None, Some(reason)) => RelayEnd { front: Some(propagated(reason)), back: None },
        (None, None) => RelayEnd { front: Some(failed), back: Some(failed) },
    }
}

/// How both sides are closed after the relay between them ended.
pub fn end_relay(front: Option<CloseReason>, back: Option<CloseReason>) -> (r: RelayEnd<Vec<u8>>)
    ensures
        r@ == relay_ended(front, back),
{
    if let Some(reason) = front {
        return RelayEnd { front: None, back: Some(propagate_close(reason)) };
    }
    if let Some(reason) = back {
        return RelayEnd { front: Some(propagate_close(reason)), back: None };
    }
    RelayEnd {
        front: Some(Close::Shutdown { reason: text_bytes("proxy relay failed") }),
        back: Some(Close::Shutdown { reason: text_bytes("proxy relay failed") }),
    }
}

/// A connection that is left without a close was closed already: after the
/// relay ended, none stays open.
pub proof fn no_side_stays_open(front: Option<CloseReason>, back: Option<CloseReason>)
    ensures
        relay_ended(front, back).front is Some || front is Some,
        relay_ended(front, back).back is Some || back is Some,
{
}

/// What happens while a stream is copied.
#[derive(Clone, Copy, Debug, PartialEq, Eq, Structural)]
pub enum StreamEvent {
    /// Data arrived from the source.
    Data,
    /// The source has no more data.
    Finished,
    /// The source was reset.
    Reset { code: u64 },
    /// The target does not want more data, or has all of it.
    Stopped { code: Option<u64> },
    /// Data was handed to the target.
    Written,
    /// The connection broke.
    Broken,
}

/// What is to be done about a stream.
#[derive(Clone, Copy, Debug, PartialEq, Eq, Structural)]
pub enum StreamAction {
    /// Wait for data, or for the target to stop.
    Read,
    /// Hand the data to the target.
    Write,
    /// End the target, and wait until it has everything.
    Finish,
    /// Stop the source.
    StopSource { code: u64 },
    /// Reset the target.
    ResetTarget { code: u64 },
    /// Nothing: the copy is complete.
    Done,
    /// Nothing: the copy failed.
    Fail,
}

/// Where the copy of a stream stands.
#[derive(Clone, Copy, Debug, PartialEq, Eq, Structural)]
pub enum StreamState {
    Reading,
    Writing,
    Finishing,
    Ended,
}

/// The next state of a copy and what is to be done. Events that cannot occur
/// in a state end it.
pub open spec fn stream_step(state: StreamState, event: StreamEvent) -> (StreamState, StreamAction) {
    match (state, event) {
        (StreamState::Reading, StreamEvent::Data) => (StreamState::Writing, StreamAction::Write),
        (StreamState::Reading, StreamEvent::Finished) => (
            StreamState::Finishing,
            StreamAction::Finish,
        ),
        (StreamState::Reading, StreamEvent::Reset { code }) => (
            StreamState::Ended,
            StreamAction::ResetTarget { code },
        ),
        (StreamState::Writing, StreamEvent::Written) => (StreamState::Reading, StreamAction::Read),
        (
            StreamState::Reading | StreamState::Writing | StreamState::Finishing,
            StreamEvent::Stopped { code },
        ) => (
            StreamState::Ended,
            match code {
                Some(code) => StreamAction::StopSource { code },
                None => StreamAction::Done,
            },
        ),
        _ => (StreamState::Ended, StreamAction::Fail),
    }
}

/// Decides what follows an event while a stream is copied.
pub fn copy_stream(state: StreamState, event: StreamEvent) -> (r: (StreamState, StreamAction))
    ensures
        r == stream_step(state, event),
{
    match (state, event) {
        (StreamState::Reading, StreamEvent::Data) => (StreamState::Writing, StreamAction::Write),
        (StreamState::Reading, StreamEvent::Finished) => (
            StreamState::Finishing,
            StreamAction::Finish,
        ),
        (StreamState::Reading, StreamEvent::Reset { code }) => (
            StreamState::Ended,
            StreamAction::ResetTarget { code },
        ),
        (StreamState::Writing, StreamEvent::Written) => (StreamState::Reading, StreamAction::Read),
        (
            StreamState::Reading | StreamState::Writing | StreamState::Finishing,
            StreamEvent::Stopped { code },
        ) => (
            StreamState::Ended,
            match code {
                Some(code) => StreamAction::StopSource { code },
                None => StreamAction::Done,
            },
        ),
        _ => (StreamState::Ended, StreamAction::Fail),
    }
}

/// Each stream keeps how it ends: a reset of the source resets the target
/// with its code, a stop of the target stops the source with its code, and
/// the end of the source ends the target.
pub proof fn stream_ends_are_passed_on(state: StreamState, code: u64)
    ensures
        stream_step(StreamState::Reading, StreamEvent::Reset { code }).1
            == (StreamAction::ResetTarget { code }),
        state != StreamState::Ended ==> stream_step(
            state,
            StreamEvent::Stopped { code: Some(code) },
        ).1 == (StreamAction::StopSource { code }),
        stream_step(StreamState::Reading, StreamEvent::Finished).1 == StreamAction::Finish,
{
}

/// Whether one more stream is taken.
pub fn takes_stream(open: usize, bidirectional: bool) -> (r: bool)
    ensures
        r == if bidirectional {
            open < MAX_BI_STREAMS
        } else {
            open < MAX_UNI_STREAMS
        },
{
    if bidirectional {
        open < MAX_BI_STREAMS
    } else {
        open < MAX_UNI_STREAMS
    }
}

/// The outcome of handing on a datagram.
#[derive(Clone, Copy, Debug, PartialEq, Eq, Structural)]
pub enum DatagramOutcome {
    Sent,
    TooLarge,
    Failed,
}

/// Whether datagrams are still relayed. One that is too large is dropped, as
/// datagrams may be.
pub fn datagram_goes_on(outcome: DatagramOutcome) -> (r: bool)
    ensures
        r == !(outcome is Failed),
{
    match outcome {
        DatagramOutcome::Sent | DatagramOutcome::TooLarge => true,
        DatagramOutcome::Failed => false,
    }
}

/// Why there is no connection to the backend.
#[derive(Clone, Copy, Debug, PartialEq, Eq, Structural)]
pub enum BackendError {
    /// The client presented no certificate.
    NoCertificate,
    /// The certificate of the client cannot be read.
    InvalidCertificate,
    /// The configuration cannot be used.
    Config(ConfigError),
    /// The identity of the client cannot be forwarded.
    Proxy(ProxyError),
}

/// The certificate of a client: the first one of the chain that it presented.
pub fn client_certificate(chain: &Vec<Vec<u8>>) -> (r: Result<Certificate, BackendError>)
    ensures
        if chain@.len() == 0 {
            r is Err && r->Err_0 == BackendError::NoCertificate
        } else if x509_fields(chain@[0]@) is None {
            r is Err && r->Err_0 == BackendError::InvalidCertificate
        } else {
            r matches Ok(cert) && cert.der@ == chain@[0]@ && cert.valid()
        },
{
    if chain.len() == 0 {
        return Err(BackendError::NoCertificate);
    }
    match Certificate::from_der(chain[0].as_slice()) {
        Some(cert) => Ok(cert),
        None => Err(BackendError::InvalidCertificate),
    }
}

/// What a connection to the backend takes: the certificate that forwards the
/// client's identity, the key that it was made with, the fingerprint that the
/// backend must have, and the idle timeout in seconds.
pub struct BackendOptions {
    pub backend_hash: [u8; 32],
    pub cert: Certificate,
    pub private_key: SigningKey,
    pub timeout_seconds: u64,
}

/// Prepares a connection to the backend for a client.
pub fn backend_options(config: &Config, original_addr: Endpoint, cert: &Certificate) -> (r: Result<
    BackendOptions,
    BackendError,
>)
    ensures
        match identity_of(*config) {
            Err(error) => r is Err && r->Err_0 == BackendError::Config(error),
            Ok((_, key)) => {
                let payload = payload_bytes(FORWARDING_VERSION, original_addr, cert.der@);
                if payload.len() > MAX_FORWARDING_SIZE {
                    r is Err && r->Err_0 == BackendError::Proxy(ProxyError::TooLarge)
                } else {
                    match certificate_der(key, Some(der_octets(payload))) {
                        None => r is Err && r->Err_0 == BackendError::Proxy(ProxyError::Signing),
                        Some(der) => if !is_hash(trimmed(config.backend_public_key_hash@)) {
                            r is Err && r->Err_0 == BackendError::Config(ConfigError::InvalidHash)
                        } else {
                            &&& r matches Ok(options)
                            &&& options.cert.der@ == der
                            &&& options.backend_hash@ == hex_bytes(
                                trimmed(config.backend_public_key_hash@),
                            )
                            &&& options.private_key.bytes@ == key
                            &&& crate::certificate::made_with(
                                options.cert,
                                options.private_key,
                                seq![der_octets(payload)],
                            )
                            &&& options.timeout_seconds == config.idle_timeout_seconds
                        },
                    }
                }
            },
        },
{
    let key = match config.identity() {
        Ok((_, key)) => key,
        Err(error) => {
            return Err(BackendError::Config(error));
        },
    };
    let forwarded = match create_proxy_certificate(&key, original_addr, cert) {
        Ok(forwarded) => forwarded,
        Err(error) => {
            return Err(BackendError::Proxy(error));
        },
    };
    match parse_hash(config.backend_public_key_hash.as_str()) {
        Some(backend_hash) => Ok(
            BackendOptions {
                backend_hash,
                cert: forwarded,
                private_key: key,
                timeout_seconds: config.idle_timeout_seconds,
            },
        ),
        None => Err(BackendError::Config(ConfigError::InvalidHash)),
    }
}

} // verus!
