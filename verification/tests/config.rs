use ddnet_rs::config::{
    default_backend_s2s, import_hash, keep_config, trust_list_after_init, Config, ConfigError,
    SocketV4, SocketV6,
};
use ddnet_rs::hash::{decode_hash, fmt_hash, parse_hash};
use ddnet_rs::proxy::{Endpoint, ProxyError, TrustedProxies};
use ddnet_rs::relay::{
    admission, backend_game, backend_options, bind_endpoint, client_certificate, copy_stream,
    datagram_goes_on, end_relay, propagate_close, takes_stream, Admission, BackendError, Close,
    CloseReason, DatagramOutcome, StreamAction, StreamEvent, StreamState,
};
use ddnet_rs::s2s::{
    address_header, discover, is_served, register, registered_info, server_info,
    verify_client_cert, Ports, RegisterResponse, RegisterRound, RegisterState, S2sError,
    NATIVE_SCHEME,
};
use ddnet_rs::legacy::browser::BrowserInfo;

fn v4() -> SocketV4 {
    SocketV4 {
        ip: [127, 0, 0, 1],
        port: 0,
    }
}

fn v6() -> SocketV6 {
    SocketV6 {
        ip: [0; 16],
        port: 0,
        flowinfo: 0,
        scope_id: 0,
    }
}

fn config() -> Config {
    Config::create(v4(), v6(), "00".repeat(32)).ok().unwrap()
}

#[test]
fn created_config_has_an_identity() {
    let config = config();
    assert_eq!(config.max_connections, 1024);
    assert_eq!(config.connect_timeout_seconds, 10);
    assert_eq!(config.idle_timeout_seconds, 30);
    assert_eq!(config.backend_server_name, "localhost");
    assert_eq!(config.backend_s2s, default_backend_s2s());
    let (cert, key) = config.identity().ok().unwrap();
    assert_eq!(config.private_key, hex::encode(key.bytes));
    assert_eq!(config.certificate, hex::encode(&cert.der));
    assert_eq!(config.hash().ok(), cert.fingerprint);
    assert_eq!(
        Config::create(v4(), v6(), "0".repeat(63)).err(),
        Some(ConfigError::InvalidHash)
    );
}

#[test]
fn broken_identities_are_told_apart() {
    let broken = |change: &dyn Fn(&mut Config)| {
        let mut config = config();
        change(&mut config);
        config.identity().err().unwrap()
    };
    assert_eq!(
        broken(&|c| c.private_key = "00".repeat(31)),
        ConfigError::InvalidKey
    );
    assert_eq!(
        broken(&|c| c.certificate = "xy".to_owned()),
        ConfigError::CertificateEncoding
    );
    assert_eq!(
        broken(&|c| c.certificate = "00".to_owned()),
        ConfigError::InvalidCertificate
    );
    assert_eq!(
        broken(&|c| c.private_key = "11".repeat(32)),
        ConfigError::Mismatch
    );
}

#[test]
fn imports_are_remembered_once() {
    let first = import_hash(None, [7; 32]).ok().unwrap().unwrap();
    assert_eq!(first, format!("{}\n", "07".repeat(32)));
    assert_eq!(
        import_hash(Some(first.clone().into_bytes()), [7; 32]).ok(),
        Some(None)
    );
    let mut open = first.clone();
    open.pop();
    let second = import_hash(Some(open.into_bytes()), [8; 32])
        .ok()
        .unwrap()
        .unwrap();
    assert_eq!(second, format!("{first}{}\n", "08".repeat(32)));
    let hashes = TrustedProxies::from_hash_list(&second).ok().unwrap();
    assert_eq!(hashes.public_key_hashes, vec![[7; 32], [8; 32]]);
}

#[test]
fn invalid_trust_lists_are_left_alone() {
    assert_eq!(
        import_hash(Some(b"invalid".to_vec()), [0; 32]).err(),
        Some(ConfigError::TrustList(ProxyError::InvalidHash { line: 1 }))
    );
    assert_eq!(
        import_hash(Some(vec![0xff]), [0; 32]).err(),
        Some(ConfigError::Utf8)
    );
}

#[test]
fn init_keeps_or_replaces() {
    let kept = config();
    let hash = kept.hash().ok().unwrap();
    let kept = keep_config(true, Some(kept)).unwrap();
    assert_eq!(kept.hash().ok(), Some(hash));
    assert!(keep_config(false, Some(kept)).is_none());
    assert!(keep_config(true, None).is_none());
    let mut invalid = config();
    invalid.private_key.clear();
    assert!(keep_config(true, Some(invalid)).is_none());
    let old = format!("{}\n", "07".repeat(32)).into_bytes();
    let list = trust_list_after_init(true, Some(old.clone()), hash)
        .ok()
        .unwrap()
        .unwrap();
    assert_eq!(list.lines().count(), 2);
    let list = trust_list_after_init(false, Some(b"broken".to_vec()), hash)
        .ok()
        .unwrap()
        .unwrap();
    assert_eq!(list, format!("{}\n", fmt_hash(&hash)));
}

#[test]
fn hashes_are_64_digits() {
    assert_eq!(decode_hash(&"aB".repeat(32)), Some([0xab; 32]));
    assert_eq!(decode_hash(&" a".repeat(32)), None);
    assert_eq!(parse_hash(&format!("\n {} ", "01".repeat(32))), Some([1; 32]));
    assert_eq!(fmt_hash(&[0xa1; 32]), "a1".repeat(32));
}

#[test]
fn backend_options_forward_the_client() {
    let config = config();
    let (client, _) = ddnet_rs::certificate::create_certifified_keys().unwrap();
    let addr = Endpoint::V4 {
        ip: [10, 0, 0, 1],
        port: 9,
    };
    let options = backend_options(&config, addr, &client).ok().unwrap();
    assert_eq!(options.backend_hash, [0; 32]);
    assert_eq!(options.timeout_seconds, 30);
    let trusted = TrustedProxies {
        public_key_hashes: vec![config.hash().ok().unwrap()],
    };
    let identity = trusted.resolve(&options.cert).unwrap().unwrap();
    assert_eq!(identity.addr, addr);
    assert_eq!(identity.cert, client);
    let mut broken = self::config();
    broken.backend_public_key_hash = "no".to_owned();
    assert_eq!(
        backend_options(&broken, addr, &client).err(),
        Some(BackendError::Config(ConfigError::InvalidHash))
    );
    assert_eq!(
        client_certificate(&Vec::new()).err(),
        Some(BackendError::NoCertificate)
    );
    assert_eq!(
        client_certificate(&vec![vec![1]]).err(),
        Some(BackendError::InvalidCertificate)
    );
    assert_eq!(client_certificate(&vec![client.der.clone()]).ok(), Some(client));
}

#[test]
fn relay_decisions() {
    assert_eq!(admission(4, 4, true), Admission::Refuse);
    assert_eq!(admission(3, 4, false), Admission::Retry);
    assert_eq!(admission(3, 4, true), Admission::Accept);
    let control = Endpoint::V4 {
        ip: [1, 2, 3, 4],
        port: 8315,
    };
    assert_eq!(
        backend_game(control, 10, 20),
        Endpoint::V4 {
            ip: [1, 2, 3, 4],
            port: 10
        }
    );
    assert_eq!(
        bind_endpoint(Endpoint::V6 {
            ip: [9; 16],
            port: 1
        }),
        Endpoint::V6 {
            ip: [0; 16],
            port: 0
        }
    );
    let closed = CloseReason::Application {
        code: 3,
        reason: b"test close reason".to_vec(),
    };
    assert_eq!(
        propagate_close(closed.clone()),
        Close::With {
            code: 3,
            reason: b"test close reason".to_vec()
        }
    );
    assert_eq!(
        propagate_close(CloseReason::Broken),
        Close::Shutdown {
            reason: b"proxy peer disconnected".to_vec()
        }
    );
    let end = end_relay(Some(closed.clone()), Some(CloseReason::Broken));
    assert!(end.front.is_none() && end.back.is_some());
    let end = end_relay(None, Some(closed));
    assert!(end.front.is_some() && end.back.is_none());
    let end = end_relay(None, None);
    assert_eq!(
        end.front,
        Some(Close::Shutdown {
            reason: b"proxy relay failed".to_vec()
        })
    );
    assert_eq!(end.front, end.back);
    assert!(takes_stream(31, false) && !takes_stream(32, false));
    assert!(takes_stream(15, true) && !takes_stream(16, true));
    assert!(datagram_goes_on(DatagramOutcome::TooLarge));
    assert!(!datagram_goes_on(DatagramOutcome::Failed));
}

#[test]
fn streams_keep_how_they_end() {
    let (state, action) = copy_stream(StreamState::Reading, StreamEvent::Data);
    assert_eq!((state, action), (StreamState::Writing, StreamAction::Write));
    assert_eq!(
        copy_stream(state, StreamEvent::Written),
        (StreamState::Reading, StreamAction::Read)
    );
    assert_eq!(
        copy_stream(state, StreamEvent::Stopped { code: Some(5) }),
        (StreamState::Ended, StreamAction::StopSource { code: 5 })
    );
    assert_eq!(
        copy_stream(StreamState::Reading, StreamEvent::Reset { code: 6 }),
        (StreamState::Ended, StreamAction::ResetTarget { code: 6 })
    );
    let (state, action) = copy_stream(StreamState::Reading, StreamEvent::Finished);
    assert_eq!((state, action), (StreamState::Finishing, StreamAction::Finish));
    assert_eq!(
        copy_stream(state, StreamEvent::Stopped { code: None }),
        (StreamState::Ended, StreamAction::Done)
    );
    assert_eq!(
        copy_stream(state, StreamEvent::Broken),
        (StreamState::Ended, StreamAction::Fail)
    );
}

fn browser_info() -> BrowserInfo {
    BrowserInfo {
        name: "test backend".to_owned(),
        map: "dm1".to_owned(),
        game_type: "dm".to_owned(),
        passworded: false,
        max_players: 32,
        max_ingame_players: 16,
        players: Vec::new(),
        cert_sha256_fingerprint: [1; 32],
        resource_server_url: Some("http://assets.example:3400/".to_owned()),
    }
}

#[test]
fn registration_goes_out_under_the_proxy() {
    let ports = Ports {
        game_v4: 8312,
        game_v6: 8317,
    };
    let info = server_info(browser_info(), ports);
    let discovered = discover(info.clone()).unwrap();
    assert_eq!((discovered.game_port_v4, discovered.game_port_v6), (8312, 8317));
    let registered = registered_info(info.clone(), ports, [9; 32]).unwrap();
    assert_eq!(registered.cert_sha256_fingerprint, [9; 32]);
    assert_eq!(registered.max_players, 32);
    assert_eq!(registered.name, "test backend");
    assert_eq!(
        registered_info(
            info,
            Ports {
                game_v4: 8312,
                game_v6: 1
            },
            [9; 32]
        ),
        Err(S2sError::PortsChanged)
    );
    let silent = server_info(
        browser_info(),
        Ports {
            game_v4: 0,
            game_v6: 1,
        },
    );
    assert_eq!(discover(silent), Err(S2sError::NoGamePorts));
    assert_eq!(
        address_header(NATIVE_SCHEME, 8310),
        "ddrs-0.1+quic://connecting-address.invalid:8310"
    );
    assert_eq!(register(RegisterResponse::Success), Ok(()));
    assert_eq!(
        register(RegisterResponse::NeedChallenge),
        Err(S2sError::NeedChallenge)
    );
    assert_eq!(register(RegisterResponse::NeedInfo), Err(S2sError::NeedInfo));
    assert_eq!(register(RegisterResponse::Error), Err(S2sError::Refused));
    let mut state = RegisterState { serial: 6 };
    assert_eq!(state.next_serial(), 7);
}

#[test]
fn masters_are_tried_in_order() {
    let mut round = RegisterRound::new(3);
    assert_eq!(round.next(), Some(0));
    round.tried(false);
    assert_eq!(round.next(), Some(1));
    round.tried(true);
    assert_eq!(round.next(), None);
    let mut round = RegisterRound::new(1);
    round.tried(false);
    assert_eq!(round.next(), None);
}

#[test]
fn control_endpoint_requires_trusted_key() {
    let (cert, _) = ddnet_rs::certificate::create_certifified_keys().unwrap();
    let trusted = TrustedProxies {
        public_key_hashes: vec![cert.fingerprint.unwrap()],
    };
    let other = TrustedProxies {
        public_key_hashes: vec![[0; 32]],
    };
    assert_eq!(verify_client_cert(&trusted, &cert.der), Ok(()));
    assert_eq!(
        verify_client_cert(&other, &cert.der),
        Err(S2sError::UnknownIssuer)
    );
    assert_eq!(verify_client_cert(&trusted, &[]), Err(S2sError::BadEncoding));
    assert_eq!(
        verify_client_cert(&TrustedProxies::new(), &cert.der),
        Err(S2sError::UnknownIssuer)
    );
    assert!(is_served(&trusted));
    assert!(!is_served(&TrustedProxies::new()));
}

/// The two files of a proxy. A configuration that cannot be read is missing.
#[derive(Default)]
struct Files {
    config: Option<Config>,
    hashes: Option<Vec<u8>>,
}

impl Files {
    fn import(&mut self, hash: [u8; 32]) -> Result<(), ConfigError> {
        if let Some(contents) = import_hash(self.hashes.clone(), hash)? {
            self.hashes = Some(contents.into_bytes());
        }
        Ok(())
    }

    fn init(&mut self, v4: SocketV4, v6: SocketV6, backend: String, keep: bool) {
        let config = match keep_config(keep, self.config.take()) {
            Some(config) => config,
            None => Config::create(v4, v6, backend).ok().unwrap(),
        };
        let hash = config.hash().ok().unwrap();
        self.config = Some(config);
        let contents = trust_list_after_init(keep, self.hashes.clone(), hash).unwrap();
        if let Some(contents) = contents {
            self.hashes = Some(contents.into_bytes());
        }
    }

    fn config(&self) -> &Config {
        self.config.as_ref().unwrap()
    }

    fn trusted(&self) -> Vec<[u8; 32]> {
        let data = self.hashes.clone().unwrap();
        TrustedProxies::from_hash_list(std::str::from_utf8(&data).unwrap())
            .unwrap()
            .public_key_hashes
    }
}

/// All that a configuration file holds.
fn written(config: &Config) -> Vec<String> {
    vec![
        format!("{:?}", config.listen_game_v4),
        format!("{:?}", config.listen_game_v6),
        format!("{:?}", config.backend_s2s),
        config.backend_server_name.clone(),
        config.backend_public_key_hash.clone(),
        config.private_key.clone(),
        config.certificate.clone(),
        format!("{}", config.max_connections),
        format!("{}", config.connect_timeout_seconds),
        format!("{}", config.idle_timeout_seconds),
    ]
}

fn listen(port: u16) -> SocketV4 {
    SocketV4 { port, ..v4() }
}

#[test]
fn preserves_key_and_hashes() {
    let mut files = Files::default();
    files.import([7; 32]).unwrap();
    files.init(listen(0), v6(), "00".repeat(32), true);
    let original = written(files.config());
    files.init(listen(9999), v6(), "00".repeat(32), true);
    assert_eq!(written(files.config()), original);
    files.import([7; 32]).unwrap();
    let hashes = files.trusted();
    assert_eq!(hashes.len(), 2);
    assert!(hashes.contains(&files.config().hash().ok().unwrap()));
}

#[test]
fn invalid_config_is_recreated_and_invalid_hash_list_is_preserved() {
    let mut files = Files {
        config: None,
        hashes: Some(b"invalid".to_vec()),
    };
    assert!(files.import([0; 32]).is_err());
    assert_eq!(files.hashes.as_deref(), Some(&b"invalid"[..]));
    files.hashes = Some(Vec::new());
    files.init(listen(0), v6(), "00".repeat(32), true);
    assert!(files.config().identity().is_ok());
    let original_hash = files.config().hash().ok().unwrap();
    files.hashes = Some(b"broken".to_vec());
    files.init(
        listen(9999),
        SocketV6 { port: 9998, ..v6() },
        "11".repeat(32),
        false,
    );
    let hash = files.config().hash().ok().unwrap();
    assert_ne!(hash, original_hash);
    assert_eq!(files.config().listen_game_v4.port, 9999);
    let hashes = files.trusted();
    assert_eq!(hashes.len(), 1);
    assert!(hashes.contains(&hash));
}

#[test]
fn configurations_hold_the_keys_that_were_made() {
    let (cert, key) = ddnet_rs::certificate::create_certifified_keys().unwrap();
    let der = cert.der.clone();
    let made = Some((cert, key));
    let config = Config::with_keys(listen(7), v6(), "ab".repeat(32), &made).ok().unwrap();
    let (held, held_key) = config.identity().ok().unwrap();
    assert_eq!((held.der, held_key.bytes), (der, key.bytes));
    assert_eq!(config.listen_game_v4, listen(7));
    assert_eq!(config.backend_public_key_hash, "ab".repeat(32));
    assert_eq!(config.backend_server_name, "localhost");
    let none = Config::with_keys(listen(7), v6(), "ab".repeat(32), &None);
    assert_eq!(none.err(), Some(ConfigError::Signing));
}
