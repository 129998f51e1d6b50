use ddnet_rs::legacy::browser::{registration, respond, BrowserInfo, BrowserPlayer};
use ddnet_rs::legacy::maps::{
    check_origin, is_resource, map_origin, map_path, own_origin, path_without_hash,
    resource_origin, resource_path, resource_step, resource_url, served_map, supported_scheme,
    MapCache, MapTuning, OriginError, ResourceKind, ResourceStep,
};
use ddnet_rs::legacy::session::{
    admits, check_limits, disconnect_reason, is_timed_out, round_start, RoundStart, Session,
    SessionError,
};
use ddnet_rs::transfer::accumulate;

fn player(score: &str) -> BrowserPlayer {
    BrowserPlayer {
        name: "n".to_owned(),
        clan: "c".to_owned(),
        score: score.to_owned(),
    }
}

fn info(players: usize) -> BrowserInfo {
    let mut list: Vec<BrowserPlayer> = (0..players).map(|_| player("time")).collect();
    if let Some(first) = list.first_mut() {
        first.score = "-12".to_owned();
    }
    BrowserInfo {
        name: "server".to_owned(),
        map: "dm1".to_owned(),
        game_type: "dm".to_owned(),
        passworded: true,
        max_players: 80,
        max_ingame_players: 10,
        players: list,
        cert_sha256_fingerprint: [0; 32],
        resource_server_url: None,
    }
}

#[test]
fn browsers_see_sixteen_clients() {
    let answer = respond(77, &info(20));
    assert_eq!(answer.token, 77);
    assert_eq!(answer.version, "0.6.4, legacy-server-proxy");
    assert_eq!((answer.flags, answer.num_clients, answer.num_players), (1, 16, 16));
    assert_eq!((answer.max_clients, answer.max_players), (16, 10));
    assert_eq!(answer.clients.len(), 16);
    assert_eq!((answer.clients[0].score, answer.clients[1].score), (-12, 0));
    assert_eq!(answer.clients[0].country, -1);
    assert!(answer.clients[15].is_player);
    assert_eq!(respond(0, &info(1)).num_clients, 1);
}

#[test]
fn masters_see_all_clients() {
    let told = registration(&info(20));
    assert_eq!((told.num_clients, told.num_players), (20, 20));
    assert_eq!((told.max_clients, told.max_players), (64, 10));
    assert_eq!(told.clients.len(), 20);
    assert_eq!((told.name.as_str(), told.map.as_str()), ("server", "dm1"));
    assert!(told.passworded);
}

#[test]
fn resources_have_paths() {
    let hash = "ab".repeat(32);
    let path = map_path("dm1", &hash);
    assert_eq!(path, format!("map/maps/dm1_{hash}.twmap.tar"));
    assert_eq!(path_without_hash(&path, &hash), "map/maps/dm1.twmap.tar");
    assert_eq!(path_without_hash("aa_xa_x", "x"), "aaa");
    assert_eq!(
        resource_path(ResourceKind::ImageArrays, "grass", &hash, "png"),
        format!("map/resources/images/grass_{hash}.png")
    );
    assert_eq!(
        resource_path(ResourceKind::Sounds, "wind", &hash, "ogg"),
        format!("map/resources/sounds/wind_{hash}.ogg")
    );
    assert!(supported_scheme("http") && supported_scheme("https") && !supported_scheme("ftp"));
    assert_eq!(resource_origin(Some(1), Some(2)), Some(1));
    assert_eq!(resource_origin(None, Some(2)), Some(2));
}

#[test]
fn resources_are_checked() {
    assert_eq!(
        resource_step(Some([1; 32]), [1; 32], false),
        ResourceStep::UseLocal
    );
    assert_eq!(
        resource_step(Some([2; 32]), [1; 32], true),
        ResourceStep::Download
    );
    assert_eq!(resource_step(None, [1; 32], false), ResourceStep::Missing);
    assert!(is_resource([3; 32], [3; 32]) && !is_resource([3; 32], [4; 32]));
    let mut bytes = vec![1];
    assert!(accumulate(&mut bytes, &[2, 3], 3));
    assert!(!accumulate(&mut bytes, &[4], 3));
    assert_eq!(bytes, [1, 2, 3]);
}

#[test]
fn maps_carry_their_checksum() {
    let map = served_map("check", b"123456789".to_vec()).unwrap();
    assert_eq!(map.crc, 0xcbf4_3926u32 as i32);
    assert_eq!(map.crc, crc32fast::hash(&map.bytes) as i32);
    assert_eq!(map.name, "check");
}

#[test]
fn two_maps_are_kept() {
    let mut cache = MapCache::new();
    cache.insert([1; 32], "one");
    cache.insert([2; 32], "two");
    assert_eq!(cache.find(&[1; 32]), Some(&"one"));
    cache.insert([3; 32], "three");
    assert_eq!(cache.find(&[1; 32]), None);
    assert_eq!(cache.find(&[2; 32]), Some(&"two"));
    assert_eq!(cache.find(&[3; 32]), Some(&"three"));
}

#[test]
fn tuning_zones_are_found_by_tile() {
    let tuning = MapTuning::new(2, 2, Some(vec![0, 1, 0, 2]));
    assert!(tuning.is_global(0, 0));
    assert!(tuning.is_global(31, 31));
    assert!(!tuning.is_global(32, 0));
    assert!(!tuning.is_global(5000, -5000));
    assert!(!tuning.is_global(40, 40));
    assert!(MapTuning::new(2, 2, None).is_global(40, 40));
}

const SECOND: u128 = 1_000_000_000;

#[test]
fn limits_must_let_someone_in() {
    assert_eq!(check_limits(0, 1, 1), Err(SessionError::NoConnections));
    assert_eq!(check_limits(1, 0, 1), Err(SessionError::NoTimeouts));
    assert_eq!(check_limits(1, 1, 0), Err(SessionError::NoTimeouts));
    assert_eq!(check_limits(1, 1, 1), Ok(()));
    assert!(admits(1, 2) && !admits(2, 2));
}

#[test]
fn browsers_are_answered_up_to_a_limit() {
    let mut session = Session::new(0, 8303, 8304);
    let answered = (0..50).filter(|_| session.answer_browser()).count();
    assert_eq!(answered, 20);
    session.start_round(SECOND);
    assert!(!session.answer_browser());
    session.start_round(SECOND + 1);
    assert!(session.answer_browser());
}

#[test]
fn backend_is_asked_again() {
    let mut session = Session::new(5, 8303, 8304);
    assert_eq!((session.game_port(true), session.game_port(false)), (8303, 8304));
    assert!(!session.start_refresh(5 + 10 * SECOND));
    assert!(session.start_refresh(6 + 10 * SECOND));
    assert!(!session.start_refresh(100 * SECOND));
    assert_eq!(session.refreshed(None), Ok(()));
    assert_eq!(session.refreshed(Some((8303, 8304))), Ok(()));
    assert_eq!(
        session.refreshed(Some((8303, 1))),
        Err(SessionError::PortsChanged)
    );
}

#[test]
fn silent_clients_time_out() {
    let timeout = 30 * SECOND;
    assert!(!is_timed_out(7, 7 + timeout - 1, 30));
    assert!(is_timed_out(7, 7 + timeout, 30));
    assert_eq!(round_start(true, 0, timeout, 30), RoundStart::TimedOut);
    assert_eq!(round_start(false, 0, 1, 30), RoundStart::Wait);
    assert_eq!(round_start(true, 0, 1, 30), RoundStart::Go);
    let mut session = Session::new(0, 1, 2);
    assert_eq!(session.deadline(None, &Vec::new(), 30), Some(10 * SECOND));
    assert_eq!(session.deadline(Some(5), &vec![1], 30), Some(5));
    session.refreshing = true;
    assert_eq!(session.deadline(None, &Vec::new(), 30), None);
    assert_eq!(
        session.deadline(None, &vec![9, 4, 6], 30),
        Some(4 + timeout)
    );
}

#[test]
fn reasons_are_cut() {
    assert_eq!(disconnect_reason("short"), b"short");
    assert_eq!(disconnect_reason(&"é".repeat(100)).len(), 127);
}

#[test]
fn resources_have_an_origin() {
    let own = own_origin("127.0.0.1:80");
    assert_eq!(own, "http://127.0.0.1:80/");
    let external = Some("https://host/dir/".to_owned());
    assert_eq!(
        map_origin(Some(own), external.clone()),
        Ok(Some("http://127.0.0.1/".to_owned()))
    );
    assert_eq!(map_origin(None, external.clone()), Ok(external));
    assert_eq!(map_origin(None, None), Ok(None));
    assert_eq!(
        map_origin(None, Some("ftp://host/".to_owned())),
        Err(OriginError::UnsupportedScheme)
    );
    assert_eq!(
        map_origin(None, Some("host".to_owned())),
        Err(OriginError::InvalidUrl)
    );
    assert_eq!(check_origin(None), Err(OriginError::InvalidUrl));
    assert_eq!(
        resource_url("https://host/dir/", "map/maps/a.tar").as_deref(),
        Some("https://host/dir/map/maps/a.tar")
    );
    assert_eq!(resource_url("host", "a"), None);
}
