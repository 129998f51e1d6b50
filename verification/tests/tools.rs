use ddnet_rs::assets::{
    asset_path, insert_name, is_below, map_name, module_file, module_stem, relative_config_dir,
    relative_directory, split_path, DirectoryWalk, EntryKind, PathPart,
};
use ddnet_rs::fng::{
    mod_event, Character, CharacterEventMod, ConfigGameType, Controls, DamageResult, DeathBy,
    FngSpikeTiles, FriendlyFire, GameState, GameType, InputHandling, SideScores, TileResult,
};
use ddnet_rs::legacy::world::{MatchSide, WeaponType};
use ddnet_rs::pool::{Recyclable, UnclearedVec};
use ddnet_rs::s2n::{
    connect_failure, datagram_failure, frame, must_retry, next_frame, packet_len, stream_window,
    ChannelError, Channels, Closed, ConnectError, ConnectFailure, ConnectionErrorCode,
    DatagramError, NetworkInOrderChannel, NextFrame, UnreliableError,
};
use ddnet_rs::ui::{
    estimate_time_remaining, map_label, progress_label, render_modes, ConnectMode, PanelInput, PanelState,
    Toggle,
};
use ddnet_rs::updater::{
    asset_name, bin_name, check_due, extract_program, file_stem, file_url, find_program, next_check, normalized_arch,
    parse_checksums, release_url, Candidate, CheckOutcome, Moment, UpdateError,
};
use ddnet_rs::wasm::{runner, unknown_module, GameStateMod, GameStateWasmManager, ModuleRunner};
use ddnet_rs::wgpu::{mem_alloc_lazy, FlushError, MemoryAllocationType, Wgpu, WgpuBackendMt};
use std::borrow::Cow;
use std::collections::{BTreeMap, BTreeSet, HashMap, HashSet, VecDeque};
use std::io::Write;
use std::time::Duration;

#[test]
fn directories_must_be_relative() {
    for path in ["a", "a/b", "a/./b", "a//b/", "..a"] {
        assert_eq!(relative_directory(path), Ok(path.to_owned()));
    }
    for path in ["", ".", "./a", "/a", "..", "a/../b", "/"] {
        assert_eq!(
            relative_directory(path),
            Err("expected a relative assets directory without '..'".to_owned())
        );
    }
    for path in ["", ".", "./a", "a", "a/b"] {
        assert_eq!(relative_config_dir(path), Ok(path.to_owned()));
    }
    for path in ["/a", "..", "a/.."] {
        assert_eq!(
            relative_config_dir(path),
            Err("config directory must be relative to storage without '..'".to_owned())
        );
    }
    let windows = ["..\\a", "c:a", "c:\\a", "\\\\host\\share", "//host/share", "a\\b"];
    let plain = ["", ".", "./a", "/a", "..", "a/../b", "/", "a", "a//b/", "a/./b"];
    for path in windows.into_iter().chain(plain) {
        let normal = std::path::Path::new(path)
            .components()
            .all(|c| matches!(c, std::path::Component::Normal(_)));
        assert_eq!(relative_directory(path).is_ok(), normal && !path.is_empty());
    }
    let name = || PathPart::Normal("a".to_owned());
    assert!(is_below(&vec![name(), name()], false));
    assert!(is_below(&vec![PathPart::CurDir, name()], true));
    assert!(!is_below(&vec![PathPart::CurDir, name()], false));
    for part in [
        PathPart::Prefix("c:".to_owned()),
        PathPart::RootDir,
        PathPart::ParentDir,
    ] {
        assert!(!is_below(&vec![name(), part], true));
    }
}

#[test]
fn directories_are_looked_for_level_by_level() {
    assert_eq!(split_path("map/maps"), ["map", "maps"]);
    let mut walk = DirectoryWalk::new("map/maps");
    assert_eq!(walk.next(), Some((".".to_owned(), "map".to_owned())));
    walk.found(EntryKind::Directory);
    assert_eq!(walk.next(), Some(("./map".to_owned(), "maps".to_owned())));
    assert!(!walk.is_there());
    walk.found(EntryKind::Directory);
    assert_eq!(walk.next(), None);
    assert!(walk.is_there());
    let mut walk = DirectoryWalk::new("a/b");
    walk.found(EntryKind::File);
    assert_eq!(walk.next(), None);
    assert!(!walk.is_there());
}

#[test]
fn assets_are_named() {
    assert_eq!(
        map_name("dm1.twmap.tar", EntryKind::File, ".twmap.tar"),
        Some("dm1".to_owned())
    );
    assert_eq!(map_name("dm1.map", EntryKind::File, ".twmap.tar"), None);
    assert_eq!(map_name("dm1.map", EntryKind::Directory, ".map"), None);
    assert_eq!(
        module_stem("mods/state", "a/fng.wasm"),
        Some("a/fng".to_owned())
    );
    assert_eq!(module_stem("thumbnails", "fng.wasm"), None);
    assert_eq!(module_stem("mods/state", "readme"), None);
    assert_eq!(module_file("mods/state", "fng", "00"), "mods/state/fng_00.wasm");
    assert_eq!(asset_path("thumbnails", "a.png"), "thumbnails/a.png");
    let mut names = Vec::new();
    for name in ["dm7", "ctf1", "dm1", "ctf1", "dm", "é"] {
        insert_name(&mut names, name);
    }
    assert_eq!(names, ["ctf1", "dm", "dm1", "dm7", "é"]);
}

fn tee(id: u64, side: Option<MatchSide>) -> Character {
    Character {
        id,
        score: 0,
        side,
        freeze: None,
        frozen_by: None,
        weapons: Vec::new(),
    }
}

fn spiked(killer_id: Option<u64>, spike: FngSpikeTiles) -> CharacterEventMod {
    CharacterEventMod::DespawnBySpike {
        id: 9,
        killer_id,
        spike,
    }
}

#[test]
fn spikes_score_for_the_one_who_froze() {
    for (spike, points, team) in [
        (FngSpikeTiles::Golden, 7, 10),
        (FngSpikeTiles::Normal, 3, 5),
        (FngSpikeTiles::Red, 5, 10),
        (FngSpikeTiles::Blue, -5, 10),
        (FngSpikeTiles::Green, 6, 10),
        (FngSpikeTiles::Purple, 5, 10),
    ] {
        let mut characters = vec![tee(1, None), tee(2, Some(MatchSide::Red))];
        let mut scores = Some(SideScores { red: 1, blue: 2 });
        assert!(mod_event(&mut characters, &mut scores, &spiked(Some(2), spike)));
        assert_eq!(characters[1].score, points);
        assert_eq!(characters[1].freeze, if points < 0 { Some(250) } else { None });
        assert_eq!(
            scores,
            Some(SideScores {
                red: 1 + team,
                blue: 2
            })
        );
        assert_eq!(characters[0], tee(1, None));
        assert!(mod_event(&mut characters, &mut scores, &spiked(Some(1), spike)));
        assert_eq!(characters[0].score, points.abs());
        assert!(!mod_event(&mut characters, &mut scores, &spiked(None, spike)));
        assert!(!mod_event(&mut characters, &mut scores, &spiked(Some(5), spike)));
    }
}

#[test]
fn lasers_freeze_and_spikes_kill() {
    let mut c = tee(3, None);
    assert_eq!(
        c.take_damage_from(4, FriendlyFire::Dmg, Some(WeaponType::Hammer)),
        DamageResult::Unharmed
    );
    assert_eq!(c.handle_input_change(), InputHandling::Full);
    assert_eq!(
        c.take_damage_from(4, FriendlyFire::Dmg, Some(WeaponType::Laser)),
        DamageResult::Damage
    );
    assert_eq!((c.freeze, c.frozen_by), (Some(500), Some(4)));
    assert_eq!(
        c.take_damage_from(5, FriendlyFire::Dmg, Some(WeaponType::Laser)),
        DamageResult::Unharmed
    );
    assert_eq!(c.frozen_by, Some(4));
    assert_eq!(c.handle_input_change(), InputHandling::WeaponSwitchOnly);
    let input = Controls {
        dir: 1,
        hook: true,
        fire: true,
        jump: true,
    };
    let rest = Controls {
        dir: 0,
        hook: false,
        fire: false,
        jump: false,
    };
    assert_eq!(c.effective_controls(input), rest);
    assert_eq!(tee(1, None).effective_controls(input), input);
    assert_eq!(
        c.handle_game_layer_tiles(2, 2),
        TileResult::Dies {
            by: DeathBy::World,
            event: None
        }
    );
    assert_eq!(
        c.handle_game_layer_tiles(14, 2),
        TileResult::Dies {
            by: DeathBy::Spike { killer: Some(4) },
            event: Some(CharacterEventMod::DespawnBySpike {
                id: 3,
                killer_id: Some(4),
                spike: FngSpikeTiles::Green
            })
        }
    );
    assert_eq!(c.handle_game_layer_tiles(11, 2), TileResult::Unharmed);
    match tee(5, None).handle_game_layer_tiles(9, 2) {
        TileResult::Dies {
            event: Some(CharacterEventMod::DespawnBySpike { killer_id, spike, .. }),
            ..
        } => assert_eq!((killer_id, spike), (None, FngSpikeTiles::Red)),
        other => panic!("unexpected {other:?}"),
    }
    c.respawn_weapons();
    assert_eq!(c.weapons.len(), 2);
    assert_eq!(Character::default_active_weapon(), WeaponType::Laser);
    for index in 0..=255 {
        if let Some(spike) = FngSpikeTiles::from_index(index) {
            assert_eq!(spike.index(), index);
        }
    }
}

#[test]
fn game_types_are_configured() {
    assert_eq!(ConfigGameType::default(), ConfigGameType::Dm);
    for (conf, ty, name) in [
        (ConfigGameType::Dm, GameType::Solo, "dm"),
        (ConfigGameType::Ctf, GameType::Team, "ctf"),
        (ConfigGameType::Fng, GameType::Team, "fng"),
    ] {
        assert_eq!(GameState::get_game_type_from_conf(conf), ty);
        assert_eq!(GameState::get_mod_name_from_conf(conf), name);
    }
}

fn recycle<T: Recyclable>(mut value: T) -> T {
    assert!(value.should_put_to_pool());
    value.reset();
    value
}

#[test]
fn values_are_recycled() {
    assert!(recycle(vec![1]).is_empty());
    assert!(recycle(VecDeque::from([1])).is_empty());
    assert!(recycle(BTreeMap::from([(1, 2)])).is_empty());
    assert!(recycle(BTreeSet::from([1])).is_empty());
    assert!(recycle(HashMap::from([(1, 2)])).is_empty());
    assert!(recycle(HashSet::from([1])).is_empty());
    assert!(recycle("text".to_owned()).is_empty());
    assert!(recycle(Box::new(vec![1])).is_empty());
    assert!(recycle(Cow::Borrowed(&[1][..])).is_empty());
    assert!(recycle(Cow::<[i32]>::Owned(vec![1])).is_empty());
    let uncleared = recycle(UnclearedVec { items: vec![1] });
    assert_eq!(uncleared.items, [1]);
    assert!(<UnclearedVec<u8> as Recyclable>::new().items.is_empty());
    assert!(<Vec<u8> as Recyclable>::new().is_empty());
    let mut linked: hashlink::LinkedHashMap<u8, u8> = Recyclable::new();
    linked.insert(1, 2);
    assert!(recycle(linked).is_empty());
    let mut linked: hashlink::LinkedHashSet<u8> = Recyclable::new();
    linked.insert(1);
    assert!(recycle(linked).is_empty());
    let mut linked: hashlink::LinkedHashMap<u8, u8, rustc_hash::FxBuildHasher> = Recyclable::new();
    linked.insert(1, 2);
    assert!(recycle(linked).is_empty());
    let mut fx: rustc_hash::FxHashMap<u8, u8> = Recyclable::new();
    fx.insert(1, 2);
    assert!(recycle(fx).is_empty());
    let mut fx: rustc_hash::FxHashSet<u8> = Recyclable::new();
    fx.insert(1);
    assert!(recycle(fx).is_empty());
}

#[test]
fn packets_are_framed() {
    let packet = vec![5u8; 300];
    let framed = frame(&packet);
    assert_eq!(framed[..8], 300u64.to_le_bytes());
    assert_eq!(framed[8..], packet);
    assert_eq!(packet_len(&framed[..8], 300), Some(300));
    assert_eq!(packet_len(&framed[..8], 299), None);
    assert_eq!(next_frame(&framed, 1000), NextFrame::Packet { len: 300 });
    assert_eq!(next_frame(&framed[..307], 1000), NextFrame::Incomplete);
    assert_eq!(next_frame(&framed[..7], 1000), NextFrame::Incomplete);
    assert_eq!(next_frame(&framed, 299), NextFrame::TooLong);
}

#[test]
fn framed_packets_arrive_in_order() {
    let packets = [vec![1], Vec::new(), vec![2; 70], vec![3, 4]];
    let mut stream: Vec<u8> = packets.iter().flat_map(frame).collect();
    for packet in &packets {
        let NextFrame::Packet { len } = next_frame(&stream, 70) else {
            panic!("no packet");
        };
        assert_eq!(&stream[8..8 + len], packet.as_slice());
        stream.drain(..8 + len);
    }
    assert!(stream.is_empty());
}

#[test]
fn channels_fall_back_to_the_global_one() {
    let mut channels = Channels::new();
    let custom = NetworkInOrderChannel::Custom;
    assert_eq!(channels.pop(custom(1)), Err(ChannelError::NoChannel));
    for (i, channel) in [custom(1), custom(2), custom(3), custom(1)].into_iter().enumerate() {
        channels.push(vec![i as u8], channel, 3);
    }
    assert_eq!(channels.queues.len(), 3);
    assert_eq!(channels.queues[2].channel, NetworkInOrderChannel::Global);
    assert_eq!(channels.pop(custom(1)), Ok(vec![0]));
    assert_eq!(channels.pop(custom(1)), Err(ChannelError::NoPacket));
    assert_eq!(channels.pop(custom(3)), Ok(vec![2]));
    assert_eq!(channels.pop(NetworkInOrderChannel::Global), Ok(vec![3]));
    assert_eq!(channels.pop(custom(2)), Ok(vec![1]));
}

#[test]
fn failures_are_told_apart() {
    let closed = |code| {
        connect_failure(ConnectError::ApplicationClosed {
            code,
            reason: b"why\xff".to_vec(),
        })
    };
    let text = "why\u{fffd}".to_owned();
    assert_eq!(
        closed(Some(ConnectionErrorCode::Kicked)),
        ConnectFailure::ConnectionClosed(Closed::Kicked(text.clone()))
    );
    assert_eq!(
        closed(Some(ConnectionErrorCode::Banned)),
        ConnectFailure::ConnectionClosed(Closed::Banned(text.clone()))
    );
    assert_eq!(
        closed(Some(ConnectionErrorCode::Shutdown)),
        ConnectFailure::ConnectionClosed(Closed::Shutdown(text.clone()))
    );
    assert_eq!(
        closed(None),
        ConnectFailure::ConnectionClosed(Closed::Other(text))
    );
    assert_eq!(
        connect_failure(ConnectError::Reset),
        ConnectFailure::ConnectionClosed(Closed::Reset)
    );
    assert_eq!(connect_failure(ConnectError::TimedOut), ConnectFailure::TimedOut);
    assert_eq!(
        connect_failure(ConnectError::LocallyClosed),
        ConnectFailure::LocallyClosed
    );
    assert_eq!(
        connect_failure(ConnectError::Transport {
            message: "m".to_owned()
        }),
        ConnectFailure::Other("m".to_owned())
    );
    assert_eq!(
        datagram_failure(DatagramError::QueueAtCapacity),
        UnreliableError::TooLarge
    );
    assert_eq!(
        datagram_failure(DatagramError::Other),
        UnreliableError::ConnectionClosed
    );
    assert_eq!(stream_window(None, true), 65536);
    assert_eq!(stream_window(None, false), 1024 * 1024);
    assert_eq!(stream_window(Some(7), true), 7);
    assert!(must_retry(true, false) && !must_retry(true, true) && !must_retry(false, false));
}

#[test]
fn downloads_are_estimated() {
    assert_eq!(estimate_time_remaining(0, 10, 0), None);
    assert_eq!(estimate_time_remaining(10, 10, 1), Some(Duration::ZERO));
    assert_eq!(estimate_time_remaining(0, 10, 5), Some(Duration::from_secs(2)));
    assert_eq!(estimate_time_remaining(0, 11, 5), Some(Duration::from_secs(3)));
    assert_eq!(
        estimate_time_remaining(0, u64::MAX, 1),
        Some(Duration::from_secs(u64::MAX))
    );
    assert_eq!(
        progress_label(501 * 1024, 1904 * 1024, 42 * 1024),
        "501/1904 KiB (42 KiB/s) - 34 seconds left"
    );
    assert_eq!(progress_label(0, 1024, 0), "0/1 KiB (0 KiB/s) - 0 seconds left");
}

#[test]
fn connection_modes_are_shown() {
    let labels = render_modes(
        &ConnectMode::Connecting {
            addr: "127.0.0.1:8303".to_owned(),
        },
        "server",
    );
    assert_eq!(labels.first, "Connecting to:\n127.0.0.1:8303");
    assert_eq!((labels.second, labels.button.as_str()), (None, "Cancel"));
    let msg = "m".to_owned();
    let labels = render_modes(&ConnectMode::ConnectingErr { msg: msg.clone() }, "server");
    assert_eq!(labels.first, "Connecting to server failed:\nm");
    assert_eq!(labels.button, "Return");
    let labels = render_modes(&ConnectMode::Queue { msg: msg.clone() }, "server");
    assert_eq!(labels.first, "Connecting to server");
    assert_eq!(labels.second.as_deref(), Some("Waiting in queue: m"));
    let labels = render_modes(&ConnectMode::DisconnectErr { msg }, "server");
    assert_eq!(labels.first, "Connection to server lost:\nm");
}

#[test]
fn panel_switches() {
    let mut panel = PanelState {
        animations_panel_open: false,
        server_commands_open: true,
        server_config_variables_open: false,
        parallax_aware_zoom: false,
        time_scale: 0,
    };
    let off = Toggle {
        clicked: false,
        by_hotkey: false,
    };
    let both = Toggle {
        clicked: true,
        by_hotkey: true,
    };
    let input = PanelInput {
        animations: both,
        server_commands: both,
        server_config_variables: off,
        parallax_zoom: Toggle {
            clicked: false,
            by_hotkey: true,
        },
        increase_speed: true,
        decrease_speed: false,
    };
    panel.apply(input);
    assert!(panel.animations_panel_open && !panel.server_commands_open);
    assert!(!panel.server_config_variables_open && panel.parallax_aware_zoom);
    assert_eq!(panel.time_scale, 1);
    panel.apply(input);
    assert!(!panel.animations_panel_open && panel.server_commands_open);
    assert!(!panel.parallax_aware_zoom);
    assert_eq!(panel.time_scale, 2);
    panel.apply(PanelInput {
        increase_speed: false,
        decrease_speed: true,
        ..input
    });
    assert_eq!(panel.time_scale, 1);
}

#[test]
fn releases_are_found() {
    assert_eq!(normalized_arch("x86_64").as_deref(), Some("x64"));
    assert_eq!(normalized_arch("aarch64").as_deref(), Some("arm64"));
    assert_eq!(normalized_arch("mips"), None);
    let asset = asset_name("ddnet", "linux", "x64", "-slim");
    assert_eq!(asset, "ddnet-linux-x64-slim.zip");
    let release = release_url("ddnet", "ddnet-rs", "nightly").unwrap();
    assert_eq!(
        release,
        "https://github.com/ddnet/ddnet-rs/releases/download/nightly/"
    );
    assert_eq!(
        file_url(&release, &asset).unwrap(),
        format!("{release}{asset}")
    );
    let hash = "0a".repeat(32);
    let list = format!("abc123\nother {hash}\nname-only\n{asset}\t{hash}\n{asset} bad\n");
    let found = parse_checksums(&list, &asset).unwrap();
    assert_eq!((found.git_tag.as_str(), found.asset_hash), ("abc123", [10; 32]));
    assert_eq!(parse_checksums("", &asset), Err(UpdateError::NoGitTag));
    assert_eq!(parse_checksums("tag\n", &asset), Err(UpdateError::NoAsset));
    assert_eq!(
        parse_checksums(&format!("tag\n{asset}  {hash}"), &asset),
        Err(UpdateError::InvalidHash)
    );
}

fn archive(files: &[(&str, &[u8])]) -> Vec<u8> {
    let mut zip = zip::ZipWriter::new(std::io::Cursor::new(Vec::new()));
    let options = zip::write::SimpleFileOptions::default();
    for (name, data) in files {
        if name.ends_with('/') {
            zip.add_directory(*name, options).unwrap();
        } else {
            zip.start_file(*name, options).unwrap();
            zip.write_all(data).unwrap();
        }
    }
    zip.finish().unwrap().into_inner()
}

#[test]
fn programs_are_extracted() {
    let data = archive(&[
        ("readme", b"text"),
        ("ddnet/", b""),
        ("bin/ddnet", b"other"),
        ("ddnet", &[7; 1000]),
        ("ddnet2", b""),
    ]);
    assert_eq!(extract_program(&data, "ddnet"), Ok(vec![7; 1000]));
    assert_eq!(extract_program(&data, "bin"), Err(UpdateError::NoProgram));
    assert_eq!(extract_program(&data[..60], "ddnet"), Err(UpdateError::BadArchive));
    for name in ["./ddnet", "/ddnet", "../ddnet", "a/ddnet", "a/../ddnet", "ddnet\0"] {
        assert_eq!(
            extract_program(&archive(&[(name, b"x")]), "ddnet"),
            Err(UpdateError::NoProgram)
        );
    }
    let nested = archive(&[("bin//ddnet", b"x")]);
    assert_eq!(extract_program(&nested, "bin/./ddnet"), Ok(b"x".to_vec()));
    let part = |name: &str| vec![PathPart::Normal(name.to_owned())];
    let file = |name: &str| Candidate::File(part(name));
    let bin = part("ddnet");
    assert_eq!(find_program(&vec![file("x"), file("ddnet")], &bin), Ok(1));
    assert_eq!(
        find_program(&vec![Candidate::Unreadable, file("ddnet")], &bin),
        Err(UpdateError::BadEntry)
    );
    assert_eq!(
        find_program(&vec![Candidate::Passed], &bin),
        Err(UpdateError::NoProgram)
    );
    let current = vec![PathPart::CurDir, PathPart::Normal("ddnet".to_owned())];
    assert_eq!(
        find_program(&vec![Candidate::File(current)], &bin),
        Err(UpdateError::NoProgram)
    );
}

#[test]
fn updates_have_a_schedule() {
    let day = 24 * 60 * 60;
    let at = |secs, nanos| Moment { secs, nanos };
    assert!(check_due(at(0, 0), None));
    assert!(!check_due(at(day, 4), Some(at(0, 5))));
    assert!(check_due(at(day, 5), Some(at(0, 5))));
    assert!(check_due(at(i64::MAX, 0), Some(at(i64::MIN, 0))));
    assert!(!check_due(at(i64::MIN, 0), Some(at(i64::MAX, 0))));
    assert_eq!(next_check(CheckOutcome::NotDue), 12 * 3600);
    assert_eq!(next_check(CheckOutcome::Downloaded), 24 * 3600);
    assert_eq!(next_check(CheckOutcome::Failed), 2 * 3600);
}

#[test]
fn modules_are_run() {
    assert_eq!(runner(GameStateMod::Native), ModuleRunner::Native);
    assert_eq!(runner(GameStateMod::Ddnet), ModuleRunner::Native);
    assert_eq!(
        runner(GameStateMod::Wasm { file: vec![1] }),
        ModuleRunner::Wasm { code: vec![1] }
    );
    let info = unknown_module();
    assert_eq!((info.mod_name.as_str(), info.version.as_str()), ("unknown", ""));
    let manager = GameStateWasmManager::new(info);
    assert_eq!(manager.game_tick_speed(), 50);
    assert_eq!(manager.predicted_game_monotonic_tick, 0);
}

#[test]
fn graphics_memory_is_zeroed() {
    let ty = MemoryAllocationType::TextureRgbaU82dArray {
        width: 2,
        height: 3,
        depth: 4,
    };
    let mem = mem_alloc_lazy(ty);
    assert_eq!((mem.mem, mem.usage), (vec![0; 96], ty));
    let mt: WgpuBackendMt = Wgpu::get_mt_backend();
    let mem = mt.mem_alloc(MemoryAllocationType::TextureRgbaU8 {
        width: 5,
        height: 2,
    });
    assert_eq!(mem.mem.len(), 40);
    assert_eq!(mt.try_flush_mem(&mem), Err(FlushError::NotSupported));
    let mem = mt.mem_alloc(MemoryAllocationType::Buffer { required_size: 7 });
    assert_eq!(mem.mem.len(), 7);
}

#[test]
fn downloaded_map_is_named() {
    assert_eq!(map_label("Tutorial"), "Downloading map: Tutorial");
}

#[test]
fn channels_are_distinct() {
    let mut channels = Channels::new();
    for i in [1, 2, 1, 3, 2, 4, 5] {
        channels.push(vec![i as u8], NetworkInOrderChannel::Custom(i), 4);
    }
    let custom = NetworkInOrderChannel::Custom;
    assert_eq!(Channels::new().sending(custom(1)), None);
    assert_eq!(channels.sending(custom(2)), Some(custom(2)));
    assert_eq!(channels.sending(custom(5)), Some(NetworkInOrderChannel::Global));
    let _ = channels.pop(custom(1));
    for (i, a) in channels.queues.iter().enumerate() {
        assert!(channels.queues[..i].iter().all(|b| b.channel != a.channel));
    }
    assert_eq!(channels.queues.len(), 4);
}

#[test]
fn programs_are_named_by_their_stem() {
    for (path, name) in [
        ("ddnet", Some("ddnet")),
        ("/usr/bin/ddnet", Some("ddnet")),
        ("bin/ddnet.exe", Some("ddnet")),
        ("bin/ddnet.tar.gz/", Some("ddnet.tar")),
        (".ddnet", Some(".ddnet")),
        ("..ddnet", Some(".")),
        ("ddnet.", Some("ddnet")),
        ("bin/..", None),
        ("/", None),
        (".", None),
        ("", None),
    ] {
        assert_eq!(bin_name(path).as_deref(), name);
        let stem = std::path::Path::new(path).file_stem();
        assert_eq!(stem.and_then(|stem| stem.to_str()), name);
    }
    let windows = vec![
        PathPart::Prefix("C:".to_owned()),
        PathPart::RootDir,
        PathPart::Normal("ddnet.exe".to_owned()),
    ];
    assert_eq!(file_stem(&windows).as_deref(), Some("ddnet"));
    assert_eq!(file_stem(&vec![PathPart::ParentDir]), None);
}
