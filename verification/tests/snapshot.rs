use ddnet_rs::legacy::decode::{difference, Packed, MAX_SNAPSHOT};
use ddnet_rs::legacy::objects::{CharacterObj, GameInfo, SnapItem, SnapObj, Sound, SpectatorInfo};
use ddnet_rs::legacy::objects::{Common, GameData};
use ddnet_rs::legacy::snapshot::{
    clamp, projectile_weapon, string, weapon, GameConfig, ObjectSlot, SnapshotError, Snapshots,
};
use ddnet_rs::legacy::world::{
    CarriedWeapon, Character, CharacterLook, Coordinate, Flag, Hook, Jumps, Laser, Match,
    MatchPhase, MatchType, Motion, Phase, Pickup, PickupType, Position, Projectile,
    RaceProjectile, SkinInfo, Snapshot, Spectator, Stage, TeeEye, Traits, WeaponType,
    WeaponWithProjectile,
};
use std::io::Write;

fn fits(_: &Vec<SnapItem>) -> bool {
    true
}

fn at(x: i32, y: i32) -> Position {
    Position {
        x: Coordinate { rounded: x, cut: x },
        y: Coordinate { rounded: y, cut: y },
    }
}

fn look(name: &str) -> CharacterLook {
    CharacterLook {
        name: name.to_owned(),
        clan: String::new(),
        skin: "default".to_owned(),
        skin_info: SkinInfo::Original,
    }
}

fn character(id: u64) -> Character {
    Character {
        id,
        look: look("tee"),
        side: None,
        score: 4,
        pos: at(320, 640),
        phase: Phase::Normal {
            hook: Hook::Idle,
            hooked: None,
            spectate: None,
        },
        motion: Motion {
            vel_x: 512,
            vel_y: -768,
            cursor_x: 0,
            cursor_y: 0,
            angle: 0,
            direction: 0,
        },
        jumps: Jumps {
            max: 0,
            count: 0,
            flag: 0,
            endless: false,
        },
        traits: Traits {
            solo: false,
            collision_disabled: false,
            hook_hit_disabled: false,
            has_endless: false,
            is_super: false,
        },
        tele_checkpoint: 0,
        health: 10,
        armor: 0,
        active_weapon: WeaponType::Hammer,
        weapons: Vec::new(),
        ninja: false,
        freeze: None,
        eye: TeeEye::Normal,
        attack_age: None,
    }
}

fn stage(id: u64, characters: Vec<Character>) -> Stage {
    Stage {
        id,
        characters,
        projectiles: Vec::new(),
        race_projectiles: Vec::new(),
        pickups: Vec::new(),
        red_flags: Vec::new(),
        blue_flags: Vec::new(),
        lasers: Vec::new(),
        game_match: Match {
            ty: MatchType::Solo,
            phase: MatchPhase::Running,
            passed_ticks: 10,
        },
    }
}

fn fixture() -> (Snapshot, u64) {
    let snapshot = Snapshot {
        stages: vec![stage(2, vec![character(1)])],
        spectators: Vec::new(),
    };
    (snapshot, 1)
}

fn snapshots() -> Snapshots {
    Snapshots::new(
        false,
        GameConfig {
            score_limit: 0,
            time_limit_secs: 0,
        },
    )
}

fn character_at(items: &[SnapItem], id: u16) -> Option<CharacterObj> {
    items.iter().find_map(|item| match item.obj {
        SnapObj::Character(c) if item.id == id => Some(c),
        _ => None,
    })
}

fn game_info(items: &[SnapItem]) -> GameInfo {
    items
        .iter()
        .find_map(|item| match item.obj {
            SnapObj::GameInfo(info) => Some(info),
            _ => None,
        })
        .unwrap()
}

fn spectator_info(items: &[SnapItem]) -> Option<(u16, SpectatorInfo)> {
    items.iter().find_map(|item| match item.obj {
        SnapObj::SpectatorInfo(info) => Some((item.id, info)),
        _ => None,
    })
}

#[test]
fn two_players_keep_distinct_ids_for_both_clients() {
    let (mut snapshot, first) = fixture();
    let second = 3;
    snapshot.stages[0].characters.push(character(second));
    for local in [first, second] {
        let mut translator = snapshots();
        let old = translator.build(&snapshot, local, 100, &Vec::new(), fits).unwrap();
        assert_eq!(translator.players[&local], 0);
        assert_ne!(translator.players[&first], translator.players[&second]);
        for id in [0, 1] {
            assert!(character_at(&old, id).is_some());
        }
    }
}

#[test]
fn game_info_transfers_match_limits() {
    let (snapshot, local) = fixture();
    let mut snapshots = snapshots();
    snapshots.game_config.score_limit = 25;
    snapshots.game_config.time_limit_secs = 300;
    let old = snapshots.build(&snapshot, local, 100, &Vec::new(), fits).unwrap();
    let info = game_info(&old);
    assert_eq!(info.score_limit, 25);
    assert_eq!(info.time_limit, 5);
}

#[test]
fn shotgun_snapshot_keeps_weapon_while_firing() {
    let (mut snapshot, local) = fixture();
    let character = &mut snapshot.stages[0].characters[0];
    character.active_weapon = WeaponType::Shotgun;
    character.attack_age = Some(25);
    character.weapons.push(CarriedWeapon {
        weapon: WeaponType::Shotgun,
        ammo: Some(9),
    });
    let old = snapshots().build(&snapshot, local, 100, &Vec::new(), fits).unwrap();
    let character = character_at(&old, 0).unwrap();
    assert_eq!(character.ammo_count, 9);
    assert_eq!(character.weapon, 2);
    assert_eq!(character.attack_tick, 75);
}

#[test]
fn spectator_snapshot_uses_followed_character_position() {
    let (mut snapshot, target) = fixture();
    let spectator_id = 2;
    snapshot.spectators.push(Spectator {
        id: spectator_id,
        look: look("watcher"),
        follows: vec![target],
        cursor: at(0, 0),
    });
    let mut converter = snapshots();
    let old = converter
        .build(&snapshot, spectator_id, 100, &Vec::new(), fits)
        .unwrap();
    let (id, raw) = spectator_info(&old).unwrap();
    assert_eq!(id, 0);
    assert_eq!(
        raw,
        SpectatorInfo {
            spectator_id: converter.players[&target] as i32,
            x: 320,
            y: 640
        }
    );
}

fn patch(base: &[u8], bytes: &[u8]) -> Vec<u8> {
    let mut encoder = zstd::Encoder::with_dictionary(Vec::new(), 0, base).unwrap();
    encoder.write_all(bytes).unwrap();
    encoder.finish().unwrap()
}

#[test]
fn reconstructs_new_deltas_and_emits_legacy_character() {
    let (fixture, local) = fixture();
    let bytes: Vec<u8> = (0..1000u32).map(|i| (i * i % 251) as u8).collect();
    let parsed = fixture.clone();
    let expected = bytes.clone();
    let parse = move |data: &Vec<u8>| {
        assert_eq!(data, &expected);
        Some((parsed.clone(), data.len()))
    };
    let mut converter = snapshots();
    let (_, snapshot) = converter
        .decode(&bytes, None, 10, 100, true, &parse)
        .unwrap()
        .unwrap();
    assert_eq!(snapshot, fixture);
    let old = converter.build(&snapshot, local, 100, &Vec::new(), fits).unwrap();
    let raw = character_at(&old, 0).unwrap().character_core;
    assert_eq!(
        [raw.tick, raw.x, raw.y, raw.vel_x, raw.vel_y],
        [100, 320, 640, 512, -768]
    );
    let patch = patch(&bytes, &bytes);
    assert_ne!(patch, bytes);
    assert_eq!(
        converter
            .decode(&patch, Some(10), 2, 5, true, &parse)
            .unwrap()
            .unwrap()
            .0,
        105
    );
    assert_eq!(converter.latest_id, Some(12));
    assert!(converter
        .decode(&patch, Some(999), 1, 1, true, &parse)
        .unwrap()
        .is_none());
    assert!(converter
        .decode(&bytes, None, 9, 99, true, &parse)
        .unwrap()
        .is_none());
}

#[test]
fn differences_are_checked() {
    let (fixture, _) = fixture();
    let bytes = vec![7u8; 64];
    let parse = |data: &Vec<u8>| Some((fixture.clone(), data.len()));
    let mut converter = snapshots();
    converter
        .decode(&bytes, None, u64::MAX - 1, 100, true, &parse)
        .unwrap();
    let patch = patch(&bytes, &bytes);
    let base = Some(u64::MAX - 1);
    assert_eq!(
        converter.decode(&patch, base, 2, 0, true, &parse),
        Err(SnapshotError::IdOverflow)
    );
    assert_eq!(
        converter.decode(&patch, base, 1, u64::MAX, true, &parse),
        Err(SnapshotError::TickOverflow)
    );
    assert_eq!(
        converter.decode(&[1, 2, 3], base, 1, 1, true, &parse),
        Err(SnapshotError::Compression)
    );
    assert_eq!(
        converter.decode(&vec![0; 4 * 1024 * 1024 + 1], None, 1, 1, true, &parse),
        Err(SnapshotError::TooLarge)
    );
    assert_eq!(
        converter.decode(&bytes, None, 1, 1, true, |_: &Vec<u8>| None),
        Err(SnapshotError::Encoding)
    );
    assert_eq!(
        converter.decode(&bytes, None, 1, 1, true, |_: &Vec<u8>| Some((
            fixture.clone(),
            63
        ))),
        Err(SnapshotError::TrailingBytes)
    );
    assert_eq!(converter.latest_id, base);
    assert_eq!(converter.latest_tick, 100);
}

#[test]
fn large_differences_are_refused() {
    let (fixture, _) = fixture();
    let parse = |data: &Vec<u8>| Some((fixture.clone(), data.len()));
    let mut converter = snapshots();
    converter.decode(&[5; 16], None, 1, 1, true, &parse).unwrap();
    let patch = patch(&[5; 16], &vec![0; 4 * 1024 * 1024 + 1]);
    assert_eq!(
        converter.decode(&patch, Some(1), 1, 1, true, &parse),
        Err(SnapshotError::TooLarge)
    );
}

#[test]
fn only_the_newest_bases_are_kept() {
    let (fixture, _) = fixture();
    let parse = |data: &Vec<u8>| Some((fixture.clone(), data.len()));
    let mut converter = snapshots();
    for id in 0..40 {
        converter.decode(&[id as u8; 8], None, id, id, true, &parse).unwrap();
    }
    assert_eq!(converter.bases.len(), 32);
    assert!(!converter.bases.contains_key(&7));
    assert_eq!(converter.bases[&8], (8, vec![8; 8]));
    assert_eq!(converter.bases[&39], (39, vec![39; 8]));
}

#[test]
fn string_encoding_matches_legacy_termination() {
    assert_eq!(
        string::<1>("ab"),
        [i32::from_be_bytes([225, 226, 128, 128])]
    );
    assert_eq!(
        string::<1>("abcd"),
        [i32::from_be_bytes([225, 226, 227, 128])]
    );
}

#[test]
fn ids_stay_reserved_for_a_while() {
    let (mut snapshot, local) = fixture();
    snapshot.stages[0].characters.push(character(3));
    let mut converter = snapshots();
    converter.build(&snapshot, local, 1, &Vec::new(), fits).unwrap();
    assert_eq!(converter.players[&3], 1);
    snapshot.stages[0].characters.pop();
    snapshot.stages[0].characters.push(character(4));
    converter.latest_tick = 149;
    converter.build(&snapshot, local, 2, &Vec::new(), fits).unwrap();
    assert_eq!(converter.players[&3], 1);
    assert_eq!(converter.players[&4], 2);
    converter.latest_tick = 150;
    converter.build(&snapshot, local, 3, &Vec::new(), fits).unwrap();
    assert!(!converter.players.contains_key(&3));
    assert_eq!(converter.players[&local], 0);
}

#[test]
fn more_than_64_players_are_refused() {
    let characters: Vec<Character> = (1..=64).map(character).collect();
    let mut snapshot = Snapshot {
        stages: vec![stage(1, characters)],
        spectators: Vec::new(),
    };
    let mut converter = snapshots();
    assert!(converter.build(&snapshot, 1, 1, &Vec::new(), fits).is_ok());
    snapshot.stages[0].characters.push(character(65));
    assert_eq!(
        converter.build(&snapshot, 1, 2, &Vec::new(), fits),
        Err(SnapshotError::TooManyPlayers)
    );
}

#[test]
fn entities_and_events_follow_the_players() {
    let (mut snapshot, local) = fixture();
    let stage = &mut snapshot.stages[0];
    stage.projectiles.push(Projectile {
        id: 50,
        x: 1,
        y: 2,
        vel_x: 3,
        vel_y: 4,
        ty: WeaponWithProjectile::Grenade,
    });
    stage.race_projectiles.push(RaceProjectile {
        id: 50,
        start: at(5, 6),
        vel_x: 7,
        vel_y: 8,
        ty: WeaponWithProjectile::Gun,
        life_span: Some(30),
        life_left: Some(10),
    });
    stage.pickups.push(Pickup {
        id: 50,
        pos: at(9, 10),
        ty: PickupType::Weapon(WeaponType::Laser),
    });
    stage.red_flags.push(Flag {
        pos: at(11, 12),
        carrier: Some(local),
        dropped: false,
    });
    stage.blue_flags.push(Flag {
        pos: at(13, 14),
        carrier: None,
        dropped: true,
    });
    stage.lasers.push(Laser {
        id: 50,
        pos: at(15, 16),
        from: at(17, 18),
        age: Some(4),
    });
    stage.game_match.ty = MatchType::Sided {
        red: 5,
        blue: i64::MAX,
    };
    let mut converter = snapshots();
    let effects = vec![SnapObj::SoundWorld {
        common: Common { x: 1, y: 1 },
        sound_id: Sound::Hit,
    }];
    let items = converter.build(&snapshot, local, 100, &effects, fits).unwrap();
    assert_eq!(game_info(&items).game_flags, 3);
    assert_eq!(game_info(&items).round_start_tick, 90);
    assert!(items.contains(&SnapItem {
        id: 0,
        obj: SnapObj::GameData(GameData {
            teamscore_red: 5,
            teamscore_blue: i32::MAX,
            flag_carrier_red: 0,
            flag_carrier_blue: -1,
        })
    }));
    let tail: Vec<u16> = items[items.len() - 7..].iter().map(|i| i.id).collect();
    assert_eq!(tail, [0, 1, 2, 0, 1, 3, 0]);
    match items[items.len() - 7].obj {
        SnapObj::Projectile(p) => assert_eq!((p.x, p.start_tick), (1, 99)),
        _ => panic!("no projectile"),
    }
    match items[items.len() - 6].obj {
        SnapObj::Projectile(p) => assert_eq!((p.x, p.start_tick), (5, 80)),
        _ => panic!("no projectile"),
    }
    match items[items.len() - 5].obj {
        SnapObj::Pickup(p) => assert_eq!((p.type_, p.subtype), (2, 4)),
        _ => panic!("no pickup"),
    }
    match items[items.len() - 2].obj {
        SnapObj::Laser(l) => assert_eq!((l.from_x, l.start_tick), (17, 96)),
        _ => panic!("no laser"),
    }
    assert_eq!(items[items.len() - 1].obj, effects[0]);
    for (i, a) in items.iter().enumerate() {
        for b in &items[..i] {
            let same = std::mem::discriminant(&a.obj) == std::mem::discriminant(&b.obj);
            assert!(!same || a.id != b.id);
        }
    }
    // The ids stay the same in the next snapshot.
    let again = converter.build(&snapshot, local, 101, &Vec::new(), fits).unwrap();
    let tail: Vec<u16> = again[again.len() - 6..].iter().map(|i| i.id).collect();
    assert_eq!(tail, [0, 1, 2, 0, 1, 3]);
}

#[test]
fn only_the_stage_of_the_player_is_shown() {
    let snapshot = Snapshot {
        stages: vec![stage(1, vec![character(8)]), stage(2, vec![character(9)])],
        spectators: Vec::new(),
    };
    let mut converter = snapshots();
    let items = converter.build(&snapshot, 9, 10, &Vec::new(), fits).unwrap();
    assert!(character_at(&items, converter.players[&9]).is_some());
    assert!(character_at(&items, converter.players[&8]).is_none());
    let infos = items
        .iter()
        .filter(|i| matches!(i.obj, SnapObj::PlayerInfo(_)))
        .count();
    assert_eq!(infos, 2);
    // Without a character or anyone to follow, it is the first stage.
    let mut converter = snapshots();
    let items = converter.build(&snapshot, 77, 10, &Vec::new(), fits).unwrap();
    assert!(character_at(&items, converter.players[&8]).is_some());
}

#[test]
fn small_translations() {
    assert_eq!(weapon(WeaponType::Puller), 2);
    assert_eq!(weapon(WeaponType::Laser), 4);
    assert_eq!(clamp(i64::MIN), i32::MIN);
    assert_eq!(clamp(5), 5);
    assert_eq!(
        projectile_weapon(WeaponWithProjectile::Gun),
        ddnet_rs::legacy::objects::Weapon::Pistol
    );
}

#[test]
fn translations_that_do_not_fit_are_refused() {
    let (mut snapshot, local) = fixture();
    for id in 10..13 {
        snapshot.stages[0].pickups.push(Pickup {
            id,
            pos: at(1, 2),
            ty: PickupType::Health,
        });
    }
    let all = snapshots()
        .build(&snapshot, local, 1, &Vec::new(), fits)
        .unwrap();
    let first = all.len() - 3;
    for limit in 0..all.len() {
        let mut converter = snapshots();
        let fits = |items: &Vec<SnapItem>| {
            assert_eq!(items[..], all[..items.len()]);
            items.len() <= limit
        };
        assert_eq!(
            converter.build(&snapshot, local, 1, &Vec::new(), fits),
            Err(SnapshotError::DoesNotFit)
        );
        // The entity that did not fit is the last one that got an id.
        let placed: Vec<u64> = converter.objects.iter().map(|o| o.id).collect();
        let expected: Vec<u64> = (10..13).take((limit + 1).saturating_sub(first)).collect();
        assert_eq!(placed, expected);
    }
    let fits = |items: &Vec<SnapItem>| items.len() <= all.len();
    assert_eq!(
        snapshots().build(&snapshot, local, 1, &Vec::new(), fits),
        Ok(all.clone())
    );
}

#[test]
fn entity_ids_can_run_out() {
    let (mut snapshot, local) = fixture();
    for id in 65_530..65_536u64 {
        snapshot.stages[0].pickups.push(Pickup {
            id,
            pos: at(1, 2),
            ty: PickupType::Health,
        });
    }
    let mut converter = snapshots();
    for slot in 0..u16::MAX {
        converter.objects.push(ObjectSlot {
            kind: 4,
            id: slot as u64,
            slot,
            seen: 0,
        });
    }
    assert_eq!(
        converter.build(&snapshot, local, 1, &Vec::new(), fits),
        Err(SnapshotError::EntityIdsExhausted)
    );
}

#[test]
fn players_keep_their_slots_over_many_snapshots() {
    let mut converter = snapshots();
    let local = 1;
    let mut slots = std::collections::HashMap::new();
    for step in 0..20u64 {
        converter.latest_tick = step * 40;
        let mut ids: Vec<u64> = vec![2 + step % 4, 10 + step];
        if step % 2 == 0 {
            ids.push(local);
        }
        let characters = ids.iter().map(|id| character(*id)).collect();
        let snapshot = Snapshot {
            stages: vec![stage(1, characters)],
            spectators: Vec::new(),
        };
        converter.build(&snapshot, local, step as i32, &Vec::new(), fits).unwrap();
        assert_eq!(converter.players[&local], 0);
        let mut used: Vec<u16> = converter.players.values().copied().collect();
        used.sort();
        used.dedup();
        assert_eq!(used.len(), converter.players.len());
        assert!(used.iter().all(|slot| *slot < 64));
        for id in ids {
            slots.insert(id, (converter.latest_tick, converter.players[&id]));
        }
        for (id, (seen, slot)) in &slots {
            if converter.latest_tick - seen < 150 {
                assert_eq!(converter.players[id], *slot);
            }
        }
    }
}

#[test]
fn snapshots_advance_and_bases_are_the_newest() {
    let (fixture, _) = fixture();
    let parse = |data: &Vec<u8>| Some((fixture.clone(), data.len()));
    let mut converter = snapshots();
    let mut kept = std::collections::BTreeSet::new();
    let mut latest = None;
    for step in 0..200u64 {
        let id = step * 37 % 101;
        let keep = step % 3 != 0;
        let handed = converter
            .decode(&[id as u8; 4], None, id, 1000 + id, keep, &parse)
            .unwrap();
        if keep {
            kept.insert(id);
        }
        assert_eq!(handed.is_some(), latest.is_none_or(|latest| id > latest));
        if let Some((tick, _)) = handed {
            assert_eq!((tick, converter.latest_tick), (1000 + id, 1000 + id));
            latest = Some(id);
        }
        assert_eq!(converter.latest_id, latest);
        let mut newest: Vec<u64> = kept.iter().rev().take(32).copied().collect();
        newest.reverse();
        assert!(converter.bases.keys().copied().eq(newest));
    }
}

#[test]
fn differences_build_on_their_base() {
    assert_eq!(
        difference(10, 100, 2, 5, Some(vec![1, 2])),
        Ok(Packed {
            id: 12,
            tick: 105,
            bytes: vec![1, 2]
        })
    );
    assert_eq!(difference(1, 1, 1, 1, None), Err(SnapshotError::Compression));
    assert_eq!(
        difference(u64::MAX, 1, 1, u64::MAX, Some(Vec::new())),
        Err(SnapshotError::IdOverflow)
    );
    assert_eq!(
        difference(1, u64::MAX, 1, 1, Some(vec![0; MAX_SNAPSHOT + 1])),
        Err(SnapshotError::TickOverflow)
    );
    assert_eq!(
        difference(1, 1, 1, 1, Some(vec![0; MAX_SNAPSHOT + 1])),
        Err(SnapshotError::TooLarge)
    );
}

#[test]
fn entity_ids_tell_entities_apart() {
    let mut converter = snapshots();
    assert_eq!(converter.object(1, 5), Ok(0));
    assert_eq!(converter.object(2, 5), Ok(1));
    assert_eq!(converter.object(1, 6), Ok(2));
    assert_eq!(converter.object(1, 5), Ok(0));
    assert_eq!(converter.object(2, 5), Ok(1));
    converter.objects.retain(|o| o.slot != 1);
    assert_eq!(converter.object(3, 9), Ok(1));
    assert_eq!(converter.object(2, 5), Ok(3));
}
