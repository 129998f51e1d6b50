use ddnet_rs::legacy::backend::{
    BackendMsg, ChatChannel, GameModule, InputAck, JoinResponse, ModConfig,
};
use ddnet_rs::legacy::client::{skin_info, Client, ClientError, ServedMap};
use ddnet_rs::legacy::events::{
    sound, CharacterSound, EffectEvent, FlagSound, GrenadeSound, ItemSound, KillWeapon, LaserSound,
    SoundEvent, WorldEvent,
};
use ddnet_rs::legacy::input::LegacyInput;
use ddnet_rs::legacy::messages::{
    Action, ClientMsg, GameMsg, NewVote, PlayerLook, PlayerMsg, SkinColors, SkinName, SystemMsg,
    VoteKind, VoteOption,
};
use ddnet_rs::legacy::objects::{Common, SnapItem, SnapObj, Sound, Team};
use ddnet_rs::legacy::snapshot::{GameConfig, SnapshotError};
use ddnet_rs::legacy::votes::{Category, NamedOption, VoteState, VoteSubject};
use ddnet_rs::legacy::world::{MatchSide, Snapshot, WeaponType};
use std::time::Duration;

fn fits(_: &Vec<SnapItem>) -> bool {
    true
}

type Actions = Vec<Action<String, Vec<u8>>>;

const CONFIG: GameConfig = GameConfig {
    score_limit: 0,
    time_limit_secs: 0,
};

fn system(client: &mut Client, msg: SystemMsg, vital: bool) -> Result<Actions, ClientError> {
    let mut out = Vec::new();
    client.chunk(&ClientMsg::System(msg), vital, &mut out)?;
    Ok(out)
}

fn game(client: &mut Client, msg: GameMsg) -> Actions {
    let mut out = Vec::new();
    client.chunk(&ClientMsg::Game(msg), true, &mut out).unwrap();
    out
}

fn server(client: &mut Client, msg: BackendMsg) -> Result<Actions, ClientError> {
    let mut out = Vec::new();
    client.server_message(&msg, CONFIG, &mut out)?;
    Ok(out)
}

fn map(len: usize) -> ServedMap {
    ServedMap {
        name: "test".to_owned(),
        bytes: (0..len).map(|i| i as u8).collect(),
        crc: 1,
    }
}

fn player_look() -> PlayerLook {
    PlayerLook {
        name: b"legacy tee".to_vec(),
        clan: Vec::new(),
        skin: b"default".to_vec(),
        use_custom_color: false,
        color_body: 0,
        color_feet: 0,
    }
}

fn empty_snapshot() -> Snapshot {
    Snapshot {
        stages: Vec::new(),
        spectators: Vec::new(),
    }
}

/// A client whose player 7 is in the game since tick 99.
fn entered() -> Client {
    let mut client = Client::new(CONFIG);
    server(
        &mut client,
        BackendMsg::ReadyResponse(JoinResponse::Joined(vec![7])),
    )
    .unwrap();
    system(&mut client, SystemMsg::EnterGame, true).unwrap();
    client
        .snapshots
        .decode(&[1], None, 1, 100, true, |data: &Vec<u8>| {
            Some((empty_snapshot(), data.len()))
        })
        .unwrap();
    let mut out = Vec::new();
    let delta = client
        .snapshot(
            100,
            &empty_snapshot(),
            Duration::ZERO,
            &Vec::new(),
            Some(Vec::new()),
            fits,
            &mut out,
        )
        .unwrap()
        .unwrap();
    client.snapshot_sent(delta);
    client
}

#[test]
fn handshake_joins_the_backend_once() {
    let mut client = Client::new(CONFIG);
    let sent = system(
        &mut client,
        SystemMsg::Info {
            version: b"0.6 626fce9a778df4d4".to_vec(),
            password: Some(b"secret".to_vec()),
        },
        true,
    )
    .unwrap();
    assert_eq!(
        sent,
        vec![Action::PasswordResponse {
            password: "secret".to_owned()
        }]
    );
    assert!(client.transport_ready);
    let mut out = Vec::new();
    client.map_loaded(map(900), &mut out);
    assert_eq!(
        out,
        vec![Action::MapChange {
            name: "test".to_owned(),
            crc: 1,
            size: 900
        }]
    );
    // The player's info alone must not enter the backend before the client is ready.
    assert!(game(&mut client, GameMsg::StartInfo(player_look())).is_empty());
    assert!(!client.ready_sent);
    let sent = system(&mut client, SystemMsg::Ready, true).unwrap();
    assert!(client.ready_sent);
    assert_eq!(sent.len(), 2);
    assert_eq!(sent[0], Action::ConReady);
    match &sent[1] {
        Action::ReadyForGame { character } => {
            assert_eq!(character.name, "legacy tee");
            assert_eq!(character.skin, SkinName::OrDefault("default".to_owned()));
            assert_eq!(character.colors, SkinColors::Original);
        }
        other => panic!("unexpected {other:?}"),
    }
    let sent = system(&mut client, SystemMsg::Ready, true).unwrap();
    assert_eq!(sent, vec![Action::ConReady]);
    assert_eq!(
        server(&mut client, BackendMsg::RequiresPassword).unwrap(),
        vec![Action::PasswordResponse {
            password: "secret".to_owned()
        }]
    );
}

#[test]
fn other_versions_are_refused() {
    let mut client = Client::new(CONFIG);
    assert_eq!(
        system(
            &mut client,
            SystemMsg::Info {
                version: b"0.7".to_vec(),
                password: None
            },
            true
        ),
        Err(ClientError::UnsupportedVersion)
    );
}

#[test]
fn messages_that_may_be_lost_do_not_count() {
    let mut client = Client::new(CONFIG);
    let rcon = system(&mut client, SystemMsg::RconAuth, false).unwrap();
    assert!(rcon.is_empty());
    assert_eq!(
        system(&mut client, SystemMsg::Ping, false).unwrap(),
        vec![Action::PingReply]
    );
    assert_eq!(
        system(&mut client, SystemMsg::PingEx { id: [4; 16] }, false).unwrap(),
        vec![Action::PongEx { id: [4; 16] }]
    );
    assert_eq!(
        system(&mut client, SystemMsg::WhatIs { uuid: [5; 16] }, true).unwrap(),
        vec![Action::IDontKnow { uuid: [5; 16] }]
    );
    assert_eq!(
        system(&mut client, SystemMsg::RconAuth, true).unwrap().len(),
        2
    );
    let mut out = Vec::new();
    client.player = Some(1);
    client
        .chunk(&ClientMsg::Game(GameMsg::Kill), false, &mut out)
        .unwrap();
    client.chunk(&ClientMsg::Unknown, true, &mut out).unwrap();
    assert!(out.is_empty());
}

#[test]
fn map_is_sent_in_parts() {
    let mut client = Client::new(CONFIG);
    client.map = Some(map(900));
    let part = |client: &mut Client, chunk| {
        system(client, SystemMsg::RequestMapData { chunk }, true).unwrap()
    };
    let mut bytes = Vec::new();
    for (chunk, expected_last) in [(0, false), (1, true)] {
        match part(&mut client, chunk).pop().unwrap() {
            Action::MapData {
                last, crc, data, ..
            } => {
                assert_eq!((last, crc), (expected_last, 1));
                bytes.extend(data);
            }
            other => panic!("unexpected {other:?}"),
        }
    }
    assert_eq!(bytes, map(900).bytes);
    assert!(part(&mut client, 2).is_empty());
    assert!(part(&mut client, -1).is_empty());
    assert!(part(&mut client, i32::MAX).is_empty());
}

fn input(tick: i32, ack: i32) -> SystemMsg {
    SystemMsg::Input {
        ack_snapshot: ack,
        intended_tick: tick,
        input: LegacyInput {
            direction: 1,
            target_x: 320,
            target_y: 64,
            fire: tick,
            ..Default::default()
        },
    }
}

#[test]
fn inputs_reach_the_backend_and_are_timed() {
    let mut client = entered();
    assert_eq!(client.tick_origin, Some(99));
    let sent = system(&mut client, input(3, 1), false).unwrap();
    assert_eq!(client.ack, 1);
    assert_eq!(sent.len(), 1);
    let id = client.input_id;
    match &sent[0] {
        Action::Inputs {
            id: sent_id,
            input: Some(input),
            snap_ack,
        } => {
            assert_eq!((*sent_id, *snap_ack), (id, Some(1)));
            assert_eq!((input.player, input.tick), (7, 102));
            assert_eq!((input.input.latest.dir, input.input.latest.fires, input.input.fires), (1, 2, 2));
            assert_eq!(input.input.version, 1);
        }
        other => panic!("unexpected {other:?}"),
    }
    assert_eq!(client.pending_input_ticks[&id], (3, 102));
    // Too far away, out of date, or before the game.
    assert!(system(&mut client, input(152, -1), false).unwrap().is_empty());
    assert!(system(&mut client, input(2, 5), false).unwrap().is_empty());
    assert!(system(&mut client, input(-1, -1), false).unwrap().is_empty());
    assert_eq!(client.ack, 1);
    let mut out = Vec::new();
    let delta = client
        .snapshot(
            101,
            &empty_snapshot(),
            Duration::from_millis(5),
            &vec![
                InputAck {
                    id,
                    logic_overhead: Duration::from_millis(15),
                },
                InputAck {
                    id,
                    logic_overhead: Duration::ZERO,
                },
            ],
            Some(vec![1, 2]),
            fits,
            &mut out,
        )
        .unwrap()
        .unwrap();
    assert_eq!(
        out,
        vec![
            Action::InputTiming {
                input_pred_tick: 3,
                time_left: 30
            },
            Action::Inputs {
                id: id + 1,
                input: None,
                snap_ack: Some(1)
            },
            Action::Tuning {
                message: vec![1, 2]
            },
        ]
    );
    assert_eq!((delta.tick, delta.base_tick), (2, 1));
    assert_eq!(delta.base, client.old_snaps[&1]);
    assert!(!client.old_snaps.contains_key(&2));
    let items = delta.items.clone();
    client.snapshot_sent(delta);
    assert_eq!(items, client.old_snaps[&2]);
    assert!(client.pending_input_ticks.is_empty());
}

#[test]
fn inputs_before_entering_do_nothing() {
    let mut client = entered();
    client.entered = false;
    let (ack, id) = (client.ack, client.input_id);
    assert!(system(&mut client, input(3, 1), false).unwrap().is_empty());
    assert_eq!((client.ack, client.input_id), (ack, id));
    assert_eq!(client.inputs.last_tick, None);
}

#[test]
fn outstanding_inputs_are_limited() {
    let mut client = entered();
    for tick in 0..150 {
        system(&mut client, input(tick, -1), false).unwrap();
    }
    client.snapshots.latest_tick = 250;
    for tick in 150..300 {
        system(&mut client, input(tick, -1), false).unwrap();
    }
    assert_eq!(client.pending_input_ticks.len(), 256);
    assert_eq!(client.input_id, 301);
    assert!(!client.pending_input_ticks.contains_key(&45));
    assert!(client.pending_input_ticks.contains_key(&46));
}

#[test]
fn snapshot_ticks_are_checked() {
    let mut client = entered();
    let mut show = |client: &mut Client, tick| {
        let mut out = Vec::new();
        let shown = client.snapshot(
            tick,
            &empty_snapshot(),
            Duration::ZERO,
            &Vec::new(),
            Some(Vec::new()),
            fits,
            &mut out,
        );
        if let Ok(Some(delta)) = &shown {
            client.snapshot_sent(delta.clone());
        }
        shown
    };
    assert_eq!(show(&mut client, 98), Err(ClientError::TickBackwards));
    assert_eq!(
        show(&mut client, 100 + (1 << 31)),
        Err(ClientError::TickRange)
    );
    client.entered = false;
    assert_eq!(show(&mut client, 101), Ok(None));
    client.entered = true;
    for tick in 0..200 {
        show(&mut client, 200 + tick).unwrap();
    }
    assert_eq!(client.old_snaps.len(), 150);
}

#[test]
fn players_that_do_not_fit_are_an_error() {
    let mut client = entered();
    let mut snapshot = empty_snapshot();
    for id in 0..65 {
        snapshot.spectators.push(ddnet_rs::legacy::world::Spectator {
            id,
            look: ddnet_rs::legacy::world::CharacterLook {
                name: String::new(),
                clan: String::new(),
                skin: String::new(),
                skin_info: ddnet_rs::legacy::world::SkinInfo::Original,
            },
            follows: Vec::new(),
            cursor: ddnet_rs::legacy::world::Position {
                x: ddnet_rs::legacy::world::Coordinate { rounded: 0, cut: 0 },
                y: ddnet_rs::legacy::world::Coordinate { rounded: 0, cut: 0 },
            },
        });
    }
    let mut out = Vec::new();
    assert_eq!(
        client.snapshot(
            101,
            &snapshot,
            Duration::ZERO,
            &Vec::new(),
            Some(Vec::new()),
            fits,
            &mut out
        ),
        Err(ClientError::Snapshot(SnapshotError::TooManyPlayers))
    );
}

#[test]
fn loading_a_game_forgets_the_last_one() {
    let mut client = entered();
    client.ready_sent = true;
    client.map = Some(map(1));
    client.effects.push(SnapObj::Spawn {
        common: Common { x: 0, y: 0 },
    });
    let config = GameConfig {
        score_limit: 5,
        time_limit_secs: 60,
    };
    let load = |module, config, physics: &str| BackendMsg::Load {
        module,
        config,
        physics: physics.to_owned(),
    };
    assert_eq!(
        server(
            &mut client,
            load(GameModule::Other, ModConfig::Absent, "ddnet")
        ),
        Err(ClientError::UnsupportedModule)
    );
    assert!(client.entered);
    server(
        &mut client,
        load(GameModule::Ddnet, ModConfig::Given(config), "ddnet"),
    )
    .unwrap();
    assert!(!client.entered && !client.ready_sent && client.player.is_none());
    assert!(client.map.is_none() && client.effects.is_empty() && client.old_snaps.is_empty());
    assert!(client.inputs.race && client.snapshots.race);
    assert_eq!(client.snapshots.game_config, config);
    assert_eq!((client.ack, client.tick_origin), (-1, None));
    assert_eq!(
        server(
            &mut client,
            load(GameModule::Native, ModConfig::Invalid, "")
        ),
        Err(ClientError::InvalidConfig)
    );
    server(
        &mut client,
        load(GameModule::Native, ModConfig::Absent, "vanilla"),
    )
    .unwrap();
    assert!(!client.inputs.race);
    assert_eq!(client.snapshots.game_config, CONFIG);
}

#[test]
fn join_responses() {
    let mut client = Client::new(CONFIG);
    assert_eq!(
        server(&mut client, BackendMsg::ReadyResponse(JoinResponse::Rejected)),
        Err(ClientError::Rejected)
    );
    assert_eq!(
        server(
            &mut client,
            BackendMsg::ReadyResponse(JoinResponse::Joined(Vec::new()))
        ),
        Err(ClientError::NobodyJoined)
    );
    system(&mut client, SystemMsg::EnterGame, true).unwrap();
    assert!(!client.entered);
    let sent = server(
        &mut client,
        BackendMsg::ReadyResponse(JoinResponse::Joined(vec![3, 4])),
    )
    .unwrap();
    assert_eq!(
        sent,
        vec![
            Action::ReadyToEnter,
            Action::LoadMapVotes,
            Action::LoadMiscVotes
        ]
    );
    assert_eq!(client.player, Some(3));
}

fn player(msg: PlayerMsg<String>) -> Actions {
    vec![Action::Player { player: 7, msg }]
}

#[test]
fn game_messages_speak_for_the_player() {
    let mut client = entered();
    assert_eq!(client.snapshots.players[&7], 0);
    assert_eq!(game(&mut client, GameMsg::Kill), player(PlayerMsg::Kill));
    assert!(game(&mut client, GameMsg::Vote { vote: 0 }).is_empty());
    assert_eq!(
        game(&mut client, GameMsg::Vote { vote: -1 }),
        player(PlayerMsg::Voted { yes: false })
    );
    assert_eq!(
        game(&mut client, GameMsg::Emoticon { emoticon: 5 }),
        player(PlayerMsg::Emoticon { emoticon: 5 })
    );
    assert_eq!(
        game(
            &mut client,
            GameMsg::Say {
                team: true,
                message: vec![b'h', b'i', 0xff]
            }
        ),
        player(PlayerMsg::Chat {
            team: true,
            message: "hi\u{fffd}".to_owned()
        })
    );
    assert_eq!(
        game(&mut client, GameMsg::SetSpectatorMode { spectator_id: 0 }),
        player(PlayerMsg::FreeCamera { follow: Some(7) })
    );
    assert_eq!(
        game(&mut client, GameMsg::SetSpectatorMode { spectator_id: -1 }),
        player(PlayerMsg::FreeCamera { follow: None })
    );
    assert_eq!(
        game(
            &mut client,
            GameMsg::SetTeam {
                team: Team::Spectators
            }
        ),
        player(PlayerMsg::JoinSpectator)
    );
    assert_eq!(
        game(&mut client, GameMsg::SetTeam { team: Team::Blue }),
        [
            player(PlayerMsg::JoinDefaultStage),
            player(PlayerMsg::JoinSide(MatchSide::Blue))
        ]
        .concat()
    );
    assert!(game(&mut client, GameMsg::ChangeInfo(player_look())).is_empty());
    game(&mut client, GameMsg::StartInfo(player_look()));
    let id = client.input_id;
    match game(&mut client, GameMsg::ChangeInfo(player_look())).pop() {
        Some(Action::Player {
            msg: PlayerMsg::UpdateCharacterInfo { version, info },
            ..
        }) => {
            assert_eq!(version, id + 1);
            assert_eq!(info.skin, SkinName::Lossy("default".to_owned()));
        }
        other => panic!("unexpected {other:?}"),
    }
    assert_eq!(
        skin_info(true, 1, 2),
        SkinColors::Custom {
            body_color: 1,
            feet_color: 2
        }
    );
}

fn call(type_: &str, value: &str) -> GameMsg {
    GameMsg::CallVote {
        type_: type_.as_bytes().to_vec(),
        value: value.as_bytes().to_vec(),
        reason: b"because".to_vec(),
    }
}

#[test]
fn votes_are_offered_and_called() {
    let mut client = entered();
    let categories = vec![Category {
        name: "Maps".to_owned(),
        options: vec![
            NamedOption {
                name: "dm1".to_owned(),
                key: 11,
            },
            NamedOption {
                name: "x".repeat(100),
                key: 12,
            },
        ],
    }];
    server(
        &mut client,
        BackendMsg::LoadVotes {
            kind: VoteKind::MapVote,
            categories: categories.clone(),
        },
    )
    .unwrap();
    server(
        &mut client,
        BackendMsg::LoadVotes {
            kind: VoteKind::MiscVote,
            categories,
        },
    )
    .unwrap();
    let mut out = Vec::new();
    assert!(client.votes.tell(3, &mut out));
    let long = format!("2 Maps: {}", "x".repeat(42));
    assert_eq!(
        out[..2],
        [
            Action::VoteOptionAdd {
                description: "1 Maps: dm1".to_owned()
            },
            Action::VoteOptionAdd {
                description: long.clone()
            }
        ]
    );
    assert!(!client.votes.tell(8, &mut out));
    assert_eq!(out.len(), 4);
    assert_eq!(
        game(&mut client, call("option", &long)),
        player(PlayerMsg::StartVote(NewVote::Listed(VoteOption {
            kind: VoteKind::MapVote,
            key: 12
        })))
    );
    assert!(game(&mut client, call("option", "9 Maps: dm1")).is_empty());
    assert_eq!(
        game(&mut client, call("kick", "0")),
        player(PlayerMsg::StartVote(NewVote::Kick {
            player: 7,
            reason: "because".to_owned()
        }))
    );
    assert_eq!(
        game(&mut client, call("spectate", "+00")),
        player(PlayerMsg::StartVote(NewVote::Spectate {
            player: 7,
            reason: "because".to_owned()
        }))
    );
    for value in ["1", "-0", "x", "65536", ""] {
        assert!(game(&mut client, call("kick", value)).is_empty());
    }
    assert!(game(&mut client, call("other", "0")).is_empty());
    assert_eq!(
        server(
            &mut client,
            BackendMsg::ResetVotes {
                kind: VoteKind::MapVote
            }
        )
        .unwrap(),
        vec![Action::VoteClearOptions]
    );
    assert!(game(&mut client, call("option", &long)).is_empty());
    out.clear();
    assert!(!client.votes.tell(8, &mut out));
    assert_eq!(out.len(), 2);
}

#[test]
fn vote_options_are_limited() {
    let mut client = Client::new(CONFIG);
    let options = (0..5000)
        .map(|key| NamedOption {
            name: String::new(),
            key,
        })
        .collect();
    client.load_votes(
        VoteKind::MiscVote,
        &vec![Category {
            name: String::new(),
            options,
        }],
    );
    assert_eq!(client.votes.entries.len(), 4096);
    assert_eq!(client.votes.find("4096 : ").unwrap().key, 4095);
    assert!(client.votes.find("4097 : ").is_none());
}

#[test]
fn vote_state_is_shown() {
    let mut client = Client::new(CONFIG);
    assert_eq!(
        server(&mut client, BackendMsg::Vote(None)).unwrap(),
        vec![Action::VoteSet {
            timeout: 0,
            description: String::new(),
            reason: String::new()
        }]
    );
    let vote = VoteState {
        subject: VoteSubject::Kick {
            name: "n".repeat(70),
            reason: "é".repeat(40),
        },
        remaining_secs: 100,
        allowed_to_vote_count: 100,
        yes_votes: 40,
        no_votes: 30,
    };
    assert_eq!(
        server(&mut client, BackendMsg::Vote(Some(vote.clone()))).unwrap(),
        vec![
            Action::VoteSet {
                timeout: 60,
                description: format!("Kick {}", "n".repeat(59)),
                reason: "é".repeat(32)
            },
            Action::VoteStatus {
                yes: 40,
                no: 30,
                pass: 0,
                total: 64
            }
        ]
    );
    for (subject, text) in [
        (
            VoteSubject::MapVote {
                name: "a".to_owned(),
            },
            "Map: a",
        ),
        (
            VoteSubject::MiscVote {
                name: "b".to_owned(),
            },
            "b",
        ),
        (
            VoteSubject::Spectate {
                name: "c".to_owned(),
                reason: String::new(),
            },
            "Spectate c",
        ),
        (VoteSubject::RandomUnfinishedMap, "Random unfinished map"),
    ] {
        let vote = VoteState {
            subject,
            remaining_secs: 0,
            allowed_to_vote_count: 5,
            yes_votes: 1,
            no_votes: 1,
        };
        let sent = server(&mut client, BackendMsg::Vote(Some(vote))).unwrap();
        assert_eq!(
            sent,
            vec![
                Action::VoteSet {
                    timeout: 1,
                    description: text.to_owned(),
                    reason: String::new()
                },
                Action::VoteStatus {
                    yes: 1,
                    no: 1,
                    pass: 3,
                    total: 5
                }
            ]
        );
    }
}

#[test]
fn chat_is_cleaned_and_cut() {
    let mut client = entered();
    let chat = |client: &mut Client, sender, channel, message: &str| {
        server(
            client,
            BackendMsg::Chat {
                sender,
                channel,
                message: message.to_owned(),
            },
        )
        .unwrap()
    };
    assert_eq!(
        chat(&mut client, 7, ChatChannel::Whisper, "a\0b"),
        vec![Action::Chat {
            team: 2,
            client_id: 0,
            message: "ab".to_owned()
        }]
    );
    assert_eq!(
        chat(&mut client, 9, ChatChannel::Whisper, &"é".repeat(300)),
        vec![Action::Chat {
            team: 3,
            client_id: -1,
            message: "é".repeat(256)
        }]
    );
    match chat(&mut client, 9, ChatChannel::GameTeam, "x")[0] {
        Action::Chat { team, .. } => assert_eq!(team, 1),
        _ => panic!("no chat"),
    }
    assert_eq!(
        server(
            &mut client,
            BackendMsg::QueueInfo {
                message: "2nd".to_owned()
            }
        )
        .unwrap(),
        vec![Action::Broadcast {
            message: "2nd".to_owned()
        }]
    );
    assert!(server(&mut client, BackendMsg::Other).unwrap().is_empty());
}

fn say(message: &str) -> Action<String, Vec<u8>> {
    Action::Chat {
        team: 0,
        client_id: -1,
        message: message.to_owned(),
    }
}

#[test]
fn events_become_messages_and_objects() {
    let mut client = entered();
    let common = Common { x: 3, y: 4 };
    let name = || "tee".to_owned();
    let events = vec![
        WorldEvent::Sound {
            ev: SoundEvent::Puller(ItemSound::Collect),
            pos: Some(common),
        },
        WorldEvent::Sound {
            ev: SoundEvent::Flag(FlagSound::Capture),
            pos: None,
        },
        WorldEvent::Sound {
            ev: SoundEvent::Other,
            pos: None,
        },
        WorldEvent::Effect {
            ev: EffectEvent::Death,
            pos: common,
            owner: Some(99),
        },
        WorldEvent::Effect {
            ev: EffectEvent::DamageIndicator { angle: 12 },
            pos: common,
            owner: None,
        },
        WorldEvent::Effect {
            ev: EffectEvent::Other,
            pos: common,
            owner: None,
        },
        WorldEvent::Motd { msg: name() },
        WorldEvent::Message { msg: name() },
        WorldEvent::PlayerJoined { name: name() },
        WorldEvent::PlayerLeft { name: name() },
        WorldEvent::CharacterInfoChanged {
            old_name: name(),
            new_name: name(),
        },
        WorldEvent::CharacterInfoChanged {
            old_name: name(),
            new_name: "ufo".to_owned(),
        },
        WorldEvent::Kill {
            killer: None,
            victims: vec![99, 7],
            weapon: KillWeapon::Weapon(WeaponType::Grenade),
        },
        WorldEvent::RaceFinish {
            seconds: "1.25".to_owned(),
        },
    ];
    let sent = server(&mut client, BackendMsg::Events(events)).unwrap();
    assert_eq!(
        sent,
        vec![
            Action::SoundGlobal {
                sound_id: Sound::CtfCapture
            },
            Action::Motd { message: name() },
            say("tee"),
            say("tee entered the game"),
            say("tee left the game"),
            say("tee is now known as ufo"),
            Action::KillMsg {
                killer: 0,
                victim: 0,
                weapon: 3
            },
            say("Finished in 1.25 seconds"),
        ]
    );
    assert_eq!(
        client.effects,
        vec![
            SnapObj::SoundWorld {
                common,
                sound_id: Sound::PickupShotgun
            },
            SnapObj::Death {
                common,
                client_id: 0
            },
            SnapObj::DamageInd { common, angle: 12 },
        ]
    );
}

#[test]
fn pending_effects_are_limited() {
    let mut client = Client::new(CONFIG);
    let events = (0..300)
        .map(|x| WorldEvent::Effect {
            ev: EffectEvent::HammerHit,
            pos: Common { x, y: 0 },
            owner: None,
        })
        .collect();
    server(&mut client, BackendMsg::Events(events)).unwrap();
    assert_eq!(client.effects.len(), 256);
    assert_eq!(
        client.effects[0],
        SnapObj::HammerHit {
            common: Common { x: 44, y: 0 }
        }
    );
}

#[test]
fn sounds_are_translated() {
    let c = |event| sound(SoundEvent::Character(event));
    assert_eq!(c(CharacterSound::LaserFire), Some(Sound::RifleFire));
    assert_eq!(c(CharacterSound::PullerFire), Some(Sound::ShotgunFire));
    assert_eq!(
        c(CharacterSound::Pain { long: false }),
        Some(Sound::PlayerPainShort)
    );
    assert_eq!(
        sound(SoundEvent::Grenade(GrenadeSound::Explosion)),
        Some(Sound::GrenadeExplode)
    );
    assert_eq!(
        sound(SoundEvent::Laser(LaserSound::Collect)),
        Some(Sound::PickupShotgun)
    );
    assert_eq!(
        sound(SoundEvent::Heart(ItemSound::Spawn)),
        Some(Sound::WeaponSpawn)
    );
    assert_eq!(sound(SoundEvent::Other), None);
}

#[test]
fn whole_map_is_sent_part_by_part() {
    for len in [0, 1, 895, 896, 897, 1792, 2000] {
        let mut client = Client::new(CONFIG);
        client.map = Some(map(len));
        client.input_id = u64::MAX;
        let count = (len + 895) / 896;
        let mut bytes = Vec::new();
        for i in 0..count {
            let chunk = i as i32;
            let mut sent = system(&mut client, SystemMsg::RequestMapData { chunk }, true).unwrap();
            assert_eq!(sent.len(), 1);
            match sent.pop().unwrap() {
                Action::MapData {
                    last,
                    crc,
                    chunk,
                    data,
                } => {
                    assert_eq!((last, crc, chunk), (i + 1 == count, 1, i as i32));
                    assert!(data.len() <= 896);
                    bytes.extend(data);
                }
                other => panic!("unexpected {other:?}"),
            }
        }
        assert_eq!(bytes, map(len).bytes);
    }
}

#[test]
fn game_is_joined_once_in_either_order() {
    let joins = |sent: Actions| {
        sent.into_iter()
            .filter(|a| matches!(a, Action::ReadyForGame { .. }))
            .count()
    };
    for ready_first in [false, true] {
        let mut client = Client::new(CONFIG);
        client.map = Some(map(10));
        let mut counts = Vec::new();
        for step in 0..6 {
            let ready = (step % 2 == 0) == ready_first;
            counts.push(joins(if ready {
                system(&mut client, SystemMsg::Ready, true).unwrap()
            } else {
                game(&mut client, GameMsg::StartInfo(player_look()))
            }));
            game(&mut client, GameMsg::Kill);
            game(&mut client, GameMsg::ChangeInfo(player_look()));
            assert_eq!(client.ready_sent, step > 0);
        }
        assert_eq!(counts, [0, 1, 0, 0, 0, 0]);
    }
}

#[test]
fn vote_labels_are_distinct() {
    let mut client = Client::new(CONFIG);
    let load = |kind, keys: std::ops::Range<u64>| BackendMsg::LoadVotes {
        kind,
        categories: vec![Category {
            name: "c".to_owned(),
            options: keys
                .map(|key| NamedOption {
                    name: "same".to_owned(),
                    key,
                })
                .collect(),
        }],
    };
    server(&mut client, load(VoteKind::MapVote, 0..3)).unwrap();
    server(&mut client, load(VoteKind::MiscVote, 3..6)).unwrap();
    let kind = VoteKind::MapVote;
    server(&mut client, BackendMsg::ResetVotes { kind }).unwrap();
    server(&mut client, load(VoteKind::MapVote, 6..9)).unwrap();
    let mut labels: Vec<_> = client.votes.entries.iter().map(|e| e.label.clone()).collect();
    labels.sort();
    labels.dedup();
    assert_eq!(labels.len(), client.votes.entries.len());
}

#[test]
fn snapshots_that_do_not_fit_leave_effects_and_bases() {
    let mut client = entered();
    let snaps = client.old_snaps.len();
    client.effects.push(SnapObj::Death {
        common: Common { x: 1, y: 2 },
        client_id: 0,
    });
    let mut out = Vec::new();
    let refuse = |_: &Vec<SnapItem>| false;
    assert_eq!(
        client.snapshot(
            101,
            &empty_snapshot(),
            Duration::ZERO,
            &Vec::new(),
            Some(Vec::new()),
            refuse,
            &mut out,
        ),
        Err(ClientError::Snapshot(SnapshotError::DoesNotFit))
    );
    assert_eq!(client.effects.len(), 1);
    assert_eq!(client.old_snaps.len(), snaps);
}

#[test]
fn tuning_matters_to_entered_clients_only() {
    let mut client = entered();
    let show = |client: &mut Client, tick| {
        client.snapshot(
            tick,
            &empty_snapshot(),
            Duration::ZERO,
            &Vec::new(),
            None,
            fits,
            &mut Vec::new(),
        )
    };
    assert_eq!(show(&mut client, 98), Err(ClientError::TickBackwards));
    assert_eq!(show(&mut client, 101), Err(ClientError::Tuning));
    client.entered = false;
    assert_eq!(show(&mut client, 101), Ok(None));
}

#[test]
fn effects_wait_until_a_snapshot_was_sent() {
    let mut client = entered();
    client.effects.push(SnapObj::Death {
        common: Common { x: 1, y: 2 },
        client_id: 0,
    });
    let mut out = Vec::new();
    let delta = client
        .snapshot(
            101,
            &empty_snapshot(),
            Duration::ZERO,
            &Vec::new(),
            Some(Vec::new()),
            fits,
            &mut out,
        )
        .unwrap()
        .unwrap();
    assert_eq!(client.effects.len(), 1);
    client.snapshot_sent(delta);
    assert!(client.effects.is_empty());
}
