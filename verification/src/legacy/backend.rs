//! What a client makes of the messages of the backend.
use crate::legacy::client::{
    added_messages, client_valid, extends, readied, Client, ClientError, ServedMap,
    MAX_OLD_SNAPS,
};
use crate::legacy::events::{translate, translated_events, WorldEvent, MAX_CHAT};
use crate::legacy::input::{millis_left, time_left, no_input, Inputs, LegacyInput};
use crate::legacy::messages::{emit, shown, Action, Bytes, Text, VoteKind, VoteOption};
use crate::legacy::objects::{SnapItem, SnapObj};
use crate::legacy::slots::{entity_ids_survive_a_build, slots_stay_distinct};
use crate::legacy::snapshot::{
    builds, is_fresh, low, low_i32, slot_number, slot_or, GameConfig, SnapshotError,
    Snapshots,
};
use crate::legacy::unique::pending_objects_are_events;
use crate::legacy::votes::{loaded, state, vote_messages, without_kind, Category, VoteState};
use crate::legacy::world::Snapshot;
use crate::tables::{newest, trim};
use crate::text::{bounded, chars_of, equal, same_bytes, string_of, truncate};
use std::collections::BTreeMap;
use std::time::Duration;
use vstd::prelude::*;

verus! {

/// The game modules that a server can run.
#[derive(Clone, Copy, Debug, PartialEq, Eq, Structural)]
pub enum GameModule {
    Native,
    Ddnet,
    Other,
}

/// The configuration that came with a game module.
#[derive(Clone, Copy, Debug, PartialEq, Eq)]
pub enum ModConfig {
    Absent,
    Invalid,
    Given(GameConfig),
}

/// The client after the backend announced a game, up to its configuration.
pub open spec fn unloaded(before: Client, snapshots: Snapshots) -> Client {
    Client {
        map: None,
        ready_sent: false,
        legacy_ready: false,
        player: None,
        entered: false,
        snapshots,
        ..before
    }
}

/// The input state of a new game.
pub open spec fn new_inputs(race: bool) -> Inputs {
    Inputs {
        previous: LegacyInput {
            direction: 0,
            target_x: 0,
            target_y: 0,
            jump: 0,
            fire: 0,
            hook: 0,
            player_flags: 0,
            wanted_weapon: 0,
            next_weapon: 0,
            prev_weapon: 0,
        },
        race,
        current: no_input(),
        last_tick: None,
    }
}

/// The client after the backend announced a game: all that belongs to the
/// game before is forgotten. What the player is called, its password and the
/// votes stay.
pub open spec fn load_answered(
    before: Client,
    module: GameModule,
    config: ModConfig,
    default_config: GameConfig,
    physics: Text,
    after: Client,
    r: Result<(), ClientError>,
) -> bool {
    let race = physics == "ddnet"@;
    if module is Other {
        r == Err::<(), ClientError>(ClientError::UnsupportedModule) && after == before
    } else {
        &&& is_fresh(after.snapshots)
        &&& match config {
            ModConfig::Invalid => {
                &&& r == Err::<(), ClientError>(ClientError::InvalidConfig)
                &&& !after.snapshots.race
                &&& after.snapshots.game_config == default_config
                &&& after == unloaded(before, after.snapshots)
            },
            _ => {
                &&& r == Ok::<(), ClientError>(())
                &&& after.snapshots.race == race
                &&& after.snapshots.game_config == match config {
                    ModConfig::Given(config) => config,
                    _ => default_config,
                }
                &&& after.pending_input_ticks@ == Map::<u64, (i32, u64)>::empty()
                &&& after.old_snaps@ == Map::<u64, Vec<SnapItem>>::empty()
                &&& after.tuning@ == Seq::<u8>::empty()
                &&& after.effects@ == Seq::<SnapObj>::empty()
                &&& after == (Client {
                    inputs: new_inputs(race),
                    pending_input_ticks: after.pending_input_ticks,
                    old_snaps: after.old_snaps,
                    ack: -1i32,
                    tick_origin: None,
                    tuning: after.tuning,
                    effects: after.effects,
                    ..unloaded(before, after.snapshots)
                })
            },
        }
    }
}

/// The answer of the backend to a client that joins.
#[derive(Clone, Debug, PartialEq, Eq)]
pub enum JoinResponse {
    Joined(Vec<u64>),
    Rejected,
}

/// The acknowledgement of an input, with the time since its arrival.
#[derive(Clone, Copy, Debug, PartialEq, Eq)]
pub struct InputAck {
    pub id: u64,
    pub logic_overhead: Duration,
}

/// The inputs that are still not acknowledged, and the timing messages about
/// those that are.
pub open spec fn acknowledged(
    pending: Map<u64, (i32, u64)>,
    tick: u64,
    overhead: Duration,
    acks: Seq<InputAck>,
) -> (Map<u64, (i32, u64)>, Seq<Action<Text, Bytes>>)
    decreases acks.len(),
{
    if acks.len() == 0 {
        (pending, seq![])
    } else {
        let (left, messages) = acknowledged(pending, tick, overhead, acks.drop_last());
        let ack = acks.last();
        if left.contains_key(ack.id) {
            let (input_pred_tick, input_tick) = left[ack.id];
            (
                left.remove(ack.id),
                messages.push(
                    Action::InputTiming {
                        input_pred_tick,
                        time_left: millis_left(input_tick, tick, overhead, ack.logic_overhead),
                    },
                ),
            )
        } else {
            (left, messages)
        }
    }
}

/// A snapshot for the client as the difference to an earlier one. The tick
/// -1 stands for the empty snapshot.
#[derive(Clone, Debug, PartialEq, Eq)]
pub struct Delta {
    pub tick: i32,
    pub base_tick: i32,
    pub base: Vec<SnapItem>,
    pub items: Vec<SnapItem>,
}

/// The first tick of the client: one before its first snapshot.
pub open spec fn origin_of(c: Client, tick: u64) -> u64 {
    match c.tick_origin {
        Some(origin) => origin,
        None => if tick > 0 {
            (tick - 1) as u64
        } else {
            0
        },
    }
}

/// The snapshot that differences are based on, with its tick.
pub open spec fn delta_base(c: Client) -> (i32, Seq<SnapItem>) {
    if c.ack >= 0 && c.old_snaps@.contains_key(c.ack as u64) {
        (c.ack, c.old_snaps@[c.ack as u64]@)
    } else {
        (-1i32, seq![])
    }
}

/// The message that new tuning takes.
pub open spec fn tuning_message(c: Client, tuning: Bytes) -> Seq<Action<Text, Bytes>> {
    if c.tuning@ == tuning {
        seq![]
    } else {
        seq![Action::Tuning { message: tuning }]
    }
}

/// The answer to a snapshot once its inputs are acknowledged.
pub open spec fn snapshot_shown<P: Fn(&Vec<SnapItem>) -> bool>(
    before: Client,
    tick: u64,
    snapshot: Snapshot,
    tuning: Option<Vec<u8>>,
    pack: P,
    after: Client,
    sent: Seq<Action<Text, Bytes>>,
    r: Result<Option<Delta>, ClientError>,
) -> bool {
    let origin = origin_of(before, tick);
    let started = Client { tick_origin: Some(origin), ..before };
    if !before.entered {
        r == Ok::<Option<Delta>, ClientError>(None) && after == before && sent.len() == 0
    } else if tick < origin {
        &&& r == Err::<Option<Delta>, ClientError>(ClientError::TickBackwards)
        &&& after == started
        &&& sent.len() == 0
    } else if tick - origin > i32::MAX {
        &&& r == Err::<Option<Delta>, ClientError>(ClientError::TickRange)
        &&& after == started
        &&& sent.len() == 0
    } else if tuning is None {
        &&& r == Err::<Option<Delta>, ClientError>(ClientError::Tuning)
        &&& after == started
        &&& sent.len() == 0
    } else {
        let now = (tick - origin) as i32;
        let tuning = tuning->0@;
        &&& sent == tuning_message(before, tuning)
        &&& after.tuning@ == tuning
        &&& exists|built: Result<Vec<SnapItem>, SnapshotError>|
            {
                &&& #[trigger] builds(
                    before.snapshots,
                    snapshot,
                    before.player->0,
                    now,
                    before.effects@,
                    pack,
                    built,
                    after.snapshots,
                )
                &&& match built {
                    Err(error) => r == Err::<Option<Delta>, ClientError>(
                        ClientError::Snapshot(error),
                    ),
                    Ok(items) => r matches Ok(Some(delta)) && delta.tick == now && (
                        delta.base_tick,
                        delta.base@,
                    ) == delta_base(before) && delta.items@ == items@,
                }
            }
        &&& after == (Client { tuning: after.tuning, snapshots: after.snapshots, ..started })
    }
}

/// `after` is the client after it was sent a snapshot: the events that waited
/// for it are gone, and it can be the base of later differences.
pub open spec fn delta_sent(before: Client, delta: Delta, after: Client) -> bool {
    &&& newest(
        before.old_snaps@.insert(delta.tick as u64, delta.items),
        after.old_snaps@,
        MAX_OLD_SNAPS as nat,
    )
    &&& after.effects@ == Seq::<SnapObj>::empty()
    &&& after == (Client { effects: after.effects, old_snaps: after.old_snaps, ..before })
}

/// The channel that a chat message came through.
#[derive(Clone, Copy, Debug, PartialEq, Eq, Structural)]
pub enum ChatChannel {
    Global,
    GameTeam,
    Whisper,
}

/// A text without its NUL characters.
pub open spec fn without_nul(s: Text) -> Text
    decreases s.len(),
{
    if s.len() == 0 {
        seq![]
    } else if s.last() == '\0' {
        without_nul(s.drop_last())
    } else {
        without_nul(s.drop_last()).push(s.last())
    }
}

/// A chat message of a player. Whispers are marked as sent or received.
pub open spec fn chat_message(c: Client, sender: u64, channel: ChatChannel, message: Text) -> Action<
    Text,
    Bytes,
> {
    Action::Chat {
        team: match channel {
            ChatChannel::Global => 0i32,
            ChatChannel::GameTeam => 1i32,
            ChatChannel::Whisper => if c.player == Some(sender) {
                2i32
            } else {
                3i32
            },
        },
        client_id: slot_or(c.snapshots.players@, sender, -1i32),
        message: bounded(without_nul(message), MAX_CHAT as nat),
    }
}

/// The message that announces a map.
pub open spec fn map_change(map: ServedMap) -> Action<Text, Bytes> {
    Action::MapChange {
        name: map.name@,
        crc: map.crc,
        size: low_i32(map.bytes@.len() as int),
    }
}

fn remove_nul(text: &str) -> (r: String)
    ensures
        r@ == without_nul(text@),
{
    let chars = chars_of(text);
    let mut kept: Vec<char> = Vec::new();
    let mut i: usize = 0;
    while i < chars.len()
        invariant
            i <= chars.len(),
            kept@ == without_nul(chars@.take(i as int)),
        decreases chars.len() - i,
    {
        assert(chars@.take(i + 1).drop_last() =~= chars@.take(i as int));
        if chars[i] != '\0' {
            kept.push(chars[i]);
        }
        i += 1;
    }
    assert(chars@.take(i as int) =~= chars@);
    string_of(&kept)
}

impl Client {
    /// Answers a backend that asks for the password.
    pub fn requires_password(&self, out: &mut Vec<Action<String, Vec<u8>>>)
        ensures
            shown(final(out)@) == shown(old(out)@).push(
                Action::PasswordResponse { password: self.password@ },
            ),
    {
        emit(out, Action::PasswordResponse { password: self.password.clone() });
    }

    /// Prepares for the game that the backend announced.
    pub fn load(
        &mut self,
        module: GameModule,
        config: ModConfig,
        default_config: GameConfig,
        physics: &str,
    ) -> (r: Result<(), ClientError>)
        requires
            client_valid(*old(self)),
        ensures
            load_answered(
                *old(self),
                module,
                config,
                default_config,
                physics@,
                *final(self),
                r,
            ),
            client_valid(*final(self)),
    {
        if let GameModule::Other = module {
            return Err(ClientError::UnsupportedModule);
        }
        self.map = None;
        self.ready_sent = false;
        self.legacy_ready = false;
        self.player = None;
        self.entered = false;
        self.snapshots = Snapshots::new(false, default_config);
        match config {
            ModConfig::Absent => {},
            ModConfig::Invalid => {
                return Err(ClientError::InvalidConfig);
            },
            ModConfig::Given(config) => {
                self.snapshots.game_config = config;
            },
        }
        let race = equal(physics, "ddnet");
        self.inputs = Inputs::default();
        self.pending_input_ticks = BTreeMap::new();
        self.inputs.race = race;
        self.snapshots.race = race;
        self.old_snaps = BTreeMap::new();
        self.ack = -1;
        self.tick_origin = None;
        self.tuning = Vec::new();
        self.effects = Vec::new();
        Ok(())
    }

    /// Announces a map that was loaded, and joins the game if that was
    /// missing.
    pub fn map_loaded(&mut self, map: ServedMap, out: &mut Vec<Action<String, Vec<u8>>>)
        requires
            client_valid(*old(self)),
        ensures
            extends(old(out)@, final(out)@),
            ({
                let sent = added_messages(old(out)@, final(out)@);
                &&& sent.len() > 0 && sent[0] == map_change(map)
                &&& readied((Client { map: Some(map), ..*old(self) }), *final(self), sent.skip(1))
            }),
            client_valid(*final(self)),
    {
        let size: i32 = low(map.bytes.len());
        emit(out, Action::MapChange { name: map.name.clone(), crc: map.crc, size });
        self.map = Some(map);
        let ghost told = out@;
        self.ready(out);
        assert(added_messages(old(out)@, out@).skip(1) =~= added_messages(told, out@));
        assert(shown(out@)[old(out)@.len() as int] == shown(told).last());
    }

    /// Takes note of the player that the backend let in.
    pub fn ready_response(
        &mut self,
        response: &JoinResponse,
        out: &mut Vec<Action<String, Vec<u8>>>,
    ) -> (r: Result<(), ClientError>)
        requires
            client_valid(*old(self)),
        ensures
            match response {
                JoinResponse::Rejected => {
                    &&& r == Err::<(), ClientError>(ClientError::Rejected)
                    &&& *final(self) == *old(self)
                    &&& final(out)@ == old(out)@
                },
                JoinResponse::Joined(ids) => if ids@.len() == 0 {
                    &&& r == Err::<(), ClientError>(ClientError::NobodyJoined)
                    &&& *final(self) == *old(self)
                    &&& final(out)@ == old(out)@
                } else {
                    &&& r == Ok::<(), ClientError>(())
                    &&& *final(self) == (Client { player: Some(ids@[0]), ..*old(self) })
                    &&& shown(final(out)@) == shown(old(out)@) + seq![
                        Action::<Text, Bytes>::ReadyToEnter,
                        Action::<Text, Bytes>::LoadMapVotes,
                        Action::<Text, Bytes>::LoadMiscVotes,
                    ]
                },
            },
            client_valid(*final(self)),
    {
        match response {
            JoinResponse::Rejected => Err(ClientError::Rejected),
            JoinResponse::Joined(ids) => {
                if ids.len() == 0 {
                    return Err(ClientError::NobodyJoined);
                }
                self.player = Some(ids[0]);
                emit(out, Action::ReadyToEnter);
                emit(out, Action::LoadMapVotes);
                emit(out, Action::LoadMiscVotes);
                assert(shown(out@) =~= shown(old(out)@) + seq![
                    Action::<Text, Bytes>::ReadyToEnter,
                    Action::<Text, Bytes>::LoadMapVotes,
                    Action::<Text, Bytes>::LoadMiscVotes,
                ]);
                Ok(())
            },
        }
    }

    fn acknowledge(
        &mut self,
        tick: u64,
        overhead: Duration,
        acks: &Vec<InputAck>,
        out: &mut Vec<Action<String, Vec<u8>>>,
    )
        requires
            client_valid(*old(self)),
        ensures
            ({
                let (left, messages) = acknowledged(
                    old(self).pending_input_ticks@,
                    tick,
                    overhead,
                    acks@,
                );
                &&& final(self).pending_input_ticks@ == left
                &&& shown(final(out)@) == shown(old(out)@) + messages
            }),
            *final(self) == (Client {
                pending_input_ticks: final(self).pending_input_ticks,
                ..*old(self)
            }),
            client_valid(*final(self)),
    {
        let ghost pending = self.pending_input_ticks@;
        let mut i: usize = 0;
        assert(shown(out@) =~= shown(old(out)@) + acknowledged(
            pending,
            tick,
            overhead,
            acks@.take(0),
        ).1);
        while i < acks.len()
            invariant
                i <= acks.len(),
                client_valid(*self),
                *self == (Client {
                    pending_input_ticks: self.pending_input_ticks,
                    ..*old(self)
                }),
                ({
                    let (left, messages) = acknowledged(
                        pending,
                        tick,
                        overhead,
                        acks@.take(i as int),
                    );
                    &&& self.pending_input_ticks@ == left
                    &&& shown(out@) == shown(old(out)@) + messages
                }),
            decreases acks.len() - i,
        {
            let ack = acks[i];
            if let Some((input_pred_tick, input_tick)) = self.pending_input_ticks.remove(&ack.id) {
                let time_left: i32 = time_left(input_tick, tick, overhead, ack.logic_overhead);
                emit(out, Action::InputTiming { input_pred_tick, time_left });
            }
            i += 1;
            assert(acks@.take(i as int).drop_last() =~= acks@.take(i - 1));
            assert(shown(out@) =~= shown(old(out)@) + acknowledged(
                pending,
                tick,
                overhead,
                acks@.take(i as int),
            ).1);
        }
        assert(acks@.take(i as int) =~= acks@);
    }

    fn show<P: Fn(&Vec<SnapItem>) -> bool>(
        &mut self,
        tick: u64,
        snapshot: &Snapshot,
        tuning: Option<Vec<u8>>,
        pack: P,
        out: &mut Vec<Action<String, Vec<u8>>>,
    ) -> (r: Result<Option<Delta>, ClientError>)
        requires
            client_valid(*old(self)),
            forall|items: &Vec<SnapItem>| pack.requires((items,)),
        ensures
            extends(old(out)@, final(out)@),
            snapshot_shown(
                *old(self),
                tick,
                *snapshot,
                tuning,
                pack,
                *final(self),
                added_messages(old(out)@, final(out)@),
                r,
            ),
            client_valid(*final(self)),
    {
        if !self.entered {
            return Ok(None);
        }
        let origin: u64 = match self.tick_origin {
            Some(origin) => origin,
            None => if tick > 0 {
                tick - 1
            } else {
                0
            },
        };
        self.tick_origin = Some(origin);
        if tick < origin {
            return Err(ClientError::TickBackwards);
        }
        if tick - origin > 0x7fff_ffff {
            return Err(ClientError::TickRange);
        }
        let now: i32 = (tick - origin) as i32;
        let tuning = match tuning {
            Some(tuning) => tuning,
            None => {
                return Err(ClientError::Tuning);
            },
        };
        if !same_bytes(self.tuning.as_slice(), tuning.as_slice()) {
            let message = vstd::slice::slice_to_vec(tuning.as_slice());
            emit(out, Action::Tuning { message });
            self.tuning = tuning;
        }
        assert(added_messages(old(out)@, out@) =~= tuning_message(*old(self), tuning@));
        let player: u64 = match self.player {
            Some(player) => player,
            None => {
                return Err(ClientError::NotJoined);
            },
        };
        proof {
            slots_stay_distinct(
                self.snapshots.players@,
                self.snapshots.player_seen@,
                self.snapshots.latest_tick,
                *snapshot,
                player,
            );
        }
        let ghost before = self.snapshots;
        let built = self.snapshots.build(snapshot, player, now, &self.effects, pack);
        proof {
            entity_ids_survive_a_build(
                before,
                *snapshot,
                player,
                now,
                self.effects@,
                pack,
                built,
                self.snapshots,
            );
        }
        let items = match built {
            Ok(items) => items,
            Err(error) => {
                return Err(ClientError::Snapshot(error));
            },
        };
        let found = if self.ack >= 0 {
            self.old_snaps.get(&(self.ack as u64))
        } else {
            None
        };
        let (base_tick, base) = match found {
            Some(base) => (self.ack, vstd::slice::slice_to_vec(base.as_slice())),
            None => (-1i32, Vec::new()),
        };
        assert(base@ =~= delta_base(*old(self)).1);
        Ok(Some(Delta { tick: now, base_tick, base, items }))
    }

    /// Takes note that the client was sent a snapshot.
    pub fn snapshot_sent(&mut self, delta: Delta)
        requires
            client_valid(*old(self)),
            delta.tick >= 0,
        ensures
            delta_sent(*old(self), delta, *final(self)),
            client_valid(*final(self)),
    {
        self.effects = Vec::new();
        self.old_snaps.insert(delta.tick as u64, delta.items);
        trim(&mut self.old_snaps, MAX_OLD_SNAPS);
    }

    /// Answers a snapshot that is newer than all before: the inputs that it
    /// acknowledges are timed, it is acknowledged itself, and a client in the
    /// game is sent the translation. `tuning` is the encoded tuning at the
    /// player's position, if it can be encoded, and `pack` tells whether items
    /// fit into a snapshot of the old protocol. `snapshot_sent` is to follow
    /// once the result was sent.
    pub fn snapshot<P: Fn(&Vec<SnapItem>) -> bool>(
        &mut self,
        tick: u64,
        snapshot: &Snapshot,
        overhead: Duration,
        acks: &Vec<InputAck>,
        tuning: Option<Vec<u8>>,
        pack: P,
        out: &mut Vec<Action<String, Vec<u8>>>,
    ) -> (r: Result<Option<Delta>, ClientError>)
        requires
            client_valid(*old(self)),
            old(self).snapshots.latest_id is Some,
            old(self).input_id < u64::MAX,
            forall|items: &Vec<SnapItem>| pack.requires((items,)),
        ensures
            extends(old(out)@, final(out)@),
            ({
                let (left, timing) = acknowledged(
                    old(self).pending_input_ticks@,
                    tick,
                    overhead,
                    acks@,
                );
                let id = (old(self).input_id + 1) as u64;
                let sent = added_messages(old(out)@, final(out)@);
                let n = timing.len() as int;
                &&& n < sent.len()
                &&& sent.take(n) == timing
                &&& sent[n] == Action::<Text, Bytes>::Inputs {
                    id,
                    input: None,
                    snap_ack: old(self).snapshots.latest_id,
                }
                &&& exists|acked: Client|
                    {
                        &&& acked.pending_input_ticks@ == left
                        &&& acked == (Client {
                            pending_input_ticks: acked.pending_input_ticks,
                            input_id: id,
                            ..*old(self)
                        })
                        &&& #[trigger] snapshot_shown(
                            acked,
                            tick,
                            *snapshot,
                            tuning,
                            pack,
                            *final(self),
                            sent.skip(n + 1),
                            r,
                        )
                    }
            }),
            client_valid(*final(self)),
    {
        self.acknowledge(tick, overhead, acks, out);
        self.input_id += 1;
        let ghost timed = out@;
        emit(
            out,
            Action::Inputs { id: self.input_id, input: None, snap_ack: self.snapshots.latest_id },
        );
        let ghost acked = *self;
        let ghost told = out@;
        let r = self.show(tick, snapshot, tuning, pack, out);
        proof {
            let timing = acknowledged(old(self).pending_input_ticks@, tick, overhead, acks@).1;
            let n = timing.len() as int;
            let sent = added_messages(old(out)@, out@);
            assert(shown(told).is_prefix_of(shown(out@)));
            assert(shown(out@)[old(out)@.len() + n] == shown(told).last());
            assert(sent.take(n) =~= timing) by {
                assert forall|i: int| 0 <= i < n implies sent[i] == timing[i] by {
                    assert(shown(told)[old(out)@.len() + i] == timing[i]);
                }
            }
            assert(sent.skip(n + 1) =~= added_messages(told, out@));
        }
        r
    }

    /// Translates events of the game world.
    pub fn events(&mut self, events: &Vec<WorldEvent>, out: &mut Vec<Action<String, Vec<u8>>>)
        requires
            client_valid(*old(self)),
        ensures
            ({
                let (effects, messages) = translated_events(
                    old(self).snapshots.players@,
                    old(self).effects@,
                    events@,
                );
                &&& final(self).effects@ == effects
                &&& shown(final(out)@) == shown(old(out)@) + messages
            }),
            *final(self) == (Client { effects: final(self).effects, ..*old(self) }),
            client_valid(*final(self)),
    {
        proof {
            crate::legacy::events::pending_effects_stay_limited(
                self.snapshots.players@,
                self.effects@,
                events@,
            );
            pending_objects_are_events(self.snapshots.players@, self.effects@, events@);
        }
        translate(&self.snapshots.players, &mut self.effects, events, out);
    }

    /// Adds vote options.
    pub fn load_votes(&mut self, kind: VoteKind, categories: &Vec<Category>)
        requires
            client_valid(*old(self)),
        ensures
            (final(self).votes.options(), final(self).votes.labels()) == loaded(
                old(self).votes.options(),
                old(self).votes.labels(),
                kind,
                categories@,
            ),
            *final(self) == (Client { votes: final(self).votes, ..*old(self) }),
            client_valid(*final(self)),
    {
        self.votes.load(kind, categories);
    }

    /// Removes the vote options of a kind, and tells the client to forget all.
    pub fn reset_votes(&mut self, kind: VoteKind, out: &mut Vec<Action<String, Vec<u8>>>)
        requires
            client_valid(*old(self)),
        ensures
            final(self).votes.options() == without_kind(old(self).votes.options(), kind),
            final(self).votes.labels() == without_kind(
                old(self).votes.options(),
                kind,
            ).map_values(|o: (Text, VoteOption)| o.0),
            *final(self) == (Client { votes: final(self).votes, ..*old(self) }),
            shown(final(out)@) == shown(old(out)@).push(Action::VoteClearOptions),
            client_valid(*final(self)),
    {
        self.votes.reset(kind);
        emit(out, Action::VoteClearOptions);
    }

    /// Passes a message of the queue on.
    pub fn queue_info(&self, message: &str, out: &mut Vec<Action<String, Vec<u8>>>)
        ensures
            shown(final(out)@) == shown(old(out)@).push(Action::Broadcast { message: message@ }),
    {
        emit(out, Action::Broadcast { message: message.to_owned() });
    }

    /// Passes a chat message on.
    pub fn chat(
        &self,
        sender: u64,
        channel: ChatChannel,
        message: &str,
        out: &mut Vec<Action<String, Vec<u8>>>,
    )
        ensures
            shown(final(out)@) == shown(old(out)@).push(
                chat_message(*self, sender, channel, message@),
            ),
    {
        let client_id: i32 = slot_number(&self.snapshots.players, sender, -1);
        let own = match self.player {
            Some(player) => player == sender,
            None => false,
        };
        let team: i32 = match channel {
            ChatChannel::Global => 0,
            ChatChannel::GameTeam => 1,
            ChatChannel::Whisper => if own {
                2
            } else {
                3
            },
        };
        let message = truncate(remove_nul(message).as_str(), MAX_CHAT);
        emit(out, Action::Chat { team, client_id, message });
    }
}

/// A message of the backend, except for snapshots.
pub enum BackendMsg {
    RequiresPassword,
    /// The server says which game it runs, or loads another one.
    Load { module: GameModule, config: ModConfig, physics: String },
    ReadyResponse(JoinResponse),
    Events(Vec<WorldEvent>),
    LoadVotes { kind: VoteKind, categories: Vec<Category> },
    ResetVotes { kind: VoteKind },
    Vote(Option<VoteState>),
    QueueInfo { message: String },
    Chat { sender: u64, channel: ChatChannel, message: String },
    Other,
}

/// The answer to a client that joins.
pub open spec fn join_answered(
    before: Client,
    response: JoinResponse,
    after: Client,
    sent: Seq<Action<Text, Bytes>>,
    r: Result<(), ClientError>,
) -> bool {
    match response {
        JoinResponse::Rejected => r == Err::<(), ClientError>(ClientError::Rejected) && after
            == before && sent.len() == 0,
        JoinResponse::Joined(ids) => if ids@.len() == 0 {
            r == Err::<(), ClientError>(ClientError::NobodyJoined) && after == before && sent.len()
                == 0
        } else {
            &&& r == Ok::<(), ClientError>(())
            &&& after == (Client { player: Some(ids@[0]), ..before })
            &&& sent == seq![
                Action::<Text, Bytes>::ReadyToEnter,
                Action::<Text, Bytes>::LoadMapVotes,
                Action::<Text, Bytes>::LoadMiscVotes,
            ]
        },
    }
}

/// The answer to a message of the backend.
pub open spec fn message_answered(
    before: Client,
    msg: BackendMsg,
    default_config: GameConfig,
    after: Client,
    sent: Seq<Action<Text, Bytes>>,
    r: Result<(), ClientError>,
) -> bool {
    let ok = r == Ok::<(), ClientError>(());
    match msg {
        BackendMsg::RequiresPassword => ok && after == before && sent == seq![
            Action::<Text, Bytes>::PasswordResponse { password: before.password@ },
        ],
        BackendMsg::Load { module, config, physics } => sent.len() == 0 && load_answered(
            before,
            module,
            config,
            default_config,
            physics@,
            after,
            r,
        ),
        BackendMsg::ReadyResponse(response) => join_answered(before, response, after, sent, r),
        BackendMsg::Events(events) => {
            let (effects, messages) = translated_events(
                before.snapshots.players@,
                before.effects@,
                events@,
            );
            &&& ok
            &&& after.effects@ == effects
            &&& after == (Client { effects: after.effects, ..before })
            &&& sent == messages
        },
        BackendMsg::LoadVotes { kind, categories } => {
            &&& ok
            &&& (after.votes.options(), after.votes.labels()) == loaded(
                before.votes.options(),
                before.votes.labels(),
                kind,
                categories@,
            )
            &&& after == (Client { votes: after.votes, ..before })
            &&& sent.len() == 0
        },
        BackendMsg::ResetVotes { kind } => {
            let left = without_kind(before.votes.options(), kind);
            &&& ok
            &&& after.votes.options() == left
            &&& after.votes.labels() == left.map_values(|o: (Text, VoteOption)| o.0)
            &&& after == (Client { votes: after.votes, ..before })
            &&& sent == seq![Action::<Text, Bytes>::VoteClearOptions]
        },
        BackendMsg::Vote(vote) => ok && after == before && sent == vote_messages(vote),
        BackendMsg::QueueInfo { message } => ok && after == before && sent == seq![
            Action::<Text, Bytes>::Broadcast { message: message@ },
        ],
        BackendMsg::Chat { sender, channel, message } => ok && after == before && sent == seq![
            chat_message(before, sender, channel, message@),
        ],
        BackendMsg::Other => ok && after == before && sent.len() == 0,
    }
}

impl Client {
    /// Answers a message of the backend. `default_config` holds for games
    /// that come without a configuration.
    pub fn server_message(
        &mut self,
        msg: &BackendMsg,
        default_config: GameConfig,
        out: &mut Vec<Action<String, Vec<u8>>>,
    ) -> (r: Result<(), ClientError>)
        requires
            client_valid(*old(self)),
        ensures
            extends(old(out)@, final(out)@),
            message_answered(
                *old(self),
                *msg,
                default_config,
                *final(self),
                added_messages(old(out)@, final(out)@),
                r,
            ),
            client_valid(*final(self)),
    {
        let mut r: Result<(), ClientError> = Ok(());
        match msg {
            BackendMsg::RequiresPassword => {
                self.requires_password(out);
            },
            BackendMsg::Load { module, config, physics } => {
                r = self.load(*module, *config, default_config, physics.as_str());
            },
            BackendMsg::ReadyResponse(response) => {
                r = self.ready_response(response, out);
            },
            BackendMsg::Events(events) => {
                self.events(events, out);
            },
            BackendMsg::LoadVotes { kind, categories } => {
                self.load_votes(*kind, categories);
            },
            BackendMsg::ResetVotes { kind } => {
                self.reset_votes(*kind, out);
            },
            BackendMsg::Vote(vote) => {
                state(vote, out);
            },
            BackendMsg::QueueInfo { message } => {
                self.queue_info(message.as_str(), out);
            },
            BackendMsg::Chat { sender, channel, message } => {
                self.chat(*sender, *channel, message.as_str(), out);
            },
            BackendMsg::Other => {},
        }
        proof {
            let sent = added_messages(old(out)@, out@);
            match msg {
                BackendMsg::RequiresPassword => {
                    assert(sent =~= seq![
                        Action::<Text, Bytes>::PasswordResponse { password: self.password@ },
                    ]);
                },
                BackendMsg::ReadyResponse(response) => {
                    if r is Ok {
                        assert(sent =~= seq![
                            Action::<Text, Bytes>::ReadyToEnter,
                            Action::<Text, Bytes>::LoadMapVotes,
                            Action::<Text, Bytes>::LoadMiscVotes,
                        ]);
                    }
                },
                BackendMsg::Events(events) => {
                    assert(sent =~= translated_events(
                        old(self).snapshots.players@,
                        old(self).effects@,
                        events@,
                    ).1);
                },
                BackendMsg::ResetVotes { kind } => {
                    assert(sent =~= seq![Action::<Text, Bytes>::VoteClearOptions]);
                },
                BackendMsg::Vote(vote) => {
                    assert(sent =~= vote_messages(*vote));
                },
                BackendMsg::QueueInfo { message } => {
                    assert(sent =~= seq![
                        Action::<Text, Bytes>::Broadcast { message: message@ },
                    ]);
                },
                BackendMsg::Chat { sender, channel, message } => {
                    assert(sent =~= seq![
                        chat_message(*old(self), *sender, *channel, message@),
                    ]);
                },
                _ => {},
            }
        }
        r
    }
}

/// An input is timed once: what was acknowledged is no longer pending, and
/// nothing else is lost.
pub proof fn acknowledged_inputs_are_settled(
    pending: Map<u64, (i32, u64)>,
    tick: u64,
    overhead: Duration,
    acks: Seq<InputAck>,
)
    ensures
        ({
            let (left, messages) = acknowledged(pending, tick, overhead, acks);
            &&& messages.len() <= acks.len()
            &&& forall|i: int| 0 <= i < acks.len() ==> !left.contains_key((#[trigger] acks[i]).id)
            &&& forall|id: u64| #[trigger]
                left.contains_key(id) ==> pending.contains_key(id) && left[id] == pending[id]
            &&& forall|id: u64|
                pending.contains_key(id) && (forall|i: int|
                    0 <= i < acks.len() ==> (#[trigger] acks[i]).id != id)
                    ==> #[trigger] left.contains_key(id)
        }),
    decreases acks.len(),
{
    if acks.len() > 0 {
        let head = acks.drop_last();
        acknowledged_inputs_are_settled(pending, tick, overhead, head);
        let (before, _) = acknowledged(pending, tick, overhead, head);
        let (left, _) = acknowledged(pending, tick, overhead, acks);
        assert forall|i: int| 0 <= i < acks.len() implies !left.contains_key(
            (#[trigger] acks[i]).id,
        ) by {
            if i < head.len() {
                assert(!before.contains_key(head[i].id));
            }
        }
        assert forall|id: u64|
            pending.contains_key(id) && (forall|i: int|
                0 <= i < acks.len() ==> (#[trigger] acks[i]).id != id)
            implies #[trigger] left.contains_key(id) by {
            assert forall|i: int| 0 <= i < head.len() implies (#[trigger] head[i]).id != id by {
                assert(acks[i].id != id);
            }
            assert(before.contains_key(id));
            assert(acks[acks.len() - 1].id != id);
        }
    }
}

/// The ticks that a client sees start with one.
pub proof fn first_snapshot_has_tick_one(c: Client, tick: u64)
    requires
        c.tick_origin is None,
        tick > 0,
    ensures
        tick - origin_of(c, tick) == 1,
{
}

} // verus!
