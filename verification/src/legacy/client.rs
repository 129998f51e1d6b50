//! The state of one client and its answers to messages.
use crate::legacy::events::MAX_PENDING_EFFECTS;
use crate::legacy::input::{advanced, no_input, outdated, Inputs, LegacyInput};
use crate::legacy::messages::{
    emit, shown, Action, Bytes, CharacterInfo, ClientMsg, GameMsg, NewVote, PlayerInput, PlayerLook, PlayerMsg,
    SkinColors, SkinName, SystemMsg, Text,
};
use crate::legacy::objects::{SnapItem, SnapObj, Team};
use crate::legacy::slots::{objects_valid, slots_valid};
use crate::legacy::snapshot::{GameConfig, Snapshots};
use crate::legacy::unique::effects_valid;
use crate::legacy::votes::{option_of, Votes};
use crate::legacy::world::MatchSide;
use crate::tables::{entries, lists, newest, trim};
use crate::text::{lossy_string, lossy_utf8, natural_value, parse_u16, same_bytes, within};
use std::collections::{BTreeMap, HashMap};
use vstd::prelude::*;
use vstd::utf8::encode_utf8;

verus! {

/// The number of inputs that are remembered until they are acknowledged.
pub const MAX_PENDING_INPUTS: usize = 256;

/// The number of snapshots that a client may still refer to.
pub const MAX_OLD_SNAPS: usize = 150;

/// How far an input's tick may be from the latest snapshot's.
pub const MAX_TICK_DISTANCE: u64 = 150;

/// The number of bytes of a map that are sent at once.
pub const MAP_CHUNK: usize = 896;

/// The map that a client plays on, in the old format.
#[derive(Clone, Debug, PartialEq, Eq)]
pub struct ServedMap {
    pub name: String,
    pub bytes: Vec<u8>,
    pub crc: i32,
}

/// Why a client is disconnected.
#[derive(Clone, Copy, Debug, PartialEq, Eq, Structural)]
pub enum ClientError {
    /// The client speaks another version of the protocol.
    UnsupportedVersion,
    /// The game module has no snapshots that could be translated.
    UnsupportedModule,
    /// The configuration of the game module cannot be read.
    InvalidConfig,
    /// The backend did not let the player in.
    Rejected,
    /// The backend let nobody in.
    NobodyJoined,
    /// The tick of a snapshot lies before the first one.
    TickBackwards,
    /// The ticks of the old protocol are used up.
    TickRange,
    /// The tuning cannot be encoded.
    Tuning,
    /// A snapshot came before the player joined.
    NotJoined,
    /// A snapshot could not be translated.
    Snapshot(crate::legacy::snapshot::SnapshotError),
}

/// The state of one client.
pub struct Client {
    pub player: Option<u64>,
    pub character: Option<CharacterInfo<String>>,
    pub ready_sent: bool,
    pub legacy_ready: bool,
    pub transport_ready: bool,
    pub entered: bool,
    pub password: String,
    pub map: Option<ServedMap>,
    pub snapshots: Snapshots,
    pub inputs: Inputs,
    pub input_id: u64,
    pub pending_input_ticks: BTreeMap<u64, (i32, u64)>,
    pub old_snaps: BTreeMap<u64, Vec<SnapItem>>,
    pub ack: i32,
    pub tick_origin: Option<u64>,
    pub tuning: Vec<u8>,
    pub effects: Vec<SnapObj>,
    pub votes: Votes,
}

/// The messages and the snapshots that may be outstanding are limited, a
/// client in the game has a player, players and entities have ids and vote
/// options have labels of their own, and only events wait for the next
/// snapshot.
pub open spec fn client_valid(c: Client) -> bool {
    &&& c.entered ==> c.player is Some
    &&& slots_valid(c.snapshots.players@)
    &&& objects_valid(c.snapshots.objects@)
    &&& effects_valid(c.effects@)
    &&& c.votes.valid()
    &&& c.pending_input_ticks@.len() <= MAX_PENDING_INPUTS
    &&& c.old_snaps@.len() <= MAX_OLD_SNAPS
    &&& c.effects@.len() <= MAX_PENDING_EFFECTS
}

/// A client that has just connected.
pub open spec fn is_new(c: Client) -> bool {
    &&& c.player is None
    &&& c.character is None
    &&& !c.ready_sent && !c.legacy_ready && !c.transport_ready && !c.entered
    &&& c.password@ == ""@
    &&& c.map is None
    &&& crate::legacy::snapshot::is_fresh(c.snapshots)
    &&& c.inputs.last_tick is None && !c.inputs.race && c.inputs.current == no_input()
    &&& c.input_id == 0
    &&& c.pending_input_ticks@ == Map::<u64, (i32, u64)>::empty()
    &&& c.old_snaps@ == Map::<u64, Vec<SnapItem>>::empty()
    &&& c.ack == -1
    &&& c.tick_origin is None
    &&& c.tuning@ == Seq::<u8>::empty()
    &&& c.effects@ == Seq::<SnapObj>::empty()
    &&& c.votes.options().len() == 0
    &&& c.votes.labels().len() == 0
}

/// The message that joins the game: it is sent once, as soon as the client is
/// ready, its map is there and its player is known.
pub open spec fn ready_message(c: Client) -> Option<Action<Text, Bytes>> {
    match c.character {
        Some(character) if !c.ready_sent && c.legacy_ready && c.map is Some => Some(
            Action::ReadyForGame { character: character@ },
        ),
        _ => None,
    }
}

/// `after` is the client after it was checked whether it can join the game,
/// and `sent` the message that this takes.
pub open spec fn readied(before: Client, after: Client, sent: Seq<Action<Text, Bytes>>) -> bool {
    match ready_message(before) {
        Some(message) => sent == seq![message] && after == (Client { ready_sent: true, ..before }),
        None => sent.len() == 0 && after == before,
    }
}

/// A part of the map: its last one may be shorter. There is nothing past the
/// end.
pub open spec fn map_data(map: Option<ServedMap>, chunk: i32) -> Seq<Action<Text, Bytes>> {
    match map {
        Some(map) if 0 <= chunk && chunk * MAP_CHUNK < map.bytes@.len() => {
            let start = chunk * MAP_CHUNK;
            let end = if start + MAP_CHUNK < map.bytes@.len() {
                start + MAP_CHUNK
            } else {
                map.bytes@.len() as int
            };
            seq![
                Action::MapData {
                    last: end == map.bytes@.len(),
                    crc: map.crc,
                    chunk,
                    data: map.bytes@.subrange(start, end),
                },
            ]
        },
        _ => seq![],
    }
}

/// The snapshot that the client says it has, if it is still there.
pub open spec fn ack_after(c: Client, ack_snapshot: i32) -> i32 {
    if ack_snapshot >= 0 && c.old_snaps@.contains_key(ack_snapshot as u64) {
        ack_snapshot
    } else {
        c.ack
    }
}

/// The tick of the backend that an input is for, if it is near the latest
/// snapshot.
pub open spec fn input_tick(c: Client, intended_tick: i32) -> Option<u64> {
    match c.tick_origin {
        Some(origin) if intended_tick >= 0 && origin + intended_tick <= u64::MAX => {
            let tick = origin + intended_tick;
            let distance = tick - c.snapshots.latest_tick;
            if -MAX_TICK_DISTANCE <= distance <= MAX_TICK_DISTANCE {
                Some(tick as u64)
            } else {
                None
            }
        },
        _ => None,
    }
}

/// `after` is the client after an input, and `sent` what this sends. Only a
/// client in the game has inputs, and only new ones are handed on.
pub open spec fn input_received(
    before: Client,
    ack_snapshot: i32,
    intended_tick: i32,
    input: LegacyInput,
    after: Client,
    sent: Seq<Action<Text, Bytes>>,
) -> bool {
    if !before.entered {
        after == before && sent.len() == 0
    } else {
        let acked = Client { ack: ack_after(before, ack_snapshot), ..before };
        match input_tick(before, intended_tick) {
            Some(tick) if !outdated(before.inputs, intended_tick, input) => {
                let id = (before.input_id + 1) as u64;
                &&& newest(
                    before.pending_input_ticks@.insert(id, (intended_tick, tick)),
                    after.pending_input_ticks@,
                    MAX_PENDING_INPUTS as nat,
                )
                &&& sent == seq![
                    Action::<Text, Bytes>::Inputs {
                        id,
                        input: Some(
                            PlayerInput {
                                player: before.player->0,
                                tick,
                                input: after.inputs.current,
                            },
                        ),
                        snap_ack: before.snapshots.latest_id,
                    },
                ]
                &&& after == (Client {
                    inputs: advanced(before.inputs, intended_tick, input),
                    input_id: id,
                    pending_input_ticks: after.pending_input_ticks,
                    ..acked
                })
            },
            _ => after == acked && sent.len() == 0,
        }
    }
}

/// The version of the protocol.
pub open spec fn version_bytes() -> Bytes {
    encode_utf8("0.6 626fce9a778df4d4"@)
}

/// The password that a client gave, as text.
pub open spec fn password_text(password: Option<Vec<u8>>) -> Text {
    match password {
        Some(password) => lossy_utf8(password@),
        None => lossy_utf8(Seq::empty()),
    }
}

/// The answer to a system message. Of those that may be lost only inputs and
/// pings count.
pub open spec fn system_answered(
    client: Client,
    msg: SystemMsg,
    vital: bool,
    after: Client,
    sent: Seq<Action<Text, Bytes>>,
    r: Result<(), ClientError>,
) -> bool {
    let before = Client { transport_ready: true, ..client };
    let ok = r == Ok::<(), ClientError>(());
    if !vital && !(msg is Input || msg is Ping || msg is PingEx) {
        ok && after == before && sent.len() == 0
    } else {
        match msg {
            SystemMsg::Info { version, password } => if version@ == version_bytes() {
                &&& ok
                &&& after == (Client { password: after.password, ..before })
                &&& after.password@ == password_text(password)
                &&& sent == seq![
                    Action::<Text, Bytes>::PasswordResponse { password: password_text(password) },
                ]
            } else {
                &&& r == Err::<(), ClientError>(ClientError::UnsupportedVersion)
                &&& after == before
                &&& sent.len() == 0
            },
            SystemMsg::RequestMapData { chunk } => ok && after == before && sent == map_data(
                before.map,
                chunk,
            ),
            SystemMsg::Ready => if before.map is Some {
                &&& ok
                &&& sent.len() > 0 && sent[0] == Action::<Text, Bytes>::ConReady
                &&& readied((Client { legacy_ready: true, ..before }), after, sent.skip(1))
            } else {
                ok && after == before && sent.len() == 0
            },
            SystemMsg::EnterGame => ok && after == (Client {
                entered: before.player is Some,
                ..before
            }) && sent.len() == 0,
            SystemMsg::Ping => ok && after == before && sent == seq![
                Action::<Text, Bytes>::PingReply,
            ],
            SystemMsg::PingEx { id } => ok && after == before && sent == seq![
                Action::<Text, Bytes>::PongEx { id },
            ],
            SystemMsg::RconAuth => ok && after == before && sent == seq![
                Action::<Text, Bytes>::RconAuthStatus { auth_level: 0, receive_commands: 0 },
                Action::<Text, Bytes>::RconLine {
                    line: "Remote console authentication is unavailable through the legacy proxy."@,
                },
            ],
            SystemMsg::WhatIs { uuid } => ok && after == before && sent == seq![
                Action::<Text, Bytes>::IDontKnow { uuid },
            ],
            SystemMsg::Input { ack_snapshot, intended_tick, input } => ok && input_received(
                before,
                ack_snapshot,
                intended_tick,
                input,
                after,
                sent,
            ),
            SystemMsg::Other => ok && after == before && sent.len() == 0,
        }
    }
}

/// What was added to a list of messages.
pub open spec fn added_messages(
    before: Seq<Action<String, Vec<u8>>>,
    after: Seq<Action<String, Vec<u8>>>,
) -> Seq<Action<Text, Bytes>> {
    shown(after).skip(before.len() as int)
}

/// The earlier messages of a list are untouched.
pub open spec fn extends(
    before: Seq<Action<String, Vec<u8>>>,
    after: Seq<Action<String, Vec<u8>>>,
) -> bool {
    shown(before).is_prefix_of(shown(after))
}

impl Client {
    /// A client that has just connected. `game_config` holds until the
    /// backend sends one.
    pub fn new(game_config: GameConfig) -> (r: Self)
        ensures
            is_new(r),
            client_valid(r),
            r.snapshots.game_config == game_config,
            !r.snapshots.race,
    {
        Client {
            player: None,
            character: None,
            ready_sent: false,
            legacy_ready: false,
            transport_ready: false,
            entered: false,
            password: "".to_owned(),
            map: None,
            snapshots: Snapshots::new(false, game_config),
            inputs: Inputs::default(),
            input_id: 0,
            pending_input_ticks: BTreeMap::new(),
            old_snaps: BTreeMap::new(),
            ack: -1,
            tick_origin: None,
            tuning: Vec::new(),
            effects: Vec::new(),
            votes: Votes::new(),
        }
    }

    /// Joins the game if all is there that this takes.
    pub fn ready(&mut self, out: &mut Vec<Action<String, Vec<u8>>>)
        ensures
            extends(old(out)@, final(out)@),
            readied(*old(self), *final(self), added_messages(old(out)@, final(out)@)),
    {
        if !self.ready_sent && self.legacy_ready && self.map.is_some() {
            if let Some(character) = &self.character {
                let character = character.copy();
                emit(out, Action::ReadyForGame { character });
                self.ready_sent = true;
                assert(added_messages(old(out)@, out@) =~= seq![ready_message(*old(self))->0]);
            }
        }
    }

    fn request_map_data(&self, chunk: i32, out: &mut Vec<Action<String, Vec<u8>>>)
        ensures
            shown(final(out)@) == shown(old(out)@) + map_data(self.map, chunk),
    {
        if let Some(map) = &self.map {
            assert(chunk >= 0 ==> chunk * MAP_CHUNK <= 0x7fff_ffff * 896) by (nonlinear_arith)
                requires
                    chunk <= 0x7fff_ffff,
                    MAP_CHUNK == 896,
            ;
            if chunk >= 0 && (chunk as u64 * MAP_CHUNK as u64) < map.bytes.len() as u64 {
                let start: usize = chunk as usize * MAP_CHUNK;
                let end: usize = if map.bytes.len() - start > MAP_CHUNK {
                    start + MAP_CHUNK
                } else {
                    map.bytes.len()
                };
                let data = vstd::slice::slice_to_vec(
                    vstd::slice::slice_subrange(map.bytes.as_slice(), start, end),
                );
                emit(
                    out,
                    Action::MapData { last: end == map.bytes.len(), crc: map.crc, chunk, data },
                );
            }
        }
        assert(shown(out@) =~= shown(old(out)@) + map_data(self.map, chunk));
    }

    fn input(
        &mut self,
        ack_snapshot: i32,
        intended_tick: i32,
        input: LegacyInput,
        out: &mut Vec<Action<String, Vec<u8>>>,
    )
        requires
            client_valid(*old(self)),
            old(self).input_id < u64::MAX,
        ensures
            extends(old(out)@, final(out)@),
            input_received(
                *old(self),
                ack_snapshot,
                intended_tick,
                input,
                *final(self),
                added_messages(old(out)@, final(out)@),
            ),
            client_valid(*final(self)),
    {
        if !self.entered {
            return;
        }
        if ack_snapshot >= 0 && self.old_snaps.contains_key(&(ack_snapshot as u64)) {
            self.ack = ack_snapshot;
        }
        let origin: u64 = match self.tick_origin {
            Some(origin) => origin,
            None => {
                return;
            },
        };
        if intended_tick < 0 {
            return;
        }
        let tick: u64 = match origin.checked_add(intended_tick as u64) {
            Some(tick) => tick,
            None => {
                return;
            },
        };
        let latest: u64 = self.snapshots.latest_tick;
        let distance: u64 = if tick < latest {
            latest - tick
        } else {
            tick - latest
        };
        if distance > MAX_TICK_DISTANCE {
            return;
        }
        let player: u64 = match self.player {
            Some(player) => player,
            None => {
                return;
            },
        };
        if let Some(input) = self.inputs.translate(intended_tick, input) {
            self.input_id += 1;
            self.pending_input_ticks.insert(self.input_id, (intended_tick, tick));
            trim(&mut self.pending_input_ticks, MAX_PENDING_INPUTS);
            let input = Some(PlayerInput { player, tick, input });
            let snap_ack = self.snapshots.latest_id;
            emit(out, Action::Inputs { id: self.input_id, input, snap_ack });
            assert(added_messages(old(out)@, out@) =~= seq![
                Action::<Text, Bytes>::Inputs { id: self.input_id, input, snap_ack },
            ]);
        }
    }

    /// Answers a system message of the client.
    pub fn system(&mut self, msg: &SystemMsg, vital: bool, out: &mut Vec<Action<String, Vec<u8>>>) -> (r:
        Result<(), ClientError>)
        requires
            client_valid(*old(self)),
            *msg is Input ==> old(self).input_id < u64::MAX,
        ensures
            extends(old(out)@, final(out)@),
            system_answered(
                *old(self),
                *msg,
                vital,
                *final(self),
                added_messages(old(out)@, final(out)@),
                r,
            ),
            client_valid(*final(self)),
    {
        self.transport_ready = true;
        if !vital {
            match msg {
                SystemMsg::Input { .. } | SystemMsg::Ping | SystemMsg::PingEx { .. } => {},
                _ => {
                    return Ok(());
                },
            }
        }
        match msg {
            SystemMsg::Info { version, password } => {
                if !same_bytes(version.as_slice(), "0.6 626fce9a778df4d4".as_bytes()) {
                    return Err(ClientError::UnsupportedVersion);
                }
                let none: Vec<u8> = Vec::new();
                assert(none@ =~= Seq::empty());
                let password = match password {
                    Some(password) => lossy_string(password.as_slice()),
                    None => lossy_string(none.as_slice()),
                };
                self.password = password.clone();
                emit(out, Action::PasswordResponse { password });
            },
            SystemMsg::RequestMapData { chunk } => {
                self.request_map_data(*chunk, out);
                assert(added_messages(old(out)@, out@) =~= map_data(self.map, *chunk));
            },
            SystemMsg::Ready => {
                if self.map.is_some() {
                    emit(out, Action::ConReady);
                    self.legacy_ready = true;
                    let ghost sent = out@;
                    self.ready(out);
                    assert(added_messages(old(out)@, out@).skip(1) =~= added_messages(sent, out@));
                    assert(shown(out@)[old(out)@.len() as int] == shown(sent).last());
                }
            },
            SystemMsg::EnterGame => {
                self.entered = self.player.is_some();
            },
            SystemMsg::Ping => {
                emit(out, Action::PingReply);
            },
            SystemMsg::PingEx { id } => {
                emit(out, Action::PongEx { id: *id });
            },
            SystemMsg::RconAuth => {
                emit(out, Action::RconAuthStatus { auth_level: 0, receive_commands: 0 });
                let line =
                    "Remote console authentication is unavailable through the legacy proxy.".to_owned();
                emit(out, Action::RconLine { line });
            },
            SystemMsg::WhatIs { uuid } => {
                emit(out, Action::IDontKnow { uuid: *uuid });
            },
            SystemMsg::Input { ack_snapshot, intended_tick, input } => {
                self.input(*ack_snapshot, *intended_tick, *input, out);
            },
            SystemMsg::Other => {},
        }
        proof {
            let sent = added_messages(old(out)@, out@);
            match msg {
                SystemMsg::Info { version, password } => {
                    assert(sent =~= seq![
                        Action::<Text, Bytes>::PasswordResponse {
                            password: password_text(*password),
                        },
                    ]);
                },
                SystemMsg::Ping => {
                    assert(sent =~= seq![Action::<Text, Bytes>::PingReply]);
                },
                SystemMsg::PingEx { id } => {
                    assert(sent =~= seq![Action::<Text, Bytes>::PongEx { id: *id }]);
                },
                SystemMsg::RconAuth => {
                    assert(sent =~= seq![
                        Action::<Text, Bytes>::RconAuthStatus {
                            auth_level: 0,
                            receive_commands: 0,
                        },
                        Action::<Text, Bytes>::RconLine {
                            line:
                                "Remote console authentication is unavailable through the legacy proxy."@,
                        },
                    ]);
                },
                SystemMsg::WhatIs { uuid } => {
                    assert(sent =~= seq![Action::<Text, Bytes>::IDontKnow { uuid: *uuid }]);
                },
                _ => {},
            }
        }
        Ok(())
    }
}

/// The colours of a skin: the player's own, or those that the skin has.
pub open spec fn colors_of(custom: bool, body: i32, feet: i32) -> SkinColors {
    if custom {
        SkinColors::Custom { body_color: body, feet_color: feet }
    } else {
        SkinColors::Original
    }
}

/// The colours of a skin: the player's own, or those that the skin has.
pub fn skin_info(custom: bool, body: i32, feet: i32) -> (r: SkinColors)
    ensures
        r == colors_of(custom, body, feet),
{
    if custom {
        SkinColors::Custom { body_color: body, feet_color: feet }
    } else {
        SkinColors::Original
    }
}

/// How the backend is told that a player looks.
pub open spec fn character_info(look: PlayerLook, start: bool) -> CharacterInfo<Text> {
    CharacterInfo {
        name: lossy_utf8(look.name@),
        clan: lossy_utf8(look.clan@),
        skin: if start {
            SkinName::OrDefault(lossy_utf8(look.skin@))
        } else {
            SkinName::Lossy(lossy_utf8(look.skin@))
        },
        colors: colors_of(look.use_custom_color, look.color_body, look.color_feet),
    }
}

fn info_of(look: &PlayerLook, start: bool) -> (r: CharacterInfo<String>)
    ensures
        r@ == character_info(*look, start),
{
    let skin = lossy_string(look.skin.as_slice());
    CharacterInfo {
        name: lossy_string(look.name.as_slice()),
        clan: lossy_string(look.clan.as_slice()),
        skin: if start {
            SkinName::OrDefault(skin)
        } else {
            SkinName::Lossy(skin)
        },
        colors: skin_info(look.use_custom_color, look.color_body, look.color_feet),
    }
}

/// The message of a client's player, if it has one yet.
pub open spec fn player_message(c: Client, msg: PlayerMsg<Text>) -> Seq<Action<Text, Bytes>> {
    match c.player {
        Some(player) => seq![Action::Player { player, msg }],
        None => seq![],
    }
}

/// The player with the given slot.
pub open spec fn player_at(players: Map<u64, u16>, slot: int) -> Option<u64> {
    if exists|id: u64| #[trigger] players.contains_key(id) && players[id] == slot {
        Some(choose|id: u64| #[trigger] players.contains_key(id) && players[id] == slot)
    } else {
        None
    }
}

fn find_player(players: &HashMap<u64, u16>, slot: i32) -> (r: Option<u64>)
    requires
        slots_valid(players@),
    ensures
        r == player_at(players@, slot as int),
{
    let list = entries(players);
    let mut i: usize = 0;
    while i < list.len()
        invariant
            i <= list.len(),
            slots_valid(players@),
            lists(list@, players@),
            forall|j: int| 0 <= j < i ==> (#[trigger] list@[j]).1 != slot,
        decreases list.len() - i,
    {
        if list[i].1 as i32 == slot {
            let id = list[i].0;
            proof {
                assert(players@.contains_key(list@[i as int].0));
                assert(players@.contains_key(id) && players@[id] == slot);
            }
            return Some(id);
        }
        i += 1;
    }
    assert forall|id: u64| #[trigger] players@.contains_key(id) implies players@[id] != slot by {
        let j = choose|j: int| 0 <= j < list@.len() && (#[trigger] list@[j]).0 == id;
        assert(list@[j].1 != slot);
    }
    None
}

/// The vote that a client asks for: an option that it was offered, or a kick
/// or a move of the player with a given slot.
pub open spec fn called_vote(c: Client, type_: Bytes, value: Bytes, reason: Bytes) -> Option<
    NewVote<Text>,
> {
    let text = lossy_utf8(value);
    let target = match within(natural_value(text), 0, u16::MAX as int) {
        Some(slot) => player_at(c.snapshots.players@, slot),
        None => None,
    };
    if type_ == encode_utf8("option"@) {
        match option_of(c.votes.options(), text) {
            Some(option) => Some(NewVote::Listed(option)),
            None => None,
        }
    } else if type_ == encode_utf8("kick"@) {
        match target {
            Some(player) => Some(NewVote::Kick { player, reason: lossy_utf8(reason) }),
            None => None,
        }
    } else if type_ == encode_utf8("spectate"@) {
        match target {
            Some(player) => Some(NewVote::Spectate { player, reason: lossy_utf8(reason) }),
            None => None,
        }
    } else {
        None
    }
}

/// The answer to a game message.
pub open spec fn game_answered(
    client: Client,
    msg: GameMsg,
    after: Client,
    sent: Seq<Action<Text, Bytes>>,
) -> bool {
    let before = Client { transport_ready: true, ..client };
    match msg {
        GameMsg::StartInfo(look) => if before.character is Some {
            after == before && sent.len() == 0
        } else {
            &&& after.character is Some
            &&& after.character->0@ == character_info(look, true)
            &&& readied((Client { character: after.character, ..before }), after, sent)
        },
        GameMsg::ChangeInfo(look) => if before.character is Some {
            let version = (before.input_id + 1) as u64;
            let info = character_info(look, false);
            &&& after.character is Some
            &&& after.character->0@ == info
            &&& after == (Client { character: after.character, input_id: version, ..before })
            &&& sent == player_message(before, PlayerMsg::UpdateCharacterInfo { version, info })
        } else {
            after == before && sent.len() == 0
        },
        GameMsg::Vote { vote } => after == before && sent == (if vote != 0 {
            player_message(before, PlayerMsg::Voted { yes: vote > 0 })
        } else {
            seq![]
        }),
        GameMsg::CallVote { type_, value, reason } => after == before && sent == (
        match called_vote(before, type_@, value@, reason@) {
            Some(vote) => player_message(before, PlayerMsg::StartVote(vote)),
            None => seq![],
        }),
        GameMsg::Emoticon { emoticon } => after == before && sent == player_message(
            before,
            PlayerMsg::Emoticon { emoticon },
        ),
        GameMsg::SetSpectatorMode { spectator_id } => after == before && sent == player_message(
            before,
            PlayerMsg::FreeCamera {
                follow: player_at(before.snapshots.players@, spectator_id as int),
            },
        ),
        GameMsg::Kill => after == before && sent == player_message(before, PlayerMsg::Kill),
        GameMsg::Say { team, message } => after == before && sent == player_message(
            before,
            PlayerMsg::Chat { team, message: lossy_utf8(message@) },
        ),
        GameMsg::SetTeam { team } => after == before && sent == (match team {
            Team::Spectators => player_message(before, PlayerMsg::JoinSpectator),
            Team::Blue => player_message(before, PlayerMsg::JoinDefaultStage) + player_message(
                before,
                PlayerMsg::JoinSide(MatchSide::Blue),
            ),
            Team::Red => player_message(before, PlayerMsg::JoinDefaultStage) + player_message(
                before,
                PlayerMsg::JoinSide(MatchSide::Red),
            ),
        }),
        GameMsg::Other => after == before && sent.len() == 0,
    }
}

impl Client {
    /// Sends a message of the client's player, if it has one yet.
    fn player_msg(&self, msg: PlayerMsg<String>, out: &mut Vec<Action<String, Vec<u8>>>)
        ensures
            shown(final(out)@) == shown(old(out)@) + player_message(*self, msg@),
    {
        if let Some(player) = self.player {
            emit(out, Action::Player { player, msg });
        }
        assert(shown(out@) =~= shown(old(out)@) + player_message(*self, msg@));
    }

    fn find_vote(&self, type_: &Vec<u8>, value: &Vec<u8>, reason: &Vec<u8>) -> (r: Option<
        NewVote<String>,
    >)
        requires
            slots_valid(self.snapshots.players@),
        ensures
            match called_vote(*self, type_@, value@, reason@) {
                Some(vote) => r matches Some(v) && v@ == vote,
                None => r is None,
            },
    {
        let text = lossy_string(value.as_slice());
        if same_bytes(type_.as_slice(), "option".as_bytes()) {
            return match self.votes.find(text.as_str()) {
                Some(option) => Some(NewVote::Listed(option)),
                None => None,
            };
        }
        let kick = same_bytes(type_.as_slice(), "kick".as_bytes());
        let spectate = same_bytes(type_.as_slice(), "spectate".as_bytes());
        if !kick && !spectate {
            return None;
        }
        let slot: u16 = match parse_u16(text.as_str()) {
            Some(slot) => slot,
            None => {
                return None;
            },
        };
        match find_player(&self.snapshots.players, slot as i32) {
            Some(player) => {
                let reason = lossy_string(reason.as_slice());
                if kick {
                    Some(NewVote::Kick { player, reason })
                } else {
                    Some(NewVote::Spectate { player, reason })
                }
            },
            None => None,
        }
    }

    /// Answers a game message of the client.
    pub fn game(&mut self, msg: &GameMsg, out: &mut Vec<Action<String, Vec<u8>>>)
        requires
            client_valid(*old(self)),
            *msg is ChangeInfo ==> old(self).input_id < u64::MAX,
        ensures
            extends(old(out)@, final(out)@),
            game_answered(*old(self), *msg, *final(self), added_messages(old(out)@, final(out)@)),
            client_valid(*final(self)),
    {
        self.transport_ready = true;
        match msg {
            GameMsg::StartInfo(look) => {
                if self.character.is_none() {
                    self.character = Some(info_of(look, true));
                    self.ready(out);
                }
            },
            GameMsg::ChangeInfo(look) => {
                if self.character.is_some() {
                    let info = info_of(look, false);
                    let told = info.copy();
                    self.character = Some(info);
                    self.input_id += 1;
                    let version = self.input_id;
                    self.player_msg(PlayerMsg::UpdateCharacterInfo { version, info: told }, out);
                }
            },
            GameMsg::Vote { vote } => {
                if *vote != 0 {
                    self.player_msg(PlayerMsg::Voted { yes: *vote > 0 }, out);
                }
            },
            GameMsg::CallVote { type_, value, reason } => {
                if let Some(vote) = self.find_vote(type_, value, reason) {
                    self.player_msg(PlayerMsg::StartVote(vote), out);
                }
            },
            GameMsg::Emoticon { emoticon } => {
                self.player_msg(PlayerMsg::Emoticon { emoticon: *emoticon }, out);
            },
            GameMsg::SetSpectatorMode { spectator_id } => {
                let follow = find_player(&self.snapshots.players, *spectator_id);
                self.player_msg(PlayerMsg::FreeCamera { follow }, out);
            },
            GameMsg::Kill => {
                self.player_msg(PlayerMsg::Kill, out);
            },
            GameMsg::Say { team, message } => {
                let message = lossy_string(message.as_slice());
                self.player_msg(PlayerMsg::Chat { team: *team, message }, out);
            },
            GameMsg::SetTeam { team } => {
                match team {
                    Team::Spectators => {
                        self.player_msg(PlayerMsg::JoinSpectator, out);
                    },
                    Team::Blue => {
                        self.player_msg(PlayerMsg::JoinDefaultStage, out);
                        self.player_msg(PlayerMsg::JoinSide(MatchSide::Blue), out);
                    },
                    Team::Red => {
                        self.player_msg(PlayerMsg::JoinDefaultStage, out);
                        self.player_msg(PlayerMsg::JoinSide(MatchSide::Red), out);
                    },
                }
            },
            GameMsg::Other => {},
        }
        proof {
            let sent = added_messages(old(out)@, out@);
            match msg {
                GameMsg::ChangeInfo(look) => {
                    assert(old(self).character is Some ==> sent =~= player_message(
                        *self,
                        PlayerMsg::UpdateCharacterInfo {
                            version: self.input_id,
                            info: character_info(*look, false),
                        },
                    ));
                },
                GameMsg::Vote { vote } => {
                    assert(*vote != 0 ==> sent =~= player_message(
                        *self,
                        PlayerMsg::Voted { yes: *vote > 0 },
                    ));
                    assert(*vote == 0 ==> sent =~= seq![]);
                },
                GameMsg::CallVote { type_, value, reason } => {
                    assert(sent =~= match called_vote(*self, type_@, value@, reason@) {
                        Some(vote) => player_message(*self, PlayerMsg::StartVote(vote)),
                        None => seq![],
                    });
                },
                GameMsg::Emoticon { emoticon } => {
                    assert(sent =~= player_message(
                        *self,
                        PlayerMsg::Emoticon { emoticon: *emoticon },
                    ));
                },
                GameMsg::SetSpectatorMode { spectator_id } => {
                    assert(sent =~= player_message(
                        *self,
                        PlayerMsg::FreeCamera {
                            follow: player_at(self.snapshots.players@, *spectator_id as int),
                        },
                    ));
                },
                GameMsg::Kill => {
                    assert(sent =~= player_message(*self, PlayerMsg::Kill));
                },
                GameMsg::Say { team, message } => {
                    assert(sent =~= player_message(
                        *self,
                        PlayerMsg::Chat { team: *team, message: lossy_utf8(message@) },
                    ));
                },
                GameMsg::SetTeam { team } => {
                    assert(sent =~= match team {
                        Team::Spectators => player_message(*self, PlayerMsg::JoinSpectator),
                        Team::Blue => player_message(*self, PlayerMsg::JoinDefaultStage)
                            + player_message(*self, PlayerMsg::JoinSide(MatchSide::Blue)),
                        Team::Red => player_message(*self, PlayerMsg::JoinDefaultStage)
                            + player_message(*self, PlayerMsg::JoinSide(MatchSide::Red)),
                    });
                },
                _ => {},
            }
        }
    }
}

/// The message can take a new number: it is an input, or a change of the
/// player's look.
pub open spec fn takes_id(msg: ClientMsg) -> bool {
    match msg {
        ClientMsg::System(msg) => msg is Input,
        ClientMsg::Game(msg) => msg is ChangeInfo,
        ClientMsg::Unknown => false,
    }
}

/// The answer to a message. Game messages that may be lost do not count.
pub open spec fn chunk_answered(
    before: Client,
    msg: ClientMsg,
    vital: bool,
    after: Client,
    sent: Seq<Action<Text, Bytes>>,
    r: Result<(), ClientError>,
) -> bool {
    match msg {
        ClientMsg::System(msg) => system_answered(before, msg, vital, after, sent, r),
        ClientMsg::Game(msg) if vital => r == Ok::<(), ClientError>(()) && game_answered(
            before,
            msg,
            after,
            sent,
        ),
        _ => r == Ok::<(), ClientError>(()) && after == (Client {
            transport_ready: true,
            ..before
        }) && sent.len() == 0,
    }
}

impl Client {
    /// Answers a message of the client.
    pub fn chunk(&mut self, msg: &ClientMsg, vital: bool, out: &mut Vec<Action<String, Vec<u8>>>) -> (r:
        Result<(), ClientError>)
        requires
            client_valid(*old(self)),
            takes_id(*msg) ==> old(self).input_id < u64::MAX,
        ensures
            extends(old(out)@, final(out)@),
            chunk_answered(
                *old(self),
                *msg,
                vital,
                *final(self),
                added_messages(old(out)@, final(out)@),
                r,
            ),
            client_valid(*final(self)),
    {
        match msg {
            ClientMsg::System(msg) => self.system(msg, vital, out),
            ClientMsg::Game(msg) => {
                if vital {
                    self.game(msg, out);
                } else {
                    self.transport_ready = true;
                }
                Ok(())
            },
            ClientMsg::Unknown => {
                self.transport_ready = true;
                Ok(())
            },
        }
    }
}

/// The data that the answers to the first `n` requests for map data hold.
pub open spec fn map_parts(map: ServedMap, n: nat) -> Bytes
    decreases n,
{
    if n == 0 {
        seq![]
    } else {
        let sent = map_data(Some(map), (n - 1) as i32);
        map_parts(map, (n - 1) as nat) + if sent.len() == 1 && sent[0] is MapData {
            sent[0]->data
        } else {
            seq![]
        }
    }
}

proof fn lemma_map_parts(map: ServedMap, n: nat)
    requires
        n <= i32::MAX + 1,
    ensures
        map_parts(map, n) == map.bytes@.take(
            if n * MAP_CHUNK < map.bytes@.len() {
                n * MAP_CHUNK
            } else {
                map.bytes@.len() as int
            },
        ),
    decreases n,
{
    let bytes = map.bytes@;
    if n == 0 {
        assert(map_parts(map, n) =~= bytes.take(0));
    } else {
        lemma_map_parts(map, (n - 1) as nat);
        let end = if n * MAP_CHUNK < bytes.len() {
            n * MAP_CHUNK
        } else {
            bytes.len() as int
        };
        assert(map_parts(map, n) =~= bytes.take(end));
    }
}

/// A client that asks for one part of the map after the other, until one is
/// marked as the last, has the whole map.
pub proof fn map_parts_make_up_the_map(map: ServedMap, last: i32)
    requires
        0 <= last < i32::MAX,
        map_data(Some(map), last).len() == 1,
        map_data(Some(map), last)[0] is MapData,
        map_data(Some(map), last)[0]->last,
    ensures
        map_parts(map, (last + 1) as nat) == map.bytes@,
{
    lemma_map_parts(map, (last + 1) as nat);
    assert(map.bytes@.take(map.bytes@.len() as int) =~= map.bytes@);
}

/// The game is joined once: after the message went out, there is none left to
/// send.
pub proof fn game_is_joined_once(before: Client, after: Client, sent: Seq<Action<Text, Bytes>>)
    requires
        readied(before, after, sent),
    ensures
        ready_message(after) is None,
        sent.len() <= 1,
{
}

/// Without the player's info, the map or the client's own word, the game is
/// not joined.
pub proof fn game_is_not_joined_early(c: Client)
    requires
        c.character is None || c.map is None || !c.legacy_ready,
    ensures
        ready_message(c) is None,
{
}

/// A message that was answered: the client before and after, and what the
/// answer was.
pub struct Answer {
    pub before: Client,
    pub msg: ClientMsg,
    pub vital: bool,
    pub after: Client,
    pub sent: Seq<Action<Text, Bytes>>,
    pub result: Result<(), ClientError>,
}

/// The clients agree on the map and on how far joining the game has come.
pub open spec fn same_stand(a: Client, b: Client) -> bool {
    &&& a.map == b.map
    &&& a.character == b.character
    &&& a.legacy_ready == b.legacy_ready
    &&& a.ready_sent == b.ready_sent
}

/// Reliable messages that were answered one after the other with success.
/// What happened to the client in between changed neither its map nor how far
/// joining the game had come.
pub open spec fn answered_in_turn(answers: Seq<Answer>) -> bool {
    &&& forall|i: int|
        0 <= i < answers.len() ==> {
            let a = #[trigger] answers[i];
            a.vital && a.result == Ok::<(), ClientError>(()) && chunk_answered(
                a.before,
                a.msg,
                a.vital,
                a.after,
                a.sent,
                a.result,
            )
        }
    &&& forall|i: int|
        0 < i < answers.len() ==> same_stand(
            answers[i - 1].after,
            (#[trigger] answers[i]).before,
        )
}

/// The players with which the messages join the game.
pub open spec fn joins(sent: Seq<Action<Text, Bytes>>) -> Seq<CharacterInfo<Text>>
    decreases sent.len(),
{
    if sent.len() == 0 {
        seq![]
    } else {
        let head = joins(sent.drop_last());
        match sent.last() {
            Action::ReadyForGame { character } => head.push(character),
            _ => head,
        }
    }
}

/// The players with which the answers join the game.
pub open spec fn all_joins(answers: Seq<Answer>) -> Seq<CharacterInfo<Text>>
    decreases answers.len(),
{
    if answers.len() == 0 {
        seq![]
    } else {
        all_joins(answers.drop_last()) + joins(answers.last().sent)
    }
}

/// The client said how its player looks.
pub open spec fn start_info_came(answers: Seq<Answer>) -> bool {
    exists|i: int|
        0 <= i < answers.len() && ((#[trigger] answers[i]).msg matches ClientMsg::Game(msg)
            && msg is StartInfo)
}

/// The client said that it is ready.
pub open spec fn ready_came(answers: Seq<Answer>) -> bool {
    exists|i: int|
        0 <= i < answers.len() && ((#[trigger] answers[i]).msg matches ClientMsg::System(msg)
            && msg is Ready)
}

proof fn lemma_joins_short(sent: Seq<Action<Text, Bytes>>)
    requires
        sent.len() <= 2,
        forall|i: int| 0 <= i < sent.len() ==> !(#[trigger] sent[i] is ReadyForGame),
    ensures
        joins(sent) == Seq::<CharacterInfo<Text>>::empty(),
{
    reveal_with_fuel(joins, 3);
}

/// What one reliable message does on the way into the game.
proof fn lemma_join_step(a: Answer)
    requires
        a.vital,
        a.before.map is Some,
        a.before.ready_sent == (a.before.character is Some && a.before.legacy_ready),
        chunk_answered(a.before, a.msg, a.vital, a.after, a.sent, a.result),
    ensures
        a.after.map == a.before.map,
        a.after.character is Some <==> (a.before.character is Some || (a.msg matches ClientMsg::Game(
            msg,
        ) && msg is StartInfo)),
        a.after.legacy_ready <==> (a.before.legacy_ready || (a.msg matches ClientMsg::System(msg)
            && msg is Ready)),
        a.after.ready_sent == (a.after.character is Some && a.after.legacy_ready),
        joins(a.sent) == (if a.after.ready_sent && !a.before.ready_sent {
            seq![a.after.character->0@]
        } else {
            seq![]
        }),
{
    reveal_with_fuel(joins, 3);
    let sent = a.sent;
    match a.msg {
        ClientMsg::System(SystemMsg::Ready) => {
            let rest = sent.skip(1);
            assert(rest.len() == sent.len() - 1);
            let asked = Client { legacy_ready: true, transport_ready: true, ..a.before };
            assert(readied(asked, a.after, rest));
            if ready_message(asked) is Some {
                assert(rest[0] == sent[1]);
                assert(sent.drop_last().drop_last() =~= seq![]);
                assert(joins(sent) =~= seq![a.after.character->0@]);
            } else {
                lemma_joins_short(sent);
            }
        },
        ClientMsg::Game(GameMsg::StartInfo(_)) => {
            if a.before.character is None && a.before.legacy_ready {
                assert(sent.drop_last() =~= seq![]);
                assert(joins(sent) =~= seq![a.after.character->0@]);
            } else {
                lemma_joins_short(sent);
            }
        },
        _ => {
            lemma_joins_short(sent);
        },
    }
}

/// The game is joined once over any sequence of reliable messages, in
/// whichever order they come: as soon as the client has said both how its
/// player looks and that it is ready, with the look that it has then, and
/// never again.
pub proof fn game_is_joined_exactly_once(answers: Seq<Answer>)
    requires
        answers.len() > 0,
        answered_in_turn(answers),
        answers[0].before.map is Some,
        answers[0].before.character is None,
        !answers[0].before.legacy_ready,
        !answers[0].before.ready_sent,
    ensures
        ({
            let both = start_info_came(answers) && ready_came(answers);
            &&& answers.last().after.ready_sent == both
            &&& !both ==> all_joins(answers) == Seq::<CharacterInfo<Text>>::empty()
            &&& both ==> exists|k: int|
                {
                    &&& 0 <= k < answers.len()
                    &&& start_info_came(answers.take(k + 1)) && ready_came(answers.take(k + 1))
                    &&& !(start_info_came(answers.take(k)) && ready_came(answers.take(k)))
                    &&& joins((#[trigger] answers[k]).sent) == seq![answers[k].after.character->0@]
                    &&& all_joins(answers) == seq![answers[k].after.character->0@]
                }
        }),
{
    lemma_joined(answers);
    if start_info_came(answers) && ready_came(answers) {
        let k = joined_at(answers);
        assert(joins(answers[k].sent) == seq![answers[k].after.character->0@]);
    }
}

/// The answer after which both messages have come.
spec fn joined_at(answers: Seq<Answer>) -> int
    decreases answers.len(),
{
    if answers.len() == 0 {
        0
    } else {
        let head = answers.drop_last();
        if start_info_came(head) && ready_came(head) {
            joined_at(head)
        } else {
            answers.len() - 1
        }
    }
}

proof fn lemma_came(answers: Seq<Answer>)
    requires
        answers.len() > 0,
    ensures
        start_info_came(answers) <==> (start_info_came(answers.drop_last()) || (
        answers.last().msg matches ClientMsg::Game(msg) && msg is StartInfo)),
        ready_came(answers) <==> (ready_came(answers.drop_last()) || (
        answers.last().msg matches ClientMsg::System(msg) && msg is Ready)),
{
    let head = answers.drop_last();
    let n = answers.len() - 1;
    if start_info_came(head) {
        let i = choose|i: int|
            0 <= i < head.len() && ((#[trigger] head[i]).msg matches ClientMsg::Game(msg)
                && msg is StartInfo);
        assert(answers[i] == head[i]);
    }
    if ready_came(head) {
        let i = choose|i: int|
            0 <= i < head.len() && ((#[trigger] head[i]).msg matches ClientMsg::System(msg)
                && msg is Ready);
        assert(answers[i] == head[i]);
    }
    if start_info_came(answers) {
        let i = choose|i: int|
            0 <= i < answers.len() && ((#[trigger] answers[i]).msg matches ClientMsg::Game(msg)
                && msg is StartInfo);
        if i < n {
            assert(head[i] == answers[i]);
        }
    }
    if ready_came(answers) {
        let i = choose|i: int|
            0 <= i < answers.len() && ((#[trigger] answers[i]).msg matches ClientMsg::System(msg)
                && msg is Ready);
        if i < n {
            assert(head[i] == answers[i]);
        }
    }
    assert(answers[n] == answers.last());
}

/// Of answers in turn, all but the last are in turn, and the last one starts
/// from where they ended.
proof fn lemma_turns(answers: Seq<Answer>)
    requires
        answers.len() > 0,
        answered_in_turn(answers),
    ensures
        answered_in_turn(answers.drop_last()),
        answers.len() > 1 ==> same_stand(answers.drop_last().last().after, answers.last().before),
        answers.last().vital,
        answers.last().result == Ok::<(), ClientError>(()),
        chunk_answered(
            answers.last().before,
            answers.last().msg,
            answers.last().vital,
            answers.last().after,
            answers.last().sent,
            answers.last().result,
        ),
{
    let head = answers.drop_last();
    let n = answers.len() - 1;
    assert(answers[n] == answers.last());
    assert forall|i: int| 0 <= i < head.len() implies {
        let a = #[trigger] head[i];
        a.vital && a.result == Ok::<(), ClientError>(()) && chunk_answered(
            a.before,
            a.msg,
            a.vital,
            a.after,
            a.sent,
            a.result,
        )
    } by {
        assert(head[i] == answers[i]);
    }
    assert forall|i: int| 0 < i < head.len() implies same_stand(
        head[i - 1].after,
        (#[trigger] head[i]).before,
    ) by {
        assert(head[i] == answers[i]);
    }
}

proof fn lemma_joined(answers: Seq<Answer>)
    requires
        answers.len() > 0,
        answered_in_turn(answers),
        answers[0].before.map is Some,
        answers[0].before.character is None,
        !answers[0].before.legacy_ready,
        !answers[0].before.ready_sent,
    ensures
        ({
            let both = start_info_came(answers) && ready_came(answers);
            let after = answers.last().after;
            let k = joined_at(answers);
            &&& after.map is Some
            &&& after.character is Some <==> start_info_came(answers)
            &&& after.legacy_ready <==> ready_came(answers)
            &&& after.ready_sent == both
            &&& !both ==> all_joins(answers) == Seq::<CharacterInfo<Text>>::empty()
            &&& both ==> 0 <= k < answers.len() && start_info_came(answers.take(k + 1))
                && ready_came(answers.take(k + 1)) && !(start_info_came(answers.take(k))
                && ready_came(answers.take(k))) && joins(answers[k].sent)
                == seq![answers[k].after.character->0@] && all_joins(answers)
                == seq![answers[k].after.character->0@]
        }),
    decreases answers.len(),
{
    let n = answers.len() - 1;
    let head = answers.drop_last();
    let a = answers.last();
    assert(answers[n] == a);
    assert(answers.take(n) =~= head);
    assert(answers.take(n + 1) =~= answers);
    lemma_came(answers);
    lemma_turns(answers);
    if n > 0 {
        lemma_joined(head);
        let k = joined_at(head);
        if start_info_came(head) && ready_came(head) {
            assert(head.take(k + 1) =~= answers.take(k + 1));
            assert(head.take(k) =~= answers.take(k));
            assert(head[k] == answers[k]);
        }
    } else {
        assert(head =~= seq![]);
        assert(all_joins(head) =~= seq![]);
    }
    lemma_join_step(a);
    assert(all_joins(answers) =~= all_joins(head) + joins(a.sent));
}

/// The data of the parts of a map among the messages.
pub open spec fn parts_in(sent: Seq<Action<Text, Bytes>>) -> Bytes
    decreases sent.len(),
{
    if sent.len() == 0 {
        seq![]
    } else {
        parts_in(sent.drop_last()) + match sent.last() {
            Action::MapData { data, .. } => data,
            _ => seq![],
        }
    }
}

/// The data of the parts of a map that the answers hold.
pub open spec fn all_parts(answers: Seq<Answer>) -> Bytes
    decreases answers.len(),
{
    if answers.len() == 0 {
        seq![]
    } else {
        all_parts(answers.drop_last()) + parts_in(answers.last().sent)
    }
}

/// The number of parts that a map has.
pub open spec fn part_count(map: ServedMap) -> int {
    (map.bytes@.len() + MAP_CHUNK - 1) / MAP_CHUNK as int
}

/// The messages ask for one part of the map after the other.
pub open spec fn asks_in_turn(answers: Seq<Answer>) -> bool {
    forall|i: int|
        0 <= i < answers.len() ==> ((#[trigger] answers[i]).msg matches ClientMsg::System(
            SystemMsg::RequestMapData { chunk },
        ) && chunk == i)
}

proof fn lemma_parts(answers: Seq<Answer>, map: ServedMap)
    requires
        answered_in_turn(answers),
        asks_in_turn(answers),
        answers.len() <= i32::MAX + 1,
        answers.len() > 0 ==> answers[0].before.map == Some(map),
    ensures
        all_parts(answers) == map_parts(map, answers.len()),
        forall|i: int|
            0 <= i < answers.len() ==> (#[trigger] answers[i]).before.map == Some(map)
                && answers[i].after.map == Some(map) && answers[i].sent == map_data(
                Some(map),
                i as i32,
            ),
    decreases answers.len(),
{
    if answers.len() > 0 {
        let n = answers.len() - 1;
        let head = answers.drop_last();
        let a = answers[n];
        lemma_turns(answers);
        lemma_parts(head, map);
        if n > 0 {
            assert(head[n - 1].after.map == Some(map));
            assert(same_stand(answers[n - 1].after, answers[n].before));
        }
        assert(a.sent == map_data(Some(map), n as i32));
        reveal_with_fuel(parts_in, 2);
        assert forall|i: int| 0 <= i < answers.len() implies (#[trigger] answers[i]).before.map
            == Some(map) && answers[i].after.map == Some(map) && answers[i].sent == map_data(
            Some(map),
            i as i32,
        ) by {
            if i < n {
                assert(head[i].sent == map_data(Some(map), i as i32));
            }
        }
        if a.sent.len() == 1 {
            assert(a.sent.drop_last() =~= seq![]);
            assert(parts_in(a.sent) =~= a.sent[0]->data);
        } else {
            assert(parts_in(a.sent) =~= seq![]);
        }
    }
}

/// A client that asks for all parts of its map, one after the other, is sent
/// exactly one part each time. Each holds at most 896 bytes, names its number
/// and the checksum, and only the last one says that it is the last. Together
/// they are the map.
pub proof fn requested_parts_make_up_the_map(answers: Seq<Answer>, map: ServedMap)
    requires
        answered_in_turn(answers),
        asks_in_turn(answers),
        answers.len() == part_count(map),
        answers.len() > 0 ==> answers[0].before.map == Some(map),
    ensures
        forall|i: int|
            0 <= i < answers.len() ==> {
                let sent = (#[trigger] answers[i]).sent;
                &&& sent.len() == 1
                &&& sent[0] matches Action::MapData { last, crc, chunk, data } && last == (i
                    == answers.len() - 1) && crc == map.crc && chunk == i && data.len()
                    <= MAP_CHUNK
            },
        all_parts(answers) == map.bytes@,
{
    let len = map.bytes@.len();
    let n = answers.len() as int;
    if n > 0 {
        assert(answers[n - 1].msg matches ClientMsg::System(SystemMsg::RequestMapData { chunk })
            && chunk == n - 1);
    }
    lemma_parts(answers, map);
    lemma_map_parts(map, answers.len());
    assert(map.bytes@.take(len as int) =~= map.bytes@);
    assert forall|i: int| 0 <= i < answers.len() implies {
        let sent = (#[trigger] answers[i]).sent;
        &&& sent.len() == 1
        &&& sent[0] matches Action::MapData { last, crc, chunk, data } && last == (i
            == answers.len() - 1) && crc == map.crc && chunk == i && data.len() <= MAP_CHUNK
    } by {
        assert(answers[i].sent == map_data(Some(map), i as i32));
    }
}

/// There is nothing before the start and past the end of the map.
pub proof fn requests_outside_the_map_send_nothing(a: Answer, map: ServedMap, chunk: i32)
    requires
        a.before.map == Some(map),
        a.msg == ClientMsg::System(SystemMsg::RequestMapData { chunk }),
        chunk < 0 || chunk * MAP_CHUNK >= map.bytes@.len(),
        chunk_answered(a.before, a.msg, a.vital, a.after, a.sent, a.result),
    ensures
        a.sent == Seq::<Action<Text, Bytes>>::empty(),
        a.result == Ok::<(), ClientError>(()),
        a.after == (Client { transport_ready: true, ..a.before }),
{
    assert(a.sent =~= Seq::empty());
}

/// A client that never entered has no influence on the game: its inputs are
/// ignored.
pub proof fn inputs_before_entering_are_ignored(
    before: Client,
    ack_snapshot: i32,
    intended_tick: i32,
    input: LegacyInput,
    after: Client,
    sent: Seq<Action<Text, Bytes>>,
)
    requires
        !before.entered,
        input_received(before, ack_snapshot, intended_tick, input, after, sent),
    ensures
        after == before,
        sent == Seq::<Action<Text, Bytes>>::empty(),
{
    assert(sent =~= Seq::empty());
}

} // verus!
