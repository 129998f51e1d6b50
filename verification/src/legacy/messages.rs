//! The messages that are exchanged with a client and with the backend.
//!
//! The types that hold text or bytes are generic in them: code works with
//! `String` and `Vec<u8>`, contracts speak of `Seq<char>` and `Seq<u8>`.
use crate::legacy::input::{LegacyInput, NativeInput};
use crate::legacy::objects::{Sound, Team};
use crate::legacy::world::MatchSide;
use vstd::prelude::*;

verus! {

/// A system message of a client, as far as it is answered.
#[derive(Clone, Debug, PartialEq, Eq)]
pub enum SystemMsg {
    Info { version: Vec<u8>, password: Option<Vec<u8>> },
    RequestMapData { chunk: i32 },
    Ready,
    EnterGame,
    Ping,
    PingEx { id: [u8; 16] },
    RconAuth,
    WhatIs { uuid: [u8; 16] },
    Input { ack_snapshot: i32, intended_tick: i32, input: LegacyInput },
    Other,
}

/// How a player presents itself.
#[derive(Clone, Debug, PartialEq, Eq)]
pub struct PlayerLook {
    pub name: Vec<u8>,
    pub clan: Vec<u8>,
    pub skin: Vec<u8>,
    pub use_custom_color: bool,
    pub color_body: i32,
    pub color_feet: i32,
}

/// A game message of a client, as far as it is answered.
#[derive(Clone, Debug, PartialEq, Eq)]
pub enum GameMsg {
    StartInfo(PlayerLook),
    ChangeInfo(PlayerLook),
    Vote { vote: i32 },
    CallVote { type_: Vec<u8>, value: Vec<u8>, reason: Vec<u8> },
    Emoticon { emoticon: u64 },
    SetSpectatorMode { spectator_id: i32 },
    Kill,
    Say { team: bool, message: Vec<u8> },
    SetTeam { team: Team },
    Other,
}

/// A message of a client: of one of the two kinds, or of none that is known.
#[derive(Clone, Debug, PartialEq, Eq)]
pub enum ClientMsg {
    System(SystemMsg),
    Game(GameMsg),
    Unknown,
}

/// The name of a skin. One that a player starts with falls back to the
/// default if it is no valid name; a later one is made valid.
#[derive(Clone, Debug, PartialEq, Eq)]
pub enum SkinName<T> {
    OrDefault(T),
    Lossy(T),
}

/// The colours of a skin in the old protocol's encoding.
#[derive(Clone, Copy, Debug, PartialEq, Eq, Structural)]
pub enum SkinColors {
    Original,
    Custom { body_color: i32, feet_color: i32 },
}

/// How the backend is told that a player looks.
#[derive(Clone, Debug, PartialEq, Eq)]
pub struct CharacterInfo<T> {
    pub name: T,
    pub clan: T,
    pub skin: SkinName<T>,
    pub colors: SkinColors,
}

/// The two kinds of options that can be voted for.
#[derive(Clone, Copy, Debug, PartialEq, Eq, Structural)]
pub enum VoteKind {
    MapVote,
    MiscVote,
}

/// An option that can be voted for. `key` stands for what the backend knows
/// the option by.
#[derive(Clone, Copy, Debug, PartialEq, Eq, Structural)]
pub struct VoteOption {
    pub kind: VoteKind,
    pub key: u64,
}

/// A vote that a player starts.
#[derive(Clone, Debug, PartialEq, Eq)]
pub enum NewVote<T> {
    Listed(VoteOption),
    Kick { player: u64, reason: T },
    Spectate { player: u64, reason: T },
}

/// What a player tells the backend.
#[derive(Clone, Debug, PartialEq, Eq)]
pub enum PlayerMsg<T> {
    UpdateCharacterInfo { version: u64, info: CharacterInfo<T> },
    Voted { yes: bool },
    StartVote(NewVote<T>),
    Emoticon { emoticon: u64 },
    FreeCamera { follow: Option<u64> },
    Kill,
    Chat { team: bool, message: T },
    JoinSpectator,
    JoinDefaultStage,
    JoinSide(MatchSide),
}

/// An input on its way to the backend.
#[derive(Clone, Copy, Debug, PartialEq, Eq, Structural)]
pub struct PlayerInput {
    pub player: u64,
    pub tick: u64,
    pub input: NativeInput,
}

/// A message that is to be sent.
#[derive(Clone, Debug, PartialEq, Eq)]
pub enum Action<T, B> {
    // To the backend.
    PasswordResponse { password: T },
    ReadyForGame { character: CharacterInfo<T> },
    Inputs { id: u64, input: Option<PlayerInput>, snap_ack: Option<u64> },
    Player { player: u64, msg: PlayerMsg<T> },
    LoadMapVotes,
    LoadMiscVotes,
    // System messages to the client.
    MapChange { name: T, crc: i32, size: i32 },
    MapData { last: bool, crc: i32, chunk: i32, data: B },
    ConReady,
    PingReply,
    PongEx { id: [u8; 16] },
    RconAuthStatus { auth_level: i32, receive_commands: i32 },
    RconLine { line: T },
    IDontKnow { uuid: [u8; 16] },
    InputTiming { input_pred_tick: i32, time_left: i32 },
    // Game messages to the client.
    ReadyToEnter,
    Tuning { message: B },
    Broadcast { message: T },
    Motd { message: T },
    Chat { team: i32, client_id: i32, message: T },
    KillMsg { killer: i32, victim: i32, weapon: i32 },
    SoundGlobal { sound_id: Sound },
    VoteClearOptions,
    VoteOptionAdd { description: T },
    VoteSet { timeout: i32, description: T, reason: T },
    VoteStatus { yes: i32, no: i32, pass: i32, total: i32 },
}

pub type Text = Seq<char>;

pub type Bytes = Seq<u8>;

impl View for SkinName<String> {
    type V = SkinName<Text>;

    open spec fn view(&self) -> SkinName<Text> {
        match self {
            SkinName::OrDefault(name) => SkinName::OrDefault(name@),
            SkinName::Lossy(name) => SkinName::Lossy(name@),
        }
    }
}

impl View for CharacterInfo<String> {
    type V = CharacterInfo<Text>;

    open spec fn view(&self) -> CharacterInfo<Text> {
        CharacterInfo {
            name: self.name@,
            clan: self.clan@,
            skin: self.skin@,
            colors: self.colors,
        }
    }
}

impl CharacterInfo<String> {
    /// Makes a copy.
    pub fn copy(&self) -> (r: Self)
        ensures
            r@ == self@,
    {
        CharacterInfo {
            name: self.name.clone(),
            clan: self.clan.clone(),
            skin: match &self.skin {
                SkinName::OrDefault(name) => SkinName::OrDefault(name.clone()),
                SkinName::Lossy(name) => SkinName::Lossy(name.clone()),
            },
            colors: self.colors,
        }
    }
}

impl View for NewVote<String> {
    type V = NewVote<Text>;

    open spec fn view(&self) -> NewVote<Text> {
        match self {
            NewVote::Listed(option) => NewVote::Listed(*option),
            NewVote::Kick { player, reason } => NewVote::Kick {
                player: *player,
                reason: reason@,
            },
            NewVote::Spectate { player, reason } => NewVote::Spectate {
                player: *player,
                reason: reason@,
            },
        }
    }
}

impl View for PlayerMsg<String> {
    type V = PlayerMsg<Text>;

    open spec fn view(&self) -> PlayerMsg<Text> {
        match self {
            PlayerMsg::UpdateCharacterInfo { version, info } => PlayerMsg::UpdateCharacterInfo {
                version: *version,
                info: info@,
            },
            PlayerMsg::Voted { yes } => PlayerMsg::Voted { yes: *yes },
            PlayerMsg::StartVote(vote) => PlayerMsg::StartVote(vote@),
            PlayerMsg::Emoticon { emoticon } => PlayerMsg::Emoticon { emoticon: *emoticon },
            PlayerMsg::FreeCamera { follow } => PlayerMsg::FreeCamera { follow: *follow },
            PlayerMsg::Kill => PlayerMsg::Kill,
            PlayerMsg::Chat { team, message } => PlayerMsg::Chat { team: *team, message: message@ },
            PlayerMsg::JoinSpectator => PlayerMsg::JoinSpectator,
            PlayerMsg::JoinDefaultStage => PlayerMsg::JoinDefaultStage,
            PlayerMsg::JoinSide(side) => PlayerMsg::JoinSide(*side),
        }
    }
}

impl View for Action<String, Vec<u8>> {
    type V = Action<Text, Bytes>;

    open spec fn view(&self) -> Action<Text, Bytes> {
        match self {
            Action::PasswordResponse { password } => Action::PasswordResponse {
                password: password@,
            },
            Action::ReadyForGame { character } => Action::ReadyForGame { character: character@ },
            Action::Inputs { id, input, snap_ack } => Action::Inputs {
                id: *id,
                input: *input,
                snap_ack: *snap_ack,
            },
            Action::Player { player, msg } => Action::Player { player: *player, msg: msg@ },
            Action::LoadMapVotes => Action::LoadMapVotes,
            Action::LoadMiscVotes => Action::LoadMiscVotes,
            Action::MapChange { name, crc, size } => Action::MapChange {
                name: name@,
                crc: *crc,
                size: *size,
            },
            Action::MapData { last, crc, chunk, data } => Action::MapData {
                last: *last,
                crc: *crc,
                chunk: *chunk,
                data: data@,
            },
            Action::ConReady => Action::ConReady,
            Action::PingReply => Action::PingReply,
            Action::PongEx { id } => Action::PongEx { id: *id },
            Action::RconAuthStatus { auth_level, receive_commands } => Action::RconAuthStatus {
                auth_level: *auth_level,
                receive_commands: *receive_commands,
            },
            Action::RconLine { line } => Action::RconLine { line: line@ },
            Action::IDontKnow { uuid } => Action::IDontKnow { uuid: *uuid },
            Action::InputTiming { input_pred_tick, time_left } => Action::InputTiming {
                input_pred_tick: *input_pred_tick,
                time_left: *time_left,
            },
            Action::ReadyToEnter => Action::ReadyToEnter,
            Action::Tuning { message } => Action::Tuning { message: message@ },
            Action::Broadcast { message } => Action::Broadcast { message: message@ },
            Action::Motd { message } => Action::Motd { message: message@ },
            Action::Chat { team, client_id, message } => Action::Chat {
                team: *team,
                client_id: *client_id,
                message: message@,
            },
            Action::KillMsg { killer, victim, weapon } => Action::KillMsg {
                killer: *killer,
                victim: *victim,
                weapon: *weapon,
            },
            Action::SoundGlobal { sound_id } => Action::SoundGlobal { sound_id: *sound_id },
            Action::VoteClearOptions => Action::VoteClearOptions,
            Action::VoteOptionAdd { description } => Action::VoteOptionAdd {
                description: description@,
            },
            Action::VoteSet { timeout, description, reason } => Action::VoteSet {
                timeout: *timeout,
                description: description@,
                reason: reason@,
            },
            Action::VoteStatus { yes, no, pass, total } => Action::VoteStatus {
                yes: *yes,
                no: *no,
                pass: *pass,
                total: *total,
            },
        }
    }
}

/// A list of messages as contracts speak of it.
pub open spec fn shown(list: Seq<Action<String, Vec<u8>>>) -> Seq<Action<Text, Bytes>> {
    list.map_values(|a: Action<String, Vec<u8>>| a@)
}

/// Adds a message to a list.
pub(crate) fn emit(
    out: &mut Vec<Action<String, Vec<u8>>>,
    action: Action<String, Vec<u8>>,
)
    ensures
        shown(final(out)@) == shown(old(out)@).push(action@),
{
    out.push(action);
    assert(shown(out@) =~= shown(old(out)@).push(action@));
}

} // verus!
