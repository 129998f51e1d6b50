//! What holds of the answers to a client's messages.
use crate::legacy::client::{
    added_messages, character_info, extends, Client, ClientError, ServedMap, MAX_PENDING_INPUTS,
};
use crate::legacy::input::LegacyInput;
use crate::legacy::messages::{
    shown, Action, Bytes, CharacterInfo, ClientMsg, GameMsg, NewVote, PlayerLook, PlayerMsg,
    SkinColors, SkinName, SystemMsg, Text,
};
use crate::legacy::objects::Team;
use crate::legacy::votes::{label_index, lemma_label_index};
use crate::legacy::world::MatchSide;
use crate::tables::newest;
use crate::text::{lossy_utf8, parse_u16};
use vstd::prelude::*;
use vstd::utf8::encode_utf8;

verus! {

/// The messages that an answer added, one by one.
pub(crate) proof fn lemma_sent(
    before: Seq<Action<String, Vec<u8>>>,
    after: Seq<Action<String, Vec<u8>>>,
    sent: Seq<Action<Text, Bytes>>,
)
    requires
        extends(before, after),
        sent == added_messages(before, after),
    ensures
        after.len() == before.len() + sent.len(),
        forall|i: int| 0 <= i < sent.len() ==> #[trigger] sent[i] == after[before.len() + i]@,
        sent.len() >= 1 ==> sent[0] == after[before.len() as int]@,
        sent.len() >= 2 ==> sent[1] == after[before.len() + 1int]@,
        forall|i: int| 0 <= i < before.len() ==> (#[trigger] after[i])@ == before[i]@,
{
    assert(shown(after).len() == after.len());
    assert(shown(before).len() == before.len());
    assert forall|i: int| 0 <= i < sent.len() implies #[trigger] sent[i] == after[before.len()
        + i]@ by {
        assert(shown(after)[before.len() + i] == sent[i]);
    }
    assert forall|i: int| 0 <= i < before.len() implies (#[trigger] after[i])@ == before[i]@ by {
        assert(shown(after)[i] == shown(before)[i]);
    }
}

/// A positive vote of a client that has a player is passed on as a yes, and a
/// negative one as a no. Zero is no vote, and without a player there is
/// nobody to vote.
pub proof fn votes_are_passed_on(
    c: &mut Client,
    vote: i32,
    msg: ClientMsg,
    out: &mut Vec<Action<String, Vec<u8>>>,
    r: Result<(), ClientError>,
)
    requires
        msg == ClientMsg::Game(GameMsg::Vote { vote }),
        call_ensures(Client::chunk, (c, &msg, true, out), r),
    ensures
        r == Ok::<(), ClientError>(()),
        *final(c) == (Client { transport_ready: true, ..*old(c) }),
        ({
            let n = old(out)@.len() as int;
            match old(c).player {
                Some(player) if vote > 0 => final(out)@.len() == n + 1 && final(out)@[n] == (
                Action::<String, Vec<u8>>::Player { player, msg: PlayerMsg::Voted { yes: true } }),
                Some(player) if vote < 0 => final(out)@.len() == n + 1 && final(out)@[n] == (
                Action::<String, Vec<u8>>::Player { player, msg: PlayerMsg::Voted { yes: false } }),
                _ => final(out)@.len() == n,
            }
        }),
{
    let sent = added_messages(old(out)@, final(out)@);
    lemma_sent(old(out)@, final(out)@, sent);
    if sent.len() > 0 {
        assert(sent[0] == final(out)@[old(out)@.len() as int]@);
    }
}

/// What a player does is passed on as it is: emoticons by their number, its
/// own death, and chat with its text to the team or to all.
pub proof fn actions_of_a_player_are_passed_on(
    c: &mut Client,
    action: GameMsg,
    msg: ClientMsg,
    out: &mut Vec<Action<String, Vec<u8>>>,
    r: Result<(), ClientError>,
)
    requires
        action is Emoticon || action is Kill || action is Say,
        msg == ClientMsg::Game(action),
        call_ensures(Client::chunk, (c, &msg, true, out), r),
    ensures
        r == Ok::<(), ClientError>(()),
        *final(c) == (Client { transport_ready: true, ..*old(c) }),
        ({
            let n = old(out)@.len() as int;
            &&& old(c).player is None ==> final(out)@.len() == n
            &&& old(c).player is Some ==> {
                &&& final(out)@.len() == n + 1
                &&& final(out)@[n] matches Action::Player { player, msg: told }
                &&& Some(player) == old(c).player
                &&& action matches GameMsg::Emoticon { emoticon } ==> told == (PlayerMsg::<
                    String,
                >::Emoticon { emoticon })
                &&& action is Kill ==> told is Kill
                &&& action matches GameMsg::Say { team, message } ==> (told matches PlayerMsg::Chat {
                    team: to_team,
                    message: text,
                } && to_team == team && text@ == lossy_utf8(message@))
            }
        }),
{
    let sent = added_messages(old(out)@, final(out)@);
    lemma_sent(old(out)@, final(out)@, sent);
    if sent.len() > 0 {
        assert(sent[0] == final(out)@[old(out)@.len() as int]@);
    }
}

/// A player that wants to watch joins the spectators. One that wants to play
/// joins the game first and then the side that it chose.
pub proof fn chosen_team_is_joined(
    c: &mut Client,
    team: Team,
    msg: ClientMsg,
    out: &mut Vec<Action<String, Vec<u8>>>,
    r: Result<(), ClientError>,
)
    requires
        msg == ClientMsg::Game(GameMsg::SetTeam { team }),
        call_ensures(Client::chunk, (c, &msg, true, out), r),
    ensures
        r == Ok::<(), ClientError>(()),
        *final(c) == (Client { transport_ready: true, ..*old(c) }),
        ({
            let n = old(out)@.len() as int;
            match old(c).player {
                None => final(out)@.len() == n,
                Some(player) => if team == Team::Spectators {
                    final(out)@.len() == n + 1 && final(out)@[n] == (Action::<
                        String,
                        Vec<u8>,
                    >::Player { player, msg: PlayerMsg::JoinSpectator })
                } else {
                    &&& final(out)@.len() == n + 2
                    &&& final(out)@[n] == (Action::<String, Vec<u8>>::Player {
                        player,
                        msg: PlayerMsg::JoinDefaultStage,
                    })
                    &&& final(out)@[n + 1] matches Action::Player {
                        player: who,
                        msg: PlayerMsg::JoinSide(side),
                    }
                    &&& who == player
                    &&& side == MatchSide::Red <==> team == Team::Red
                    &&& side == MatchSide::Blue <==> team == Team::Blue
                },
            }
        }),
{
    let sent = added_messages(old(out)@, final(out)@);
    lemma_sent(old(out)@, final(out)@, sent);
    if let Some(player) = old(c).player {
        assert(sent[0] == final(out)@[old(out)@.len() as int]@);
        if team != Team::Spectators {
            assert(sent[1] == final(out)@[old(out)@.len() + 1int]@);
        }
    }
}

/// The camera follows the player that has the slot which the client names,
/// and nobody where none has it.
pub proof fn camera_follows_the_named_player(
    c: &mut Client,
    spectator_id: i32,
    msg: ClientMsg,
    out: &mut Vec<Action<String, Vec<u8>>>,
    r: Result<(), ClientError>,
)
    requires
        msg == ClientMsg::Game(GameMsg::SetSpectatorMode { spectator_id }),
        call_ensures(Client::chunk, (c, &msg, true, out), r),
        old(c).player is Some,
    ensures
        r == Ok::<(), ClientError>(()),
        *final(c) == (Client { transport_ready: true, ..*old(c) }),
        ({
            let n = old(out)@.len() as int;
            let players = old(c).snapshots.players@;
            &&& final(out)@.len() == n + 1
            &&& final(out)@[n] matches Action::Player {
                player,
                msg: PlayerMsg::FreeCamera { follow },
            }
            &&& Some(player) == old(c).player
            &&& match follow {
                Some(id) => players.contains_key(id) && players[id] == spectator_id,
                None => forall|id: u64| #[trigger]
                    players.contains_key(id) ==> players[id] != spectator_id,
            }
        }),
{
    let sent = added_messages(old(out)@, final(out)@);
    lemma_sent(old(out)@, final(out)@, sent);
    assert(sent[0] == final(out)@[old(out)@.len() as int]@);
}

/// A client that asks to remove or to move a player names it by its slot: the
/// vote is about the player that has that slot, for the given reason. Where
/// nobody has the slot, or the text is no number, there is no vote.
pub proof fn votes_against_players_name_them(
    c: &mut Client,
    kick: bool,
    type_: Vec<u8>,
    value: Vec<u8>,
    reason: Vec<u8>,
    text: &str,
    slot: Option<u16>,
    msg: ClientMsg,
    out: &mut Vec<Action<String, Vec<u8>>>,
    r: Result<(), ClientError>,
)
    requires
        type_@ == if kick {
            encode_utf8("kick"@)
        } else {
            encode_utf8("spectate"@)
        },
        msg == ClientMsg::Game(GameMsg::CallVote { type_, value, reason }),
        text@ == lossy_utf8(value@),
        call_ensures(parse_u16, (text,), slot),
        call_ensures(Client::chunk, (c, &msg, true, out), r),
        old(c).player is Some,
    ensures
        r == Ok::<(), ClientError>(()),
        *final(c) == (Client { transport_ready: true, ..*old(c) }),
        ({
            let n = old(out)@.len() as int;
            let players = old(c).snapshots.players@;
            let target = slot is Some && exists|id: u64| #[trigger]
                players.contains_key(id) && players[id] == slot->0;
            &&& !target ==> final(out)@.len() == n
            &&& target ==> {
                &&& final(out)@.len() == n + 1
                &&& final(out)@[n] matches Action::Player { player, msg: PlayerMsg::StartVote(vote) }
                &&& Some(player) == old(c).player
                &&& vote is Kick <==> kick
                &&& vote is Spectate <==> !kick
                &&& vote matches NewVote::Kick { player: against, reason: told } ==> players
                    .contains_key(against) && players[against] == slot->0 && told@ == lossy_utf8(
                    reason@,
                )
                &&& vote matches NewVote::Spectate { player: against, reason: told } ==> players
                    .contains_key(against) && players[against] == slot->0 && told@ == lossy_utf8(
                    reason@,
                )
            }
        }),
{
    lemma_vote_types();
    let sent = added_messages(old(out)@, final(out)@);
    lemma_sent(old(out)@, final(out)@, sent);
    if sent.len() > 0 {
        assert(sent[0] == final(out)@[old(out)@.len() as int]@);
    }
}

proof fn lemma_vote_types()
    ensures
        encode_utf8("kick"@) != encode_utf8("spectate"@),
        encode_utf8("kick"@) != encode_utf8("option"@),
        encode_utf8("spectate"@) != encode_utf8("option"@),
{
    reveal_strlit("kick");
    reveal_strlit("spectate");
    reveal_strlit("option");
    vstd::utf8::encode_utf8_decode_utf8("kick"@);
    vstd::utf8::encode_utf8_decode_utf8("spectate"@);
    vstd::utf8::encode_utf8_decode_utf8("option"@);
    assert("kick"@.len() == 4 && "spectate"@.len() == 8 && "option"@.len() == 6);
}

/// A client that asks for an option of the list gets that one voted on: what
/// the first option with the label stands for. Without such a label there is
/// no vote.
pub proof fn listed_option_is_voted_on(
    c: &mut Client,
    type_: Vec<u8>,
    value: Vec<u8>,
    reason: Vec<u8>,
    at: int,
    msg: ClientMsg,
    out: &mut Vec<Action<String, Vec<u8>>>,
    r: Result<(), ClientError>,
)
    requires
        type_@ == encode_utf8("option"@),
        msg == ClientMsg::Game(GameMsg::CallVote { type_, value, reason }),
        call_ensures(Client::chunk, (c, &msg, true, out), r),
        old(c).player is Some,
        old(c).votes.valid(),
    ensures
        r == Ok::<(), ClientError>(()),
        *final(c) == (Client { transport_ready: true, ..*old(c) }),
        ({
            let n = old(out)@.len() as int;
            let entries = old(c).votes.entries@;
            &&& 0 <= at < entries.len() && entries[at].label@ == lossy_utf8(value@) ==> {
                &&& final(out)@.len() == n + 1
                &&& final(out)@[n] == (Action::<String, Vec<u8>>::Player {
                    player: old(c).player->0,
                    msg: PlayerMsg::StartVote(NewVote::Listed(entries[at].option)),
                })
            }
            &&& (forall|i: int|
                0 <= i < entries.len() ==> (#[trigger] entries[i]).label@ != lossy_utf8(value@))
                ==> final(out)@.len() == n
        }),
{
    let sent = added_messages(old(out)@, final(out)@);
    lemma_sent(old(out)@, final(out)@, sent);
    let list = old(c).votes.options();
    let entries = old(c).votes.entries@;
    let label = lossy_utf8(value@);
    assert forall|i: int| 0 <= i < entries.len() implies #[trigger] list[i] == (
        entries[i].label@,
        entries[i].option,
    ) by {
    }
    lemma_label_index(list, label);
    let found = label_index(list, label);
    if 0 <= at < entries.len() && entries[at].label@ == label {
        assert(list[at].0 == label);
        assert(found == at) by {
            if found < at {
                assert(list[found].0 != list[at].0);
            }
        }
    } else if found < list.len() {
        assert(list[found].0 == entries[found].label@);
    }
    if sent.len() > 0 {
        assert(sent[0] == final(out)@[old(out)@.len() as int]@);
    }
}

/// A look that is told to the backend has the name, the clan and the skin
/// that the client gave, and its own colours only if it uses them.
pub open spec fn tells_look(info: CharacterInfo<String>, look: PlayerLook) -> bool {
    &&& info.name@ == lossy_utf8(look.name@)
    &&& info.clan@ == lossy_utf8(look.clan@)
    &&& match info.skin {
        SkinName::OrDefault(skin) => skin@ == lossy_utf8(look.skin@),
        SkinName::Lossy(skin) => skin@ == lossy_utf8(look.skin@),
    }
    &&& look.use_custom_color ==> info.colors == (SkinColors::Custom {
        body_color: look.color_body,
        feet_color: look.color_feet,
    })
    &&& !look.use_custom_color ==> info.colors == SkinColors::Original
}

/// The first look of a client is kept, and the game is joined with it if that
/// was all that was missing. Later first looks do not count.
pub proof fn first_look_is_kept(
    c: &mut Client,
    look: PlayerLook,
    msg: ClientMsg,
    out: &mut Vec<Action<String, Vec<u8>>>,
    r: Result<(), ClientError>,
)
    requires
        msg == ClientMsg::Game(GameMsg::StartInfo(look)),
        call_ensures(Client::chunk, (c, &msg, true, out), r),
    ensures
        r == Ok::<(), ClientError>(()),
        ({
            let n = old(out)@.len() as int;
            let joins = old(c).character is None && old(c).legacy_ready && old(c).map is Some
                && !old(c).ready_sent;
            &&& old(c).character is Some ==> final(c).character == old(c).character
            &&& old(c).character is None ==> {
                &&& final(c).character is Some
                &&& tells_look(final(c).character->0, look)
                &&& final(c).character->0.skin is OrDefault
            }
            &&& final(c).ready_sent == (old(c).ready_sent || joins)
            &&& joins ==> final(out)@.len() == n + 1 && (
            final(out)@[n] matches Action::ReadyForGame { character } && tells_look(
                character,
                look,
            ) && character.skin is OrDefault)
            &&& !joins ==> final(out)@.len() == n
            &&& final(c).player == old(c).player && final(c).input_id == old(c).input_id
        }),
{
    let sent = added_messages(old(out)@, final(out)@);
    lemma_sent(old(out)@, final(out)@, sent);
    if sent.len() > 0 {
        assert(sent[0] == final(out)@[old(out)@.len() as int]@);
        assert(sent[0] is ReadyForGame);
        let told = final(out)@[old(out)@.len() as int]->character;
        assert(told@ == character_info(look, true));
        assert(told@.skin == told.skin@);
    }
    if old(c).character is None {
        let kept = final(c).character->0;
        assert(kept@.skin == kept.skin@);
    }
}

/// A changed look is kept and told to the backend under a new number. Before
/// the first look there is nothing to change.
pub proof fn changed_look_is_told(
    c: &mut Client,
    look: PlayerLook,
    msg: ClientMsg,
    out: &mut Vec<Action<String, Vec<u8>>>,
    r: Result<(), ClientError>,
)
    requires
        msg == ClientMsg::Game(GameMsg::ChangeInfo(look)),
        call_ensures(Client::chunk, (c, &msg, true, out), r),
        old(c).input_id < u64::MAX,
    ensures
        r == Ok::<(), ClientError>(()),
        old(c).character is None ==> final(out)@.len() == old(out)@.len() && *final(c) == (Client {
            transport_ready: true,
            ..*old(c)
        }),
        old(c).character is Some ==> {
            let n = old(out)@.len() as int;
            &&& final(c).character is Some
            &&& tells_look(final(c).character->0, look)
            &&& final(c).character->0.skin is Lossy
            &&& final(c).input_id == old(c).input_id + 1
            &&& final(c).player == old(c).player
            &&& old(c).player is None ==> final(out)@.len() == n
            &&& old(c).player is Some ==> {
                &&& final(out)@.len() == n + 1
                &&& final(out)@[n] matches Action::Player {
                    player,
                    msg: PlayerMsg::UpdateCharacterInfo { version, info },
                }
                &&& Some(player) == old(c).player
                &&& version == old(c).input_id + 1
                &&& tells_look(info, look)
                &&& info.skin is Lossy
            }
        },
{
    let sent = added_messages(old(out)@, final(out)@);
    lemma_sent(old(out)@, final(out)@, sent);
    if old(c).character is Some {
        let kept = final(c).character->0;
        assert(kept@ == character_info(look, false));
        assert(kept@.skin == kept.skin@);
        if old(c).player is Some {
            let told = final(out)@[old(out)@.len() as int];
            assert(sent[0] == told@);
            assert(told is Player);
            assert(told->msg is UpdateCharacterInfo);
            let info = told->msg->info;
            assert(info@ == character_info(look, false));
            assert(info@.skin == info.skin@);
        }
    }
}

/// Pings are answered, those that carry an id with the same id. A client that
/// asks what something means is told that exactly this is not known. Nobody
/// can log in to the remote console.
pub proof fn questions_are_answered(
    c: &mut Client,
    question: SystemMsg,
    msg: ClientMsg,
    out: &mut Vec<Action<String, Vec<u8>>>,
    r: Result<(), ClientError>,
)
    requires
        question is Ping || question is PingEx || question is WhatIs || question is RconAuth,
        msg == ClientMsg::System(question),
        call_ensures(Client::chunk, (c, &msg, true, out), r),
    ensures
        r == Ok::<(), ClientError>(()),
        *final(c) == (Client { transport_ready: true, ..*old(c) }),
        ({
            let n = old(out)@.len() as int;
            let sent = final(out)@;
            match question {
                SystemMsg::Ping => sent.len() == n + 1 && sent[n] is PingReply,
                SystemMsg::PingEx { id } => sent.len() == n + 1 && sent[n] == (Action::<
                    String,
                    Vec<u8>,
                >::PongEx { id }),
                SystemMsg::WhatIs { uuid } => sent.len() == n + 1 && sent[n] == (Action::<
                    String,
                    Vec<u8>,
                >::IDontKnow { uuid }),
                _ => sent.len() == n + 2 && sent[n] == (Action::<
                    String,
                    Vec<u8>,
                >::RconAuthStatus { auth_level: 0, receive_commands: 0 }) && (
                sent[n + 1] matches Action::RconLine { line } && line@
                    == "Remote console authentication is unavailable through the legacy proxy."@),
            }
        }),
{
    let sent = added_messages(old(out)@, final(out)@);
    lemma_sent(old(out)@, final(out)@, sent);
    assert(sent[0] == final(out)@[old(out)@.len() as int]@);
    if question is RconAuth {
        assert(sent[1] == final(out)@[old(out)@.len() + 1int]@);
    }
}

/// Messages that may be lost do not count, except for inputs and pings, and
/// messages that are not known never do: nothing is sent and nothing changes
/// but that the client has spoken.
pub proof fn other_messages_do_not_count(
    c: &mut Client,
    msg: ClientMsg,
    vital: bool,
    out: &mut Vec<Action<String, Vec<u8>>>,
    r: Result<(), ClientError>,
)
    requires
        match msg {
            ClientMsg::System(SystemMsg::Other) => true,
            ClientMsg::System(m) => !vital && !(m is Input || m is Ping || m is PingEx),
            ClientMsg::Game(m) => !vital || m is Other,
            ClientMsg::Unknown => true,
        },
        call_ensures(Client::chunk, (c, &msg, vital, out), r),
    ensures
        r == Ok::<(), ClientError>(()),
        *final(c) == (Client { transport_ready: true, ..*old(c) }),
        final(out)@.len() == old(out)@.len(),
{
    lemma_sent(old(out)@, final(out)@, added_messages(old(out)@, final(out)@));
}

/// A client of the right version is remembered with its password, which the
/// backend is told. One of another version is refused.
pub proof fn version_is_checked_and_password_passed_on(
    c: &mut Client,
    version: Vec<u8>,
    password: Option<Vec<u8>>,
    msg: ClientMsg,
    out: &mut Vec<Action<String, Vec<u8>>>,
    r: Result<(), ClientError>,
)
    requires
        msg == ClientMsg::System(SystemMsg::Info { version, password }),
        call_ensures(Client::chunk, (c, &msg, true, out), r),
    ensures
        r is Ok <==> version@ == encode_utf8("0.6 626fce9a778df4d4"@),
        r matches Err(error) ==> error == ClientError::UnsupportedVersion && *final(c) == (Client {
            transport_ready: true,
            ..*old(c)
        }) && final(out)@.len() == old(out)@.len(),
        r is Ok ==> {
            let n = old(out)@.len() as int;
            let text = match password {
                Some(bytes) => lossy_utf8(bytes@),
                None => lossy_utf8(Seq::empty()),
            };
            &&& final(c).password@ == text
            &&& *final(c) == (Client {
                transport_ready: true,
                password: final(c).password,
                ..*old(c)
            })
            &&& final(out)@.len() == n + 1
            &&& final(out)@[n] matches Action::PasswordResponse { password: told }
            &&& told@ == text
        },
{
    let sent = added_messages(old(out)@, final(out)@);
    lemma_sent(old(out)@, final(out)@, sent);
    if r is Ok {
        assert(sent[0] == final(out)@[old(out)@.len() as int]@);
    }
}

/// A client enters the game exactly if it has a player in it.
pub proof fn only_players_enter(
    c: &mut Client,
    msg: ClientMsg,
    out: &mut Vec<Action<String, Vec<u8>>>,
    r: Result<(), ClientError>,
)
    requires
        msg == ClientMsg::System(SystemMsg::EnterGame),
        call_ensures(Client::chunk, (c, &msg, true, out), r),
    ensures
        r == Ok::<(), ClientError>(()),
        final(c).entered <==> old(c).player is Some,
        *final(c) == (Client {
            transport_ready: true,
            entered: final(c).entered,
            ..*old(c)
        }),
        final(out)@.len() == old(out)@.len(),
{
    lemma_sent(old(out)@, final(out)@, added_messages(old(out)@, final(out)@));
}

/// A client that says it is ready is told that the server is too, once its
/// map is there. The game is joined with its look if that is known.
pub proof fn ready_clients_are_let_on(
    c: &mut Client,
    msg: ClientMsg,
    out: &mut Vec<Action<String, Vec<u8>>>,
    r: Result<(), ClientError>,
)
    requires
        msg == ClientMsg::System(SystemMsg::Ready),
        call_ensures(Client::chunk, (c, &msg, true, out), r),
    ensures
        r == Ok::<(), ClientError>(()),
        ({
            let n = old(out)@.len() as int;
            let joins = old(c).map is Some && old(c).character is Some && !old(c).ready_sent;
            &&& old(c).map is None ==> final(out)@.len() == n && *final(c) == (Client {
                transport_ready: true,
                ..*old(c)
            })
            &&& old(c).map is Some ==> {
                &&& final(out)@.len() == n + if joins {
                    2int
                } else {
                    1
                }
                &&& final(out)@[n] is ConReady
                &&& joins ==> (final(out)@[n + 1] matches Action::ReadyForGame { character }
                    && character@ == old(c).character->0@)
                &&& *final(c) == (Client {
                    transport_ready: true,
                    legacy_ready: true,
                    ready_sent: old(c).ready_sent || joins,
                    ..*old(c)
                })
            }
        }),
{
    let sent = added_messages(old(out)@, final(out)@);
    lemma_sent(old(out)@, final(out)@, sent);
    if old(c).map is Some {
        assert(sent[0] == final(out)@[old(out)@.len() as int]@);
        assert(sent.skip(1).len() == sent.len() - 1);
        if sent.len() > 1 {
            assert(sent.skip(1)[0] == sent[1]);
            assert(sent[1] == final(out)@[old(out)@.len() + 1int]@);
        }
    }
}

/// A map that was loaded is announced under its name, with its checksum and
/// its size, and served from then on. The game is joined with the look of the
/// client if only the map was missing.
pub proof fn loaded_map_is_announced(
    c: &mut Client,
    map: ServedMap,
    out: &mut Vec<Action<String, Vec<u8>>>,
)
    requires
        call_ensures(Client::map_loaded, (c, map, out), ()),
        map.bytes@.len() <= i32::MAX,
    ensures
        ({
            let n = old(out)@.len() as int;
            let joins = old(c).legacy_ready && old(c).character is Some && !old(c).ready_sent;
            &&& final(out)@.len() == n + if joins {
                2int
            } else {
                1
            }
            &&& final(out)@[n] matches Action::MapChange { name, crc, size }
            &&& name@ == map.name@
            &&& crc == map.crc
            &&& size == map.bytes@.len()
            &&& joins ==> (final(out)@[n + 1] matches Action::ReadyForGame { character }
                && character@ == old(c).character->0@)
            &&& *final(c) == (Client {
                map: Some(map),
                ready_sent: old(c).ready_sent || joins,
                ..*old(c)
            })
        }),
{
    let sent = added_messages(old(out)@, final(out)@);
    lemma_sent(old(out)@, final(out)@, sent);
    assert(sent[0] == final(out)@[old(out)@.len() as int]@);
    assert(sent.skip(1).len() == sent.len() - 1);
    if sent.len() > 1 {
        assert(sent.skip(1)[0] == sent[1]);
        assert(sent[1] == final(out)@[old(out)@.len() + 1int]@);
    }
}

/// A look that is told is the one that it is a copy of: name, clan, skin and
/// colours, each as it was.
pub proof fn looks_are_told_as_they_are(a: CharacterInfo<String>, b: CharacterInfo<String>)
    requires
        a@ == b@,
    ensures
        a.name@ == b.name@,
        a.clan@ == b.clan@,
        a.colors == b.colors,
        a.skin is Lossy <==> b.skin is Lossy,
        a.skin matches SkinName::Lossy(x) ==> (b.skin matches SkinName::Lossy(y) && x@ == y@),
        a.skin matches SkinName::OrDefault(x) ==> (b.skin matches SkinName::OrDefault(y) && x@
            == y@),
{
    assert(a@.skin == a.skin@ && b@.skin == b.skin@);
}

/// An input of a client in the game is passed on if it is for a tick within
/// 150 of the latest snapshot and not out of date: under a new number, for
/// its player and for the tick of the backend that it is meant for, as the
/// native input stands after it. The number is remembered with both ticks.
/// Otherwise nothing is sent.
pub proof fn inputs_are_passed_on(
    c: &mut Client,
    ack_snapshot: i32,
    intended_tick: i32,
    input: LegacyInput,
    msg: ClientMsg,
    vital: bool,
    out: &mut Vec<Action<String, Vec<u8>>>,
    r: Result<(), ClientError>,
)
    requires
        msg == ClientMsg::System(SystemMsg::Input { ack_snapshot, intended_tick, input }),
        call_ensures(Client::chunk, (c, &msg, vital, out), r),
        old(c).input_id < u64::MAX,
        old(c).pending_input_ticks@.dom().finite(),
        forall|k: u64| #[trigger]
            old(c).pending_input_ticks@.contains_key(k) ==> k <= old(c).input_id,
        old(c).entered ==> old(c).player is Some,
    ensures
        r == Ok::<(), ClientError>(()),
        ({
            let n = old(out)@.len() as int;
            let tick = old(c).tick_origin->0 + intended_tick;
            let distance = tick - old(c).snapshots.latest_tick;
            let stale = old(c).inputs.last_tick matches Some(last) && (intended_tick < last || (
            intended_tick == last && input == old(c).inputs.previous));
            let passed = old(c).entered && old(c).tick_origin is Some && intended_tick >= 0 && tick
                <= u64::MAX && -150 <= distance <= 150 && !stale;
            &&& !passed ==> final(out)@.len() == n && final(c).input_id == old(c).input_id
                && final(c).inputs == old(c).inputs && final(c).pending_input_ticks
                == old(c).pending_input_ticks
            &&& passed ==> {
                let id = old(c).input_id + 1;
                &&& final(c).input_id == id
                &&& final(c).inputs.previous == input
                &&& final(c).inputs.last_tick == Some(intended_tick)
                &&& final(c).pending_input_ticks@.contains_key(id as u64)
                &&& final(c).pending_input_ticks@[id as u64].0 == intended_tick
                &&& final(c).pending_input_ticks@[id as u64].1 == tick
                &&& final(c).pending_input_ticks@.len() <= 256
                &&& final(c).inputs.race == old(c).inputs.race
                &&& final(out)@.len() == n + 1
                &&& final(out)@[n] matches Action::Inputs { id: told, input: Some(sent), snap_ack }
                &&& told == id
                &&& Some(sent.player) == old(c).player
                &&& sent.tick == tick
                &&& sent.input == final(c).inputs.current
                &&& snap_ack == old(c).snapshots.latest_id
            }
            &&& final(c).player == old(c).player && final(c).entered == old(c).entered
        }),
{
    let sent = added_messages(old(out)@, final(out)@);
    lemma_sent(old(out)@, final(out)@, sent);
    if sent.len() > 0 {
        assert(sent[0] == final(out)@[old(out)@.len() as int]@);
        let id = (old(c).input_id + 1) as u64;
        let pending = old(c).pending_input_ticks@;
        let value = final(out)@[old(out)@.len() as int]->Inputs_input->0.tick;
        let all = pending.insert(id, (intended_tick, value));
        let kept = final(c).pending_input_ticks@;
        assert(newest(all, kept, MAX_PENDING_INPUTS as nat));
        assert(all.contains_key(id));
        if !kept.contains_key(id) {
            assert(kept.len() == MAX_PENDING_INPUTS);
            let j = kept.dom().choose();
            assert(kept.contains_key(j));
            assert(all.contains_key(j));
        }
    }
}

/// A snapshot that the client acknowledges is the base of later differences
/// from then on, if it is still there. Others change nothing about that.
pub proof fn acknowledged_snapshot_becomes_the_base(
    c: &mut Client,
    ack_snapshot: i32,
    intended_tick: i32,
    input: LegacyInput,
    msg: ClientMsg,
    vital: bool,
    out: &mut Vec<Action<String, Vec<u8>>>,
    r: Result<(), ClientError>,
)
    requires
        msg == ClientMsg::System(SystemMsg::Input { ack_snapshot, intended_tick, input }),
        call_ensures(Client::chunk, (c, &msg, vital, out), r),
    ensures
        old(c).entered && ack_snapshot >= 0 && old(c).old_snaps@.contains_key(ack_snapshot as u64)
            ==> final(c).ack == ack_snapshot,
        !(old(c).entered && ack_snapshot >= 0 && old(c).old_snaps@.contains_key(
            ack_snapshot as u64,
        )) ==> final(c).ack == old(c).ack,
        final(c).old_snaps == old(c).old_snaps,
{
}

} // verus!
