//! What holds of what a client is told of the backend.
use crate::legacy::answers::lemma_sent;
use crate::legacy::backend::{
    acknowledged, without_nul, BackendMsg, ChatChannel, Delta, GameModule, InputAck, JoinResponse,
    ModConfig,
};
use crate::legacy::client::{added_messages, Client, ClientError, MAX_OLD_SNAPS};
use crate::legacy::events::{translate, WorldEvent};
use crate::legacy::input::time_left;
use crate::legacy::messages::{shown, Action, Text, VoteKind};
use crate::legacy::objects::{SnapItem, SnapObj};
use crate::legacy::snapshot::GameConfig;
use crate::legacy::votes::{Category, VoteState, VoteSubject, Votes};
use crate::legacy::world::Snapshot;
use crate::tables::newest;
use crate::text::{is_cut, lemma_is_cut};
use std::time::Duration;
use vstd::prelude::*;

verus! {

/// A text without its NUL characters.
pub open spec fn no_nul(s: Text) -> Text {
    s.filter(|c: char| c != '\0')
}

proof fn lemma_without_nul(s: Text)
    ensures
        without_nul(s) == no_nul(s),
    decreases s.len(),
{
    reveal(Seq::filter);
    if s.len() > 0 {
        lemma_without_nul(s.drop_last());
    }
}

/// A chat message names the slot of its sender, or -1 if it has none, and has
/// its text without NUL characters, cut to 512 bytes. It goes to all, to the
/// team, or is a whisper: one that the client sent if the sender is its own
/// player, and one that it received otherwise.
pub proof fn chat_is_passed_on(
    c: &mut Client,
    sender: u64,
    channel: ChatChannel,
    message: String,
    msg: BackendMsg,
    default_config: GameConfig,
    out: &mut Vec<Action<String, Vec<u8>>>,
    r: Result<(), ClientError>,
)
    requires
        msg == (BackendMsg::Chat { sender, channel, message }),
        call_ensures(Client::server_message, (c, &msg, default_config, out), r),
    ensures
        r == Ok::<(), ClientError>(()),
        *final(c) == *old(c),
        ({
            let n = old(out)@.len() as int;
            let players = old(c).snapshots.players@;
            &&& final(out)@.len() == n + 1
            &&& final(out)@[n] matches Action::Chat { team, client_id, message: told }
            &&& team == 0 <==> channel == ChatChannel::Global
            &&& team == 1 <==> channel == ChatChannel::GameTeam
            &&& team == 2 <==> channel == ChatChannel::Whisper && old(c).player == Some(sender)
            &&& team == 3 <==> channel == ChatChannel::Whisper && old(c).player != Some(sender)
            &&& players.contains_key(sender) ==> client_id == players[sender]
            &&& !players.contains_key(sender) ==> client_id == -1
            &&& is_cut(no_nul(message@), 512, told@)
        }),
{
    let sent = added_messages(old(out)@, final(out)@);
    lemma_sent(old(out)@, final(out)@, sent);
    assert(sent[0] == final(out)@[old(out)@.len() as int]@);
    lemma_without_nul(message@);
    lemma_is_cut(no_nul(message@), 512);
}

/// A backend that asks for the password gets the one that the client gave,
/// and messages about the queue are passed on as they are.
pub proof fn password_and_queue_are_passed_on(
    c: &mut Client,
    msg: BackendMsg,
    default_config: GameConfig,
    out: &mut Vec<Action<String, Vec<u8>>>,
    r: Result<(), ClientError>,
)
    requires
        msg is RequiresPassword || msg is QueueInfo || msg is Other,
        call_ensures(Client::server_message, (c, &msg, default_config, out), r),
    ensures
        r == Ok::<(), ClientError>(()),
        *final(c) == *old(c),
        ({
            let n = old(out)@.len() as int;
            match msg {
                BackendMsg::RequiresPassword => final(out)@.len() == n + 1 && (
                final(out)@[n] matches Action::PasswordResponse { password } && password@ == old(
                    c,
                ).password@),
                BackendMsg::QueueInfo { message } => final(out)@.len() == n + 1 && (
                final(out)@[n] matches Action::Broadcast { message: told } && told@ == message@),
                _ => final(out)@.len() == n,
            }
        }),
{
    let sent = added_messages(old(out)@, final(out)@);
    lemma_sent(old(out)@, final(out)@, sent);
    if sent.len() > 0 {
        assert(sent[0] == final(out)@[old(out)@.len() as int]@);
    }
}

/// The player of a client is the first one that the backend let in. Then the
/// client may enter, and asks for both kinds of votes. If nobody was let in,
/// or the backend refused, that is an error and nothing changes.
pub proof fn first_joined_player_is_the_clients(
    c: &mut Client,
    response: JoinResponse,
    msg: BackendMsg,
    default_config: GameConfig,
    out: &mut Vec<Action<String, Vec<u8>>>,
    r: Result<(), ClientError>,
)
    requires
        msg == BackendMsg::ReadyResponse(response),
        call_ensures(Client::server_message, (c, &msg, default_config, out), r),
    ensures
        ({
            let n = old(out)@.len() as int;
            match response {
                JoinResponse::Rejected => r == Err::<(), ClientError>(ClientError::Rejected)
                    && *final(c) == *old(c) && final(out)@.len() == n,
                JoinResponse::Joined(ids) => {
                    &&& ids@.len() == 0 ==> r == Err::<(), ClientError>(ClientError::NobodyJoined)
                        && *final(c) == *old(c) && final(out)@.len() == n
                    &&& ids@.len() > 0 ==> {
                        &&& r == Ok::<(), ClientError>(())
                        &&& *final(c) == (Client { player: Some(ids@.first()), ..*old(c) })
                        &&& final(out)@.len() == n + 3
                        &&& final(out)@[n] is ReadyToEnter
                        &&& final(out)@[n + 1] is LoadMapVotes
                        &&& final(out)@[n + 2] is LoadMiscVotes
                    }
                },
            }
        }),
{
    let sent = added_messages(old(out)@, final(out)@);
    lemma_sent(old(out)@, final(out)@, sent);
    if r is Ok {
        let n = old(out)@.len();
        assert(sent[0] == final(out)@[n as int]@);
        assert(sent[1] == final(out)@[n + 1int]@);
        assert(sent[2] == final(out)@[n + 2int]@);
    }
}

/// A game that cannot be served is refused and changes nothing. Any other one
/// starts afresh: without map, player, inputs, snapshots, events and tuning,
/// but with the password, the look and the votes that were there. It is a
/// race exactly if its physics are those of DDNet, and its limits are the
/// given ones or else the default ones.
pub proof fn new_game_starts_afresh(
    c: &mut Client,
    module: GameModule,
    config: ModConfig,
    physics: String,
    msg: BackendMsg,
    default_config: GameConfig,
    out: &mut Vec<Action<String, Vec<u8>>>,
    r: Result<(), ClientError>,
)
    requires
        msg == (BackendMsg::Load { module, config, physics }),
        call_ensures(Client::server_message, (c, &msg, default_config, out), r),
    ensures
        final(out)@.len() == old(out)@.len(),
        r == Err::<(), ClientError>(ClientError::UnsupportedModule) <==> module
            == GameModule::Other,
        module == GameModule::Other ==> *final(c) == *old(c),
        r == Err::<(), ClientError>(ClientError::InvalidConfig) <==> module != GameModule::Other
            && config is Invalid,
        r is Ok <==> module != GameModule::Other && !(config is Invalid),
        module != GameModule::Other ==> {
            let s = final(c).snapshots;
            &&& final(c).map is None && final(c).player is None
            &&& !final(c).ready_sent && !final(c).legacy_ready && !final(c).entered
            &&& final(c).transport_ready == old(c).transport_ready
            &&& final(c).character == old(c).character
            &&& final(c).password == old(c).password
            &&& final(c).votes == old(c).votes
            &&& final(c).input_id == old(c).input_id
            &&& s.players@.dom() == Set::<u64>::empty() && s.objects@.len() == 0
            &&& s.bases@.dom() == Set::<u64>::empty() && s.player_seen@.dom() == Set::<
                u64,
            >::empty()
            &&& s.latest_id is None && s.latest_tick == 0
        },
        r is Ok ==> {
            let race = physics@ == "ddnet"@;
            let now = final(c).inputs;
            &&& final(c).snapshots.race == race && now.race == race
            &&& match config {
                ModConfig::Given(given) => final(c).snapshots.game_config == given,
                _ => final(c).snapshots.game_config == default_config,
            }
            &&& now.last_tick is None && now.current.version == 0
            &&& now.current.jumps == 0 && now.current.hooks == 0 && now.current.fires == 0
            &&& now.current.weapon_diff == 0
            &&& now.previous.fire == 0 && now.previous.jump == 0 && now.previous.hook == 0
            &&& now.previous.next_weapon == 0 && now.previous.prev_weapon == 0
            &&& now.previous.wanted_weapon == 0
            &&& final(c).pending_input_ticks@.dom() == Set::<u64>::empty()
            &&& final(c).old_snaps@.dom() == Set::<u64>::empty()
            &&& final(c).ack == -1 && final(c).tick_origin is None
            &&& final(c).tuning@.len() == 0 && final(c).effects@.len() == 0
        },
{
    lemma_sent(old(out)@, final(out)@, added_messages(old(out)@, final(out)@));
    if module != GameModule::Other {
        let s = final(c).snapshots;
        assert(s.players@.dom() =~= Set::empty());
        assert(s.bases@.dom() =~= Set::empty());
        assert(s.player_seen@.dom() =~= Set::empty());
        if r is Ok {
            assert(final(c).pending_input_ticks@.dom() =~= Set::empty());
            assert(final(c).old_snaps@.dom() =~= Set::empty());
        }
    }
}

/// `shown` is `count`, at most 64.
pub open spec fn shown_count(told: i32, count: u64) -> bool {
    &&& 0 <= told <= 64
    &&& count <= 64 ==> told == count
    &&& count > 64 ==> told == 64
}

/// The state of a vote is told in full: what it is about and why, each cut to
/// 64 bytes, the seconds that are left, from 1 to 60, and how many voted yes
/// or no, did not vote, and may vote, up to 64 each. The end of a vote is told
/// too.
pub proof fn vote_state_is_told(
    c: &mut Client,
    vote: Option<VoteState>,
    msg: BackendMsg,
    default_config: GameConfig,
    out: &mut Vec<Action<String, Vec<u8>>>,
    r: Result<(), ClientError>,
)
    requires
        msg == BackendMsg::Vote(vote),
        call_ensures(Client::server_message, (c, &msg, default_config, out), r),
    ensures
        r == Ok::<(), ClientError>(()),
        *final(c) == *old(c),
        ({
            let n = old(out)@.len() as int;
            &&& final(out)@.len() > n
            &&& final(out)@[n] matches Action::VoteSet { timeout, description, reason }
            &&& vote is None ==> final(out)@.len() == n + 1 && timeout == 0 && description@.len()
                == 0 && reason@.len() == 0
            &&& vote matches Some(v) ==> {
                &&& final(out)@.len() == n + 2
                &&& 1 <= timeout <= 60
                &&& 1 <= v.remaining_secs <= 60 ==> timeout == v.remaining_secs
                &&& v.remaining_secs == 0 ==> timeout == 1
                &&& v.remaining_secs > 60 ==> timeout == 60
                &&& match v.subject {
                    VoteSubject::MapVote { name } => is_cut("Map: "@ + name@, 64, description@)
                        && reason@.len() == 0,
                    VoteSubject::MiscVote { name } => is_cut(name@, 64, description@)
                        && reason@.len() == 0,
                    VoteSubject::Kick { name, reason: why } => is_cut(
                        "Kick "@ + name@,
                        64,
                        description@,
                    ) && is_cut(why@, 64, reason@),
                    VoteSubject::Spectate { name, reason: why } => is_cut(
                        "Spectate "@ + name@,
                        64,
                        description@,
                    ) && is_cut(why@, 64, reason@),
                    VoteSubject::RandomUnfinishedMap => is_cut(
                        "Random unfinished map"@,
                        64,
                        description@,
                    ) && reason@.len() == 0,
                }
                &&& final(out)@[n + 1] matches Action::VoteStatus { yes, no, pass, total }
                &&& shown_count(yes, v.yes_votes)
                &&& shown_count(no, v.no_votes)
                &&& shown_count(total, v.allowed_to_vote_count)
                &&& pass >= 0
                &&& yes + no <= total ==> yes + no + pass == total
                &&& yes + no > total ==> pass == 0
            }
        }),
{
    let sent = added_messages(old(out)@, final(out)@);
    lemma_sent(old(out)@, final(out)@, sent);
    let n = old(out)@.len();
    assert(sent[0] == final(out)@[n as int]@);
    reveal_strlit("");
    if let Some(v) = vote {
        assert(sent[1] == final(out)@[n + 1int]@);
        lemma_is_cut(""@, 64);
        match v.subject {
            VoteSubject::MapVote { name } => lemma_is_cut("Map: "@ + name@, 64),
            VoteSubject::MiscVote { name } => lemma_is_cut(name@, 64),
            VoteSubject::Kick { name, reason } => {
                lemma_is_cut("Kick "@ + name@, 64);
                lemma_is_cut(reason@, 64);
            },
            VoteSubject::Spectate { name, reason } => {
                lemma_is_cut("Spectate "@ + name@, 64);
                lemma_is_cut(reason@, 64);
            },
            VoteSubject::RandomUnfinishedMap => lemma_is_cut("Random unfinished map"@, 64),
        }
    }
}

/// An input that is acknowledged is timed: the client is told its own tick of
/// the input and the time that was left, by the tick of the backend that the
/// input was for. It is no longer pending, and nothing else is touched. One
/// that is not pending is passed over.
pub proof fn acknowledged_input_is_timed<P: Fn(&Vec<SnapItem>) -> bool>(
    c: &mut Client,
    tick: u64,
    snapshot: Snapshot,
    overhead: Duration,
    ack: InputAck,
    acks: Vec<InputAck>,
    tuning: Option<Vec<u8>>,
    pack: P,
    out: &mut Vec<Action<String, Vec<u8>>>,
    left: i32,
    r: Result<Option<Delta>, ClientError>,
)
    requires
        acks@ == seq![ack],
        call_ensures(
            Client::snapshot::<P>,
            (c, tick, &snapshot, overhead, &acks, tuning, pack, out),
            r,
        ),
        old(c).pending_input_ticks@.contains_key(ack.id) ==> call_ensures(
            time_left,
            (old(c).pending_input_ticks@[ack.id].1, tick, overhead, ack.logic_overhead),
            left,
        ),
    ensures
        ({
            let n = old(out)@.len() as int;
            let pending = old(c).pending_input_ticks@;
            &&& final(c).pending_input_ticks@ == pending.remove(ack.id)
            &&& pending.contains_key(ack.id) ==> final(out)@.len() > n && final(out)@[n] == (
            Action::<String, Vec<u8>>::InputTiming {
                input_pred_tick: pending[ack.id].0,
                time_left: left,
            })
            &&& !pending.contains_key(ack.id) ==> final(out)@.len() > n && final(out)@[n] is Inputs
        }),
{
    reveal_with_fuel(acknowledged, 2);
    assert(acks@.drop_last() =~= seq![]);
    let pending = old(c).pending_input_ticks@;
    let sent = added_messages(old(out)@, final(out)@);
    lemma_sent(old(out)@, final(out)@, sent);
    let timing = acknowledged(pending, tick, overhead, acks@).1;
    assert(sent[0] == final(out)@[old(out)@.len() as int]@);
    if pending.contains_key(ack.id) {
        assert(sent.take(1)[0] == sent[0]);
        assert(timing =~= seq![timing[0]]);
    } else {
        assert(pending.remove(ack.id) =~= pending);
    }
}

/// A snapshot is acknowledged to the backend under a new number. A client
/// that has not entered is sent nothing of it. One that has sees ticks that
/// count from its first snapshot, which has tick one, and may not go back
/// before that. It is told new tuning, and gets the difference to the
/// snapshot that it acknowledged, or to nothing where that is gone.
pub proof fn snapshots_are_shown_to_players_in_the_game<P: Fn(&Vec<SnapItem>) -> bool>(
    c: &mut Client,
    tick: u64,
    snapshot: Snapshot,
    overhead: Duration,
    acks: Vec<InputAck>,
    tuning: Option<Vec<u8>>,
    pack: P,
    out: &mut Vec<Action<String, Vec<u8>>>,
    r: Result<Option<Delta>, ClientError>,
)
    requires
        acks@.len() == 0,
        old(c).input_id < u64::MAX,
        call_ensures(
            Client::snapshot::<P>,
            (c, tick, &snapshot, overhead, &acks, tuning, pack, out),
            r,
        ),
    ensures
        ({
            let n = old(out)@.len() as int;
            let origin: int = match old(c).tick_origin {
                Some(origin) => origin as int,
                None => if tick == 0 {
                    0
                } else {
                    tick - 1
                },
            };
            let changed = tuning is Some && old(c).tuning@ != tuning->0@;
            let shown = old(c).entered && origin <= tick <= origin + i32::MAX && tuning is Some;
            &&& final(out)@.len() == n + 1 + if shown && changed {
                1int
            } else {
                0
            }
            &&& final(out)@[n] == (Action::<String, Vec<u8>>::Inputs {
                id: (old(c).input_id + 1) as u64,
                input: None,
                snap_ack: old(c).snapshots.latest_id,
            })
            &&& final(c).input_id == old(c).input_id + 1
            &&& shown && changed ==> (final(out)@[n + 1] matches Action::Tuning { message }
                && message@ == tuning->0@)
            &&& shown ==> final(c).tuning@ == tuning->0@
            &&& !shown ==> final(c).tuning == old(c).tuning && final(c).snapshots == old(
                c,
            ).snapshots
            &&& !old(c).entered ==> r == Ok::<Option<Delta>, ClientError>(None)
                && final(c).tick_origin == old(c).tick_origin
            &&& old(c).entered ==> (final(c).tick_origin matches Some(o) && o == origin)
            &&& old(c).entered && tick < origin ==> r == Err::<Option<Delta>, ClientError>(
                ClientError::TickBackwards,
            )
            &&& old(c).entered && tick - origin > i32::MAX ==> r == Err::<
                Option<Delta>,
                ClientError,
            >(ClientError::TickRange)
            &&& old(c).entered && origin <= tick <= origin + i32::MAX && tuning is None ==> r
                == Err::<Option<Delta>, ClientError>(ClientError::Tuning)
            &&& shown ==> !(r matches Ok(None))
            &&& r matches Ok(Some(delta)) ==> {
                let ack = old(c).ack;
                let known = ack >= 0 && old(c).old_snaps@.contains_key(ack as u64);
                &&& shown
                &&& delta.tick == tick - origin
                &&& known ==> delta.base_tick == ack && delta.base@ == old(c).old_snaps@[ack
                    as u64]@
                &&& !known ==> delta.base_tick == -1 && delta.base@.len() == 0
            }
            &&& final(c).effects == old(c).effects && final(c).old_snaps == old(c).old_snaps
            &&& final(c).player == old(c).player && final(c).entered == old(c).entered
        }),
{
    reveal_with_fuel(acknowledged, 1);
    let sent = added_messages(old(out)@, final(out)@);
    lemma_sent(old(out)@, final(out)@, sent);
    let n = old(out)@.len();
    assert(sent[0] == final(out)@[n as int]@);
    assert(sent.skip(1).len() == sent.len() - 1);
    if sent.len() > 1 {
        assert(sent.skip(1)[0] == sent[1]);
        assert(sent[1] == final(out)@[n + 1int]@);
    }
}

/// A snapshot that was sent can be the base of later differences under its
/// tick, and the events that were in it are gone. At most 150 are kept.
pub proof fn sent_snapshot_is_kept(c: &mut Client, delta: Delta)
    requires
        call_ensures(Client::snapshot_sent, (c, delta), ()),
        delta.tick >= 0,
        old(c).old_snaps@.dom().finite(),
        forall|k: u64| #[trigger] old(c).old_snaps@.contains_key(k) ==> k <= delta.tick,
    ensures
        final(c).old_snaps@.contains_key(delta.tick as u64),
        final(c).old_snaps@[delta.tick as u64] == delta.items,
        final(c).old_snaps@.len() <= 150,
        forall|k: u64| #[trigger]
            final(c).old_snaps@.contains_key(k) && k != delta.tick ==> old(
                c,
            ).old_snaps@.contains_key(k) && final(c).old_snaps@[k] == old(c).old_snaps@[k],
        final(c).effects@.len() == 0,
        final(c).ack == old(c).ack && final(c).snapshots == old(c).snapshots && final(c).player
            == old(c).player,
{
    let all = old(c).old_snaps@.insert(delta.tick as u64, delta.items);
    let kept = final(c).old_snaps@;
    assert(newest(all, kept, MAX_OLD_SNAPS as nat));
    assert(all.contains_key(delta.tick as u64));
    if !kept.contains_key(delta.tick as u64) {
        assert(kept.len() == MAX_OLD_SNAPS);
        let j = kept.dom().choose();
        assert(kept.contains_key(j));
        assert(all.contains_key(j));
    }
    assert forall|k: u64| #[trigger] kept.contains_key(k) && k != delta.tick implies old(
        c,
    ).old_snaps@.contains_key(k) && kept[k] == old(c).old_snaps@[k] by {
        assert(all.contains_key(k));
    }
}

/// Votes that the backend loads or takes back are loaded into and taken out
/// of the client's own, of the same kind. After some were taken back the
/// client is told to forget all, so that it can be told the others anew.
/// Nothing else about the client changes.
pub proof fn votes_of_the_backend_are_kept(
    c: &mut Client,
    kind: VoteKind,
    categories: Vec<Category>,
    msg: BackendMsg,
    default_config: GameConfig,
    out: &mut Vec<Action<String, Vec<u8>>>,
    v: &mut Votes,
    r: Result<(), ClientError>,
)
    requires
        msg == (BackendMsg::LoadVotes { kind, categories }) || msg == (BackendMsg::ResetVotes {
            kind,
        }),
        call_ensures(Client::server_message, (c, &msg, default_config, out), r),
        *old(v) == old(c).votes,
        msg is LoadVotes ==> call_ensures(Votes::load, (v, kind, &categories), ()),
        msg is ResetVotes ==> call_ensures(Votes::reset, (v, kind), ()),
    ensures
        r == Ok::<(), ClientError>(()),
        final(c).votes.options() == final(v).options(),
        final(c).votes.labels() == final(v).labels(),
        *final(c) == (Client { votes: final(c).votes, ..*old(c) }),
        msg is LoadVotes ==> final(out)@.len() == old(out)@.len(),
        msg is ResetVotes ==> final(out)@.len() == old(out)@.len() + 1
            && final(out)@.last() is VoteClearOptions,
{
    let sent = added_messages(old(out)@, final(out)@);
    lemma_sent(old(out)@, final(out)@, sent);
    if msg is ResetVotes {
        assert(sent[0] == final(out)@[old(out)@.len() as int]@);
    }
}

/// Events of the game are translated with the slots that the client knows.
/// Nothing else about the client changes.
pub proof fn events_of_the_backend_are_translated(
    c: &mut Client,
    events: Vec<WorldEvent>,
    msg: BackendMsg,
    default_config: GameConfig,
    out: &mut Vec<Action<String, Vec<u8>>>,
    effects: &mut Vec<SnapObj>,
    told: &mut Vec<Action<String, Vec<u8>>>,
    r: Result<(), ClientError>,
)
    requires
        msg == BackendMsg::Events(events),
        call_ensures(Client::server_message, (c, &msg, default_config, out), r),
        old(effects)@ == old(c).effects@,
        old(told)@ == old(out)@,
        call_ensures(translate, (&old(c).snapshots.players, effects, &events, told), ()),
    ensures
        r == Ok::<(), ClientError>(()),
        final(c).effects@ == final(effects)@,
        shown(final(out)@) == shown(final(told)@),
        *final(c) == (Client { effects: final(c).effects, ..*old(c) }),
{
    let sent = added_messages(old(out)@, final(out)@);
    lemma_sent(old(out)@, final(out)@, sent);
    assert(shown(final(out)@) =~= shown(old(out)@) + sent);
}

} // verus!
