//! How the steps behind a message agree with it, and with each other.
use crate::legacy::answers::lemma_sent;
use crate::legacy::backend::{
    acknowledged, delta_base, snapshot_shown, BackendMsg, Delta, InputAck, JoinResponse,
};
use crate::legacy::character::spectator_pos;
use crate::legacy::client::{added_messages, extends, skin_info, Client, ClientError};
use crate::legacy::decode::{decodes, Packed};
use crate::legacy::events::WorldEvent;
use crate::legacy::input::{millis_left, time_left, Inputs, LegacyInput, NativeInput};
use crate::legacy::messages::{
    shown, Action, Bytes, CharacterInfo, ClientMsg, GameMsg, SkinColors, SkinName, SystemMsg, Text,
    VoteKind,
};
use crate::legacy::objects::{SnapItem, SnapObj, Weapon};
use crate::legacy::picture::{
    follows_first, has_character, is_limited, is_weapon, lemma_character_in, lemma_character_of,
    lemma_followed, lemma_has_character, lemma_plays, plays,
};
use crate::legacy::scene::shows_weapon;
use crate::legacy::slots::{lemma_free_object, lemma_object_index, lemma_object_seen, objects_valid};
use crate::legacy::snapshot::{
    builds, clamp, kept_objects, object_index, object_slot_used, packs, players_after,
    projectile_weapon, roster_of, steps_of, weapon, GameConfig, SnapshotError, Snapshots,
};
use crate::legacy::votes::{state, Category, VoteState};
use crate::legacy::world::{
    Character, Position, Snapshot, Spectator, Stage, WeaponType, WeaponWithProjectile,
};
use std::time::Duration;
use vstd::prelude::*;

verus! {

/// The same is told, message by message.
pub open spec fn same_told(
    a: Seq<Action<String, Vec<u8>>>,
    b: Seq<Action<String, Vec<u8>>>,
) -> bool {
    a.len() == b.len() && forall|i: int| 0 <= i < a.len() ==> (#[trigger] a[i])@ == b[i]@
}

proof fn lemma_same_told(a: Seq<Action<String, Vec<u8>>>, b: Seq<Action<String, Vec<u8>>>)
    requires
        shown(a) == shown(b),
    ensures
        same_told(a, b),
{
    assert(shown(a).len() == a.len());
    assert(shown(b).len() == b.len());
    assert forall|i: int| 0 <= i < a.len() implies (#[trigger] a[i])@ == b[i]@ by {
        assert(shown(a)[i] == a[i]@);
        assert(shown(b)[i] == b[i]@);
    }
}

proof fn lemma_extended(
    before: Seq<Action<String, Vec<u8>>>,
    a: Seq<Action<String, Vec<u8>>>,
    b: Seq<Action<String, Vec<u8>>>,
)
    requires
        extends(before, a),
        extends(before, b),
        added_messages(before, a) == added_messages(before, b),
    ensures
        same_told(a, b),
{
    assert(shown(a) =~= shown(before) + added_messages(before, a));
    assert(shown(b) =~= shown(before) + added_messages(before, b));
    lemma_same_told(a, b);
}

/// The part of the map that a client asks for: 896 bytes from its place on,
/// or what is left. The last one is marked, and past the end there is none.
pub proof fn maps_are_sent_in_parts(
    c: &mut Client,
    chunk: i32,
    msg: ClientMsg,
    out: &mut Vec<Action<String, Vec<u8>>>,
    r: Result<(), ClientError>,
)
    requires
        msg == ClientMsg::System(SystemMsg::RequestMapData { chunk }),
        call_ensures(Client::chunk, (c, &msg, true, out), r),
    ensures
        r == Ok::<(), ClientError>(()),
        *final(c) == (Client { transport_ready: true, ..*old(c) }),
        ({
            let n = old(out)@.len() as int;
            let start = 896 * chunk;
            &&& old(c).map is None || chunk < 0 || start >= old(c).map->0.bytes@.len()
                ==> final(out)@.len() == n
            &&& old(c).map matches Some(map) ==> (0 <= start < map.bytes@.len() ==> {
                &&& final(out)@.len() == n + 1
                &&& final(out)@[n] matches Action::MapData { last, crc, chunk: told, data }
                &&& told == chunk
                &&& crc == map.crc
                &&& last <==> start + 896 >= map.bytes@.len()
                &&& last ==> data@ == map.bytes@.skip(start)
                &&& !last ==> data@ == map.bytes@.subrange(start, start + 896)
            })
        }),
{
    let sent = added_messages(old(out)@, final(out)@);
    lemma_sent(old(out)@, final(out)@, sent);
    let n = old(out)@.len() as int;
    if let Some(map) = old(c).map {
        let start = 896 * chunk;
        if 0 <= start < map.bytes@.len() {
            assert(sent[0] == final(out)@[n]@);
            assert(map.bytes@.skip(start) =~= map.bytes@.subrange(start, map.bytes@.len() as int));
        }
    }
}

/// A message about the game is answered by the game, and one of the system by
/// the system. Unknown ones, and those about the game that may get lost, are
/// not answered.
pub proof fn messages_are_answered_by_their_part(
    c: &mut Client,
    msg: ClientMsg,
    vital: bool,
    out: &mut Vec<Action<String, Vec<u8>>>,
    r: Result<(), ClientError>,
    c2: &mut Client,
    out2: &mut Vec<Action<String, Vec<u8>>>,
    game: GameMsg,
    system: SystemMsg,
    r2: Result<(), ClientError>,
)
    requires
        call_ensures(Client::chunk, (c, &msg, vital, out), r),
        *old(c2) == *old(c),
        old(out2)@ == old(out)@,
        match msg {
            ClientMsg::Game(g) => game == g && vital && call_ensures(
                Client::game,
                (c2, &game, out2),
                (),
            ) && !(game is StartInfo) && !(game is ChangeInfo) && r2 == Ok::<(), ClientError>(()),
            ClientMsg::System(s) => system == s && call_ensures(
                Client::system,
                (c2, &system, vital, out2),
                r2,
            ) && !(system is Input),
            ClientMsg::Unknown => *final(c2) == (Client { transport_ready: true, ..*old(c2) })
                && final(out2)@ == old(out2)@ && r2 == Ok::<(), ClientError>(()),
        },
    ensures
        r == r2,
        same_told(final(out)@, final(out2)@),
        final(c).transport_ready == final(c2).transport_ready,
        final(c).ready_sent == final(c2).ready_sent,
        final(c).entered == final(c2).entered,
        final(c).ack == final(c2).ack,
        final(c).password@ == final(c2).password@,
{
    let sent = added_messages(old(out)@, final(out)@);
    let sent2 = added_messages(old(out2)@, final(out2)@);
    if msg is Unknown {
        assert(extends(old(out2)@, final(out2)@));
        assert(sent2 =~= seq![]);
        assert(sent =~= seq![]);
    } else if let ClientMsg::Game(g) = msg {
        assert(sent =~= sent2);
    } else {
        if sent.len() > 0 && system is Ready && vital {
            assert(sent =~= seq![sent[0]] + sent.skip(1));
            assert(sent2 =~= seq![sent2[0]] + sent2.skip(1));
            assert(sent.skip(1) =~= sent2.skip(1));
        }
        assert(sent =~= sent2);
    }
    lemma_extended(old(out)@, final(out)@, final(out2)@);
}

/// The game is joined as soon as the client is ready, has loaded the map and
/// told how its player looks, and not again.
pub proof fn games_are_joined_when_all_is_there(c: &mut Client, out: &mut Vec<Action<String, Vec<u8>>>)
    requires
        call_ensures(Client::ready, (c, out), ()),
    ensures
        ({
            let n = old(out)@.len() as int;
            let joins = !old(c).ready_sent && old(c).legacy_ready && old(c).map is Some && old(
                c,
            ).character is Some;
            &&& joins ==> {
                &&& final(c).ready_sent
                &&& final(out)@.len() == n + 1
                &&& final(out)@[n] matches Action::ReadyForGame { character }
                &&& character@ == old(c).character->0@
            }
            &&& !joins ==> *final(c) == *old(c) && final(out)@.len() == n
            &&& *final(c) == (Client { ready_sent: final(c).ready_sent, ..*old(c) })
        }),
{
    let sent = added_messages(old(out)@, final(out)@);
    lemma_sent(old(out)@, final(out)@, sent);
    if sent.len() > 0 {
        assert(sent[0] == final(out)@[old(out)@.len() as int]@);
    }
}

/// The colours that a player chose count exactly if it chose its own.
pub proof fn own_colours_count(custom: bool, body: i32, feet: i32, r: SkinColors)
    requires
        call_ensures(skin_info, (custom, body, feet), r),
    ensures
        custom <==> r is Custom,
        !custom <==> r is Original,
        r matches SkinColors::Custom { body_color, feet_color } ==> body_color == body && feet_color
            == feet,
{
}

/// A copy of a look is the same look.
pub proof fn copied_looks_are_the_same(info: &CharacterInfo<String>, r: CharacterInfo<String>)
    requires
        call_ensures(CharacterInfo::<String>::copy, (info,), r),
    ensures
        r.name@ == info.name@,
        r.clan@ == info.clan@,
        r.colors == info.colors,
        info.skin matches SkinName::OrDefault(name) ==> (r.skin matches SkinName::OrDefault(same)
            && same@ == name@),
        info.skin matches SkinName::Lossy(name) ==> (r.skin matches SkinName::Lossy(same) && same@
            == name@),
{
    assert(r@.name == info@.name && r@.clan == info@.clan);
    assert(r@.skin == info@.skin);
}

/// What the backend asks for or tells is answered by the step for it: the
/// password, the queue, the chat, the vote, the vote options and the events.
pub proof fn backend_messages_are_answered_by_their_step(
    c: &mut Client,
    msg: BackendMsg,
    config: GameConfig,
    out: &mut Vec<Action<String, Vec<u8>>>,
    r: Result<(), ClientError>,
    c2: &mut Client,
    out2: &mut Vec<Action<String, Vec<u8>>>,
    text: &str,
    response: JoinResponse,
    vote: Option<VoteState>,
    kind: VoteKind,
    events: Vec<WorldEvent>,
    r2: Result<(), ClientError>,
)
    requires
        call_ensures(Client::server_message, (c, &msg, config, out), r),
        *old(c2) == *old(c),
        old(out2)@ == old(out)@,
        match msg {
            BackendMsg::RequiresPassword => call_ensures(
                Client::requires_password,
                (&*old(c2), out2),
                (),
            ) && r2 == Ok::<(), ClientError>(()),
            BackendMsg::QueueInfo { message } => text@ == message@ && call_ensures(
                Client::queue_info,
                (&*old(c2), text, out2),
                (),
            ) && r2 == Ok::<(), ClientError>(()),
            BackendMsg::Chat { sender, channel, message } => text@ == message@ && call_ensures(
                Client::chat,
                (&*old(c2), sender, channel, text, out2),
                (),
            ) && r2 == Ok::<(), ClientError>(()),
            BackendMsg::Vote(v) => v == vote && call_ensures(state, (&vote, out2), ()) && r2 == Ok::<(), ClientError>(()),
            BackendMsg::ReadyResponse(answer) => answer == response && call_ensures(
                Client::ready_response,
                (c2, &response, out2),
                r2,
            ),
            BackendMsg::ResetVotes { kind: k } => kind == k && call_ensures(
                Client::reset_votes,
                (c2, kind, out2),
                (),
            ) && r2 == Ok::<(), ClientError>(()),
            BackendMsg::Events(list) => events == list && call_ensures(
                Client::events,
                (c2, &events, out2),
                (),
            ) && r2 == Ok::<(), ClientError>(()),
            _ => false,
        },
    ensures
        r == r2,
        same_told(final(out)@, final(out2)@),
        msg is ReadyResponse ==> final(c).player == final(c2).player,
        msg is Events ==> final(c).effects@ == final(c2).effects@,
{
    let before = shown(old(out)@);
    let sent = added_messages(old(out)@, final(out)@);
    assert(shown(final(out)@) =~= before + sent);
    assert(shown(final(out)@) =~= shown(final(out2)@));
    lemma_same_told(final(out)@, final(out2)@);
}

/// Vote options are loaded and removed alike, whether the backend's message
/// or the step behind it is looked at.
pub proof fn votes_are_loaded_by_their_step(
    c: &mut Client,
    kind: VoteKind,
    categories: Vec<Category>,
    msg: BackendMsg,
    config: GameConfig,
    out: &mut Vec<Action<String, Vec<u8>>>,
    r: Result<(), ClientError>,
    c2: &mut Client,
)
    requires
        msg == (BackendMsg::LoadVotes { kind, categories }),
        call_ensures(Client::server_message, (c, &msg, config, out), r),
        *old(c2) == *old(c),
        call_ensures(Client::load_votes, (c2, kind, &categories), ()),
    ensures
        r is Ok,
        final(out)@.len() == old(out)@.len(),
        final(c).votes.options() == final(c2).votes.options(),
        final(c).votes.labels() == final(c2).votes.labels(),
{
    let sent = added_messages(old(out)@, final(out)@);
    lemma_sent(old(out)@, final(out)@, sent);
}

/// A spectator looks at the first player that it follows and that plays, else
/// at its cursor.
pub proof fn spectators_look_at_whom_they_follow(snapshot: &Snapshot, p: &Spectator, r: Position)
    requires
        call_ensures(spectator_pos, (snapshot, p), r),
        roster_of(*snapshot).no_duplicates(),
    ensures
        forall|f: int, d: Character| #[trigger]
            follows_first(snapshot.stages@, p.follows@, f, d) ==> r == d.pos,
        (forall|m: int|
            0 <= m < p.follows@.len() ==> !plays(snapshot.stages@, #[trigger] p.follows@[m])) ==> r
            == p.cursor,
{
    lemma_followed(*snapshot, p.follows@);
}

/// A character is found by its id exactly if it is there.
pub proof fn characters_are_found_by_id(
    stage: &Stage,
    snapshot: &Snapshot,
    id: u64,
    r: Option<&Character>,
    r2: Option<&Character>,
)
    requires
        call_ensures(Stage::character, (stage, id), r),
        call_ensures(Snapshot::character, (snapshot, id), r2),
    ensures
        r is Some <==> has_character(*stage, id),
        r matches Some(c) ==> c.id == id && stage.characters@.contains(*c),
        r2 is Some <==> plays(snapshot.stages@, id),
        r2 matches Some(c) ==> c.id == id && exists|i: int|
            0 <= i < snapshot.stages@.len() && (
            #[trigger] snapshot.stages@[i]).characters@.contains(*c),
{
    lemma_character_of(stage.characters@, id);
    lemma_has_character(*stage, id);
    if let Some(c) = r {
        let j = choose|j: int|
            0 <= j < stage.characters@.len() && #[trigger] stage.characters@[j] == *c;
        assert(stage.characters@.contains(*c));
    }
    lemma_character_in(snapshot.stages@, id);
    if let Some(c) = r2 {
        let (i, j) = choose|i: int, j: int|
            #![trigger snapshot.stages@[i].characters@[j]]
            {
                &&& 0 <= i < snapshot.stages@.len()
                &&& 0 <= j < snapshot.stages@[i].characters@.len()
                &&& snapshot.stages@[i].characters@[j] == *c
                &&& c.id == id
            };
        lemma_plays(snapshot.stages@, i, j);
        assert(snapshot.stages@[i].characters@.contains(*c));
    }
}

/// Weapons have the numbers of their slots, projectiles the weapon that they
/// were fired with, and numbers are limited to 32 bits.
pub proof fn weapons_and_numbers_are_told_as_they_are(
    w: WeaponType,
    number: i32,
    ty: WeaponWithProjectile,
    fired: Weapon,
    n: i64,
    limited: i32,
)
    requires
        call_ensures(weapon, (w,), number),
        call_ensures(projectile_weapon, (ty,), fired),
        call_ensures(clamp, (n,), limited),
    ensures
        is_weapon(number, w),
        shows_weapon(fired, ty),
        is_limited(limited, n as int),
{
}

/// An entity has one id: the one that it has in the table, or the lowest that
/// nobody has. It is noted as seen.
pub proof fn entities_are_given_one_id(
    s: &mut Snapshots,
    kind: u8,
    id: u64,
    r: Result<u16, SnapshotError>,
    k: int,
    t: u16,
)
    requires
        call_ensures(Snapshots::object, (s, kind, id), r),
        objects_valid(old(s).objects@),
    ensures
        0 <= k < old(s).objects@.len() && old(s).objects@[k].kind == kind && old(s).objects@[k].id
            == id ==> r == Ok::<u16, SnapshotError>(old(s).objects@[k].slot),
        r matches Ok(slot) ==> exists|m: int|
            {
                &&& 0 <= m < final(s).objects@.len()
                &&& (#[trigger] final(s).objects@[m]).kind == kind
                &&& final(s).objects@[m].id == id
                &&& final(s).objects@[m].slot == slot
                &&& final(s).objects@[m].seen == old(s).latest_tick
            },
        r matches Ok(slot) ==> ((forall|m: int|
            0 <= m < old(s).objects@.len() ==> (#[trigger] old(s).objects@[m]).kind != kind || old(
                s,
            ).objects@[m].id != id) ==> {
            &&& forall|m: int|
                0 <= m < old(s).objects@.len() ==> (#[trigger] old(s).objects@[m]).slot != slot
            &&& t < slot ==> exists|m: int|
                0 <= m < old(s).objects@.len() && (#[trigger] old(s).objects@[m]).slot == t
        }),
        r matches Err(e) ==> e == SnapshotError::EntityIdsExhausted && final(s).objects@ == old(
            s,
        ).objects@,
{
    let before = old(s).objects@;
    lemma_object_index(before, kind, id);
    lemma_object_seen(before, old(s).latest_tick, kind, id);
    lemma_free_object(before, 0);
    let at = object_index(before, kind, id);
    if 0 <= k < before.len() && before[k].kind == kind && before[k].id == id {
        assert(at < before.len());
        assert(at == k);
    }
    if let Ok(slot) = r {
        assert(final(s).objects@[at].kind == kind);
        if t < slot && at == before.len() {
            assert(object_slot_used(before, t));
        }
    }
}

/// A whole snapshot that is handed on is what its bytes read as, at its own
/// tick, and newer than all before. A difference counts from its base; without
/// the base it is passed over. What is refused changes nothing.
pub proof fn decoded_snapshots_are_what_was_sent<P: Fn(&Vec<u8>) -> Option<(Snapshot, usize)>>(
    s: &mut Snapshots,
    data: &[u8],
    diff: Option<u64>,
    id: u64,
    tick: u64,
    keep: bool,
    parse: P,
    r: Result<Option<(u64, Snapshot)>, SnapshotError>,
)
    requires
        call_ensures(Snapshots::decode::<P>, (s, data, diff, id, tick, keep, parse), r),
    ensures
        r is Err ==> *final(s) == *old(s),
        diff is None && data@.len() > 4 * 1024 * 1024 ==> (r matches Err(e) && e
            == SnapshotError::TooLarge),
        diff matches Some(base) ==> (!old(s).bases@.contains_key(base) ==> (r matches Ok(None))
            && *final(s) == *old(s)),
        r matches Ok(Some((at, snapshot))) ==> {
            &&& final(s).latest_tick == at
            &&& final(s).latest_id matches Some(newest)
            &&& old(s).latest_id matches Some(latest) ==> latest < newest
            &&& diff is None ==> at == tick && newest == id && exists|bytes: Vec<u8>|
                bytes@ == data@ && #[trigger] parse.ensures(
                    (&bytes,),
                    Some((snapshot, data@.len() as usize)),
                )
            &&& diff matches Some(base) ==> old(s).bases@.contains_key(base) && at == old(
                s,
            ).bases@[base].0 + tick && newest == base + id
        },
{
    let (packed, parsed) = choose|
        packed: Result<Option<Packed>, SnapshotError>,
        parsed: Option<(Snapshot, usize)>,
    |
        {
            &&& #[trigger] decodes(
                *old(s),
                data@,
                diff,
                id,
                tick,
                keep,
                packed,
                parsed,
                r,
                *final(s),
            )
            &&& packed matches Ok(Some(packed)) ==> parse.ensures((&packed.bytes,), parsed)
        };
    if let Ok(Some((at, snapshot))) = r {
        let bytes = packed->Ok_0->0.bytes;
        assert(parse.ensures((&bytes,), parsed));
        assert(parsed == Some((snapshot, bytes@.len() as usize)));
    }
}

/// What a client in the game is sent is what is built for its own player, at
/// its own tick, with the events that wait for it.
pub proof fn clients_are_sent_what_is_built_for_them<P: Fn(&Vec<SnapItem>) -> bool>(
    c: &mut Client,
    tick: u64,
    snapshot: Snapshot,
    overhead: Duration,
    acks: Vec<InputAck>,
    tuning: Option<Vec<u8>>,
    pack: P,
    out: &mut Vec<Action<String, Vec<u8>>>,
    delta: Delta,
    player: u64,
    effects: Vec<SnapObj>,
    s: &mut Snapshots,
    items: Vec<SnapItem>,
)
    requires
        call_ensures(
            Client::snapshot::<P>,
            (c, tick, &snapshot, overhead, &acks, tuning, pack, out),
            Ok::<Option<Delta>, ClientError>(Some(delta)),
        ),
        old(c).player == Some(player),
        *old(s) == old(c).snapshots,
        effects@ == old(c).effects@,
        call_ensures(
            Snapshots::build::<P>,
            (s, &snapshot, player, delta.tick, &effects, pack),
            Ok::<Vec<SnapItem>, SnapshotError>(items),
        ),
    ensures
        delta.items@ == items@,
        final(c).snapshots.players@ == final(s).players@,
        final(c).snapshots.objects@ == final(s).objects@,
{
    let before = old(c).snapshots;
    let r = Ok::<Option<Delta>, ClientError>(Some(delta));
    let (left, timing) = acknowledged(old(c).pending_input_ticks@, tick, overhead, acks@);
    let id = (old(c).input_id + 1) as u64;
    let sent = added_messages(old(out)@, final(out)@);
    let n = timing.len() as int;
    let acked = choose|acked: Client|
        {
            &&& acked.pending_input_ticks@ == left
            &&& acked == (Client {
                pending_input_ticks: acked.pending_input_ticks,
                input_id: id,
                ..*old(c)
            })
            &&& #[trigger] snapshot_shown(
                acked,
                tick,
                snapshot,
                tuning,
                pack,
                *final(c),
                sent.skip(n + 1),
                r,
            )
        };
    let now = delta.tick;
    let built = choose|built: Result<Vec<SnapItem>, SnapshotError>|
        {
            &&& #[trigger] builds(
                acked.snapshots,
                snapshot,
                acked.player->0,
                now,
                acked.effects@,
                pack,
                built,
                final(c).snapshots,
            )
            &&& match built {
                Err(error) => r == Err::<Option<Delta>, ClientError>(ClientError::Snapshot(error)),
                Ok(items) => r matches Ok(Some(delta)) && delta.tick == now && (
                    delta.base_tick,
                    delta.base@,
                ) == delta_base(acked) && delta.items@ == items@,
            }
        };
    let (players, _, fit) = players_after(
        before.players@,
        before.player_seen@,
        before.latest_tick,
        snapshot,
        player,
    );
    let kept = kept_objects(before.objects@, before.latest_tick);
    let steps = steps_of(
        before.game_config,
        before.race,
        players,
        snapshot,
        player,
        now,
        effects@,
    );
    assert(fit);
    assert(packs(pack, kept, before.latest_tick, steps, built, final(c).snapshots.objects@));
    assert(packs(
        pack,
        kept,
        before.latest_tick,
        steps,
        Ok::<Vec<SnapItem>, SnapshotError>(items),
        final(s).objects@,
    ));
}

/// The `i`th of the acknowledged inputs is timed: it is pending, and was not
/// acknowledged before it in the list.
pub open spec fn is_timed(pending: Map<u64, (i32, u64)>, acks: Seq<InputAck>, i: int) -> bool {
    &&& 0 <= i < acks.len()
    &&& pending.contains_key(acks[i].id)
    &&& forall|j: int| 0 <= j < i ==> (#[trigger] acks[j]).id != acks[i].id
}

/// The inputs that are timed among the first `i`.
pub open spec fn timed_before(pending: Map<u64, (i32, u64)>, acks: Seq<InputAck>, i: int) -> int
    decreases i,
{
    if i <= 0 {
        0
    } else {
        timed_before(pending, acks, i - 1) + if is_timed(pending, acks, i - 1) {
            1int
        } else {
            0
        }
    }
}

proof fn lemma_timed_before(
    pending: Map<u64, (i32, u64)>,
    acks: Seq<InputAck>,
    i: int,
)
    requires
        acks.len() > 0,
        0 <= i < acks.len(),
    ensures
        timed_before(pending, acks.drop_last(), i) == timed_before(pending, acks, i),
        0 <= timed_before(pending, acks, i) <= i,
    decreases i,
{
    if i > 0 {
        lemma_timed_before(pending, acks, i - 1);
        let head = acks.drop_last();
        assert(is_timed(pending, head, i - 1) <==> is_timed(pending, acks, i - 1)) by {
            assert(head[i - 1] == acks[i - 1]);
            assert forall|j: int| 0 <= j < i - 1 implies head[j] == #[trigger] acks[j] by {}
            if is_timed(pending, head, i - 1) {
                assert forall|j: int| 0 <= j < i - 1 implies (#[trigger] acks[j]).id != acks[i
                    - 1].id by {
                    assert(head[j].id != head[i - 1].id);
                }
            }
        }
    }
}

proof fn lemma_timed_order(pending: Map<u64, (i32, u64)>, acks: Seq<InputAck>, i: int, j: int)
    requires
        i <= j,
    ensures
        timed_before(pending, acks, i) <= timed_before(pending, acks, j),
    decreases j - i,
{
    if i < j {
        lemma_timed_order(pending, acks, i, j - 1);
    }
}

proof fn lemma_acknowledged(
    pending: Map<u64, (i32, u64)>,
    tick: u64,
    overhead: Duration,
    acks: Seq<InputAck>,
)
    ensures
        ({
            let (left, messages) = acknowledged(pending, tick, overhead, acks);
            &&& forall|id: u64| #[trigger]
                left.contains_key(id) <==> pending.contains_key(id) && forall|j: int|
                    0 <= j < acks.len() ==> (#[trigger] acks[j]).id != id
            &&& forall|id: u64| #[trigger] left.contains_key(id) ==> left[id] == pending[id]
            &&& messages.len() == timed_before(pending, acks, acks.len() as int)
            &&& forall|i: int| #[trigger]
                is_timed(pending, acks, i) ==> {
                    &&& 0 <= timed_before(pending, acks, i) < messages.len()
                    &&& messages[timed_before(pending, acks, i)]
                        == Action::<Text, Bytes>::InputTiming {
                        input_pred_tick: pending[acks[i].id].0,
                        time_left: millis_left(
                            pending[acks[i].id].1,
                            tick,
                            overhead,
                            acks[i].logic_overhead,
                        ),
                    }
                }
        }),
    decreases acks.len(),
{
    if acks.len() > 0 {
        let head = acks.drop_last();
        let n = acks.len() - 1;
        lemma_acknowledged(pending, tick, overhead, head);
        lemma_timed_before(pending, acks, n);
        let (before, first) = acknowledged(pending, tick, overhead, head);
        let (left, messages) = acknowledged(pending, tick, overhead, acks);
        let ack = acks[n];
        assert(acks.last() == ack);
        assert(before.contains_key(ack.id) <==> is_timed(pending, acks, n)) by {
            assert forall|j: int| 0 <= j < n implies head[j] == #[trigger] acks[j] by {}
            if before.contains_key(ack.id) {
                assert forall|j: int| 0 <= j < n implies (#[trigger] acks[j]).id != ack.id by {
                    assert(head[j].id != ack.id);
                }
            }
            if is_timed(pending, acks, n) {
                assert forall|j: int| 0 <= j < head.len() implies (#[trigger] head[j]).id
                    != ack.id by {
                    assert(acks[j].id != ack.id);
                }
            }
        }
        assert forall|id: u64| #[trigger]
            left.contains_key(id) <==> pending.contains_key(id) && forall|j: int|
                0 <= j < acks.len() ==> (#[trigger] acks[j]).id != id by {
            if left.contains_key(id) {
                assert(before.contains_key(id) && id != ack.id);
                assert forall|j: int| 0 <= j < acks.len() implies (#[trigger] acks[j]).id
                    != id by {
                    if j < n {
                        assert(head[j].id != id);
                    }
                }
            }
            if pending.contains_key(id) && (forall|j: int|
                0 <= j < acks.len() ==> (#[trigger] acks[j]).id != id) {
                assert forall|j: int| 0 <= j < head.len() implies (#[trigger] head[j]).id
                    != id by {
                    assert(acks[j].id != id);
                }
                assert(acks[n].id != id);
                assert(before.contains_key(id));
            }
        }
        assert forall|id: u64| #[trigger] left.contains_key(id) implies left[id]
            == pending[id] by {
            assert(before.contains_key(id));
        }
        assert forall|i: int| #[trigger] is_timed(pending, acks, i) implies {
            &&& 0 <= timed_before(pending, acks, i) < messages.len()
            &&& messages[timed_before(pending, acks, i)] == Action::<Text, Bytes>::InputTiming {
                input_pred_tick: pending[acks[i].id].0,
                time_left: millis_left(
                    pending[acks[i].id].1,
                    tick,
                    overhead,
                    acks[i].logic_overhead,
                ),
            }
        } by {
            lemma_timed_before(pending, acks, i);
            if i < n {
                assert(is_timed(pending, head, i)) by {
                    assert(head[i] == acks[i]);
                    assert forall|j: int| 0 <= j < i implies (#[trigger] head[j]).id
                        != head[i].id by {
                        assert(acks[j].id != acks[i].id);
                    }
                }
                assert(messages[timed_before(pending, acks, i)] == first[timed_before(
                    pending,
                    acks,
                    i,
                )]);
            }
        }
    }
}

/// All inputs that are acknowledged are timed, in order, each once, with the
/// client's own tick and the time that was left. Those that are not
/// acknowledged stay pending.
pub proof fn acknowledged_inputs_are_timed_in_order<P: Fn(&Vec<SnapItem>) -> bool>(
    c: &mut Client,
    tick: u64,
    snapshot: Snapshot,
    overhead: Duration,
    acks: Vec<InputAck>,
    tuning: Option<Vec<u8>>,
    pack: P,
    out: &mut Vec<Action<String, Vec<u8>>>,
    r: Result<Option<Delta>, ClientError>,
    i: int,
    left: i32,
    id: u64,
)
    requires
        call_ensures(
            Client::snapshot::<P>,
            (c, tick, &snapshot, overhead, &acks, tuning, pack, out),
            r,
        ),
        is_timed(old(c).pending_input_ticks@, acks@, i),
        call_ensures(
            time_left,
            (
                old(c).pending_input_ticks@[acks@[i].id].1,
                tick,
                overhead,
                acks@[i].logic_overhead,
            ),
            left,
        ),
    ensures
        ({
            let pending = old(c).pending_input_ticks@;
            let n = old(out)@.len() + timed_before(pending, acks@, i);
            &&& old(out)@.len() <= n < final(out)@.len()
            &&& final(out)@[n] == (Action::<String, Vec<u8>>::InputTiming {
                input_pred_tick: pending[acks@[i].id].0,
                time_left: left,
            })
            &&& final(c).pending_input_ticks@.contains_key(id) <==> pending.contains_key(id)
                && forall|j: int| 0 <= j < acks@.len() ==> (#[trigger] acks@[j]).id != id
            &&& final(c).pending_input_ticks@.contains_key(id)
                ==> final(c).pending_input_ticks@[id] == pending[id]
        }),
{
    let pending = old(c).pending_input_ticks@;
    lemma_acknowledged(pending, tick, overhead, acks@);
    let sent = added_messages(old(out)@, final(out)@);
    lemma_sent(old(out)@, final(out)@, sent);
    let (rest, timing) = acknowledged(pending, tick, overhead, acks@);
    let k = timed_before(pending, acks@, i);
    assert(sent.take(timing.len() as int)[k] == sent[k]);
    assert(sent[k] == final(out)@[old(out)@.len() + k]@);
    assert(final(c).pending_input_ticks@ == rest);
}

/// A client that has just connected has done nothing yet.
pub proof fn new_clients_have_done_nothing(config: GameConfig, c: Client, race: bool, s: Snapshots)
    requires
        call_ensures(Client::new, (config,), c),
        call_ensures(Snapshots::new, (race, config), s),
    ensures
        c.player is None && c.character is None && c.map is None,
        !c.ready_sent && !c.legacy_ready && !c.transport_ready && !c.entered,
        c.password@.len() == 0,
        c.input_id == 0,
        c.ack == -1,
        c.tick_origin is None,
        c.tuning@.len() == 0,
        c.effects@.len() == 0,
        c.votes.options().len() == 0,
        c.inputs.last_tick is None,
        forall|id: u64| !(#[trigger] c.pending_input_ticks@.contains_key(id)),
        forall|t: u64| !(#[trigger] c.old_snaps@.contains_key(t)),
        forall|id: u64| !(#[trigger] c.snapshots.players@.contains_key(id)),
        c.snapshots.latest_id is None,
        s.race == race,
        s.game_config == config,
        s.latest_id is None,
        s.latest_tick == 0,
        s.objects@.len() == 0,
        forall|id: u64| !(#[trigger] s.players@.contains_key(id)),
        forall|id: u64| !(#[trigger] s.bases@.contains_key(id)),
{
    reveal_strlit("");
}

/// Before the first input nothing is held, and nothing was counted.
pub proof fn inputs_start_at_rest(a: LegacyInput, b: NativeInput, c: Inputs)
    requires
        call_ensures(LegacyInput::default, (), a),
        call_ensures(NativeInput::default, (), b),
        call_ensures(Inputs::default, (), c),
    ensures
        a.direction == 0 && a.target_x == 0 && a.target_y == 0 && a.jump == 0 && a.fire == 0
            && a.hook == 0,
        a.player_flags == 0 && a.wanted_weapon == 0 && a.next_weapon == 0 && a.prev_weapon == 0,
        b.jumps == 0 && b.hooks == 0 && b.fires == 0 && b.weapon_diff == 0 && b.version == 0,
        b.latest.dir == 0 && !b.latest.jump && !b.latest.hook && !b.latest.fire,
        b.latest.cursor_x == 0 && b.latest.cursor_y == 0 && b.latest.weapon_req is None,
        !b.latest.menu_ui && !b.latest.chatting && !b.latest.scoreboard
            && !b.latest.hook_collision_line,
        c.last_tick is None && !c.race && c.current == b && c.previous == a,
{
}

/// A snapshot that cannot be built fails for the reason that building gives:
/// too many players is told as such, and any other error of a snapshot that
/// is shown is one of building.
pub proof fn clients_are_told_why_nothing_is_built<P: Fn(&Vec<SnapItem>) -> bool>(
    c: &mut Client,
    tick: u64,
    snapshot: Snapshot,
    overhead: Duration,
    acks: Vec<InputAck>,
    tuning: Option<Vec<u8>>,
    pack: P,
    out: &mut Vec<Action<String, Vec<u8>>>,
    r: Result<Option<Delta>, ClientError>,
    player: u64,
    now: i32,
    effects: Vec<SnapObj>,
    s: &mut Snapshots,
    built: Result<Vec<SnapItem>, SnapshotError>,
)
    requires
        call_ensures(
            Client::snapshot::<P>,
            (c, tick, &snapshot, overhead, &acks, tuning, pack, out),
            r,
        ),
        old(c).entered,
        old(c).player == Some(player),
        tuning is Some,
        old(c).tick_origin matches Some(origin) ==> tick - origin == now,
        old(c).tick_origin is None ==> tick >= 1 && now == 1,
        now >= 0,
        *old(s) == old(c).snapshots,
        effects@ == old(c).effects@,
        call_ensures(
            Snapshots::build::<P>,
            (s, &snapshot, player, now, &effects, pack),
            built,
        ),
    ensures
        r matches Err(e) ==> e is Snapshot,
        built == Err::<Vec<SnapItem>, SnapshotError>(SnapshotError::TooManyPlayers) <==> r == Err::<
            Option<Delta>,
            ClientError,
        >(ClientError::Snapshot(SnapshotError::TooManyPlayers)),
{
    let before = old(c).snapshots;
    let (left, timing) = acknowledged(old(c).pending_input_ticks@, tick, overhead, acks@);
    let id = (old(c).input_id + 1) as u64;
    let sent = added_messages(old(out)@, final(out)@);
    let n = timing.len() as int;
    let acked = choose|acked: Client|
        {
            &&& acked.pending_input_ticks@ == left
            &&& acked == (Client {
                pending_input_ticks: acked.pending_input_ticks,
                input_id: id,
                ..*old(c)
            })
            &&& #[trigger] snapshot_shown(
                acked,
                tick,
                snapshot,
                tuning,
                pack,
                *final(c),
                sent.skip(n + 1),
                r,
            )
        };
    let other = choose|other: Result<Vec<SnapItem>, SnapshotError>|
        {
            &&& #[trigger] builds(
                acked.snapshots,
                snapshot,
                acked.player->0,
                now,
                acked.effects@,
                pack,
                other,
                final(c).snapshots,
            )
            &&& match other {
                Err(error) => r == Err::<Option<Delta>, ClientError>(ClientError::Snapshot(error)),
                Ok(items) => r matches Ok(Some(delta)) && delta.tick == now && (
                    delta.base_tick,
                    delta.base@,
                ) == delta_base(acked) && delta.items@ == items@,
            }
        };
    assert(builds(before, snapshot, player, now, effects@, pack, built, *final(s)));
}

} // verus!
