//! How the ids of players and entities carry over from one snapshot that is
//! built to the next.
use crate::legacy::objects::{SnapItem, SnapObj};
use crate::legacy::picture::{is_shown, lemma_in_roster, lemma_shown};
use crate::legacy::slots::{
    entity_ids_survive_a_build, has_object, lemma_assigned, lemma_free_object, lemma_free_slot,
    lemma_kept, lemma_kept_objects, lemma_object_index, objects_valid, slots_valid,
};
use crate::legacy::snapshot::{
    answers, assigned, effect_items, entity_steps, flag_item, flying_entities, free_object_slot,
    free_player_slot, game_items, is_recent, keeps_player, kept_objects, kept_players, kept_seen,
    item_steps, laser_entities, object_index, object_seen, object_slot_used, packs, placed,
    player_items, players_after, players_kept, roster_of, stage_ids, stage_shown, stage_steps,
    steps_fit, steps_of, steps_taken, Entity, ObjectSlot, SnapshotError, Snapshots, Step,
    MAX_PLAYERS,
};
use crate::legacy::world::{Snapshot, Stage};
use vstd::prelude::*;
use vstd::set_lib::{lemma_int_range, set_int_range};

verus! {

/// The player is in the snapshot, with a character or without one.
pub open spec fn is_in(snapshot: Snapshot, id: u64) -> bool {
    ||| exists|i: int, j: int|
        #![trigger snapshot.stages@[i].characters@[j]]
        0 <= i < snapshot.stages@.len() && 0 <= j < snapshot.stages@[i].characters@.len()
            && snapshot.stages@[i].characters@[j].id == id
    ||| exists|k: int|
        0 <= k < snapshot.spectators@.len() && (#[trigger] snapshot.spectators@[k]).id == id
}

/// The player was seen within the last three seconds, at 50 ticks a second.
pub open spec fn seen_lately(s: Snapshots, id: u64) -> bool {
    s.player_seen@.contains_key(id) && s.latest_tick - s.player_seen@[id] < 150
}

proof fn lemma_stage_ids(stages: Seq<Stage>, id: u64)
    requires
        stage_ids(stages).contains(id),
    ensures
        exists|i: int, j: int|
            #![trigger stages[i].characters@[j]]
            0 <= i < stages.len() && 0 <= j < stages[i].characters@.len()
                && stages[i].characters@[j].id == id,
    decreases stages.len(),
{
    let all = stage_ids(stages);
    let k = choose|k: int| 0 <= k < all.len() && all[k] == id;
    if stages.len() > 0 {
        let head = stages.drop_last();
        let last = stages.last();
        let before = stage_ids(head);
        if k < before.len() {
            assert(before[k] == id);
            lemma_stage_ids(head, id);
            let (i, j) = choose|i: int, j: int|
                #![trigger head[i].characters@[j]]
                0 <= i < head.len() && 0 <= j < head[i].characters@.len()
                    && head[i].characters@[j].id == id;
            assert(stages[i].characters@[j].id == id);
        } else {
            let j = k - before.len();
            assert(stages[stages.len() - 1].characters@[j].id == id);
        }
    }
}

proof fn lemma_is_in(snapshot: Snapshot, id: u64)
    ensures
        roster_of(snapshot).contains(id) <==> is_in(snapshot, id),
{
    lemma_in_roster(snapshot);
    let ids = roster_of(snapshot);
    let head = stage_ids(snapshot.stages@);
    if ids.contains(id) {
        let k = choose|k: int| 0 <= k < ids.len() && ids[k] == id;
        if k < head.len() {
            assert(head[k] == id);
            lemma_stage_ids(snapshot.stages@, id);
            let (i, j) = choose|i: int, j: int|
                #![trigger snapshot.stages@[i].characters@[j]]
                0 <= i < snapshot.stages@.len() && 0 <= j < snapshot.stages@[i].characters@.len()
                    && snapshot.stages@[i].characters@[j].id == id;
            assert(snapshot.stages@[i].characters@[j].id == id);
        } else {
            assert(snapshot.spectators@[k - head.len()].id == id);
        }
    }
}

/// The ids in turn are noted, and the slots that are given are the lowest.
proof fn lemma_noted(players: Map<u64, u16>, seen: Map<u64, u64>, tick: u64, ids: Seq<u64>)
    requires
        slots_valid(players),
    ensures
        ({
            let (after, noted, fit) = assigned(players, seen, tick, ids);
            &&& forall|id: u64| #[trigger]
                noted.contains_key(id) && !ids.contains(id) ==> seen.contains_key(id) && noted[id]
                    == seen[id]
            &&& forall|id: u64|
                seen.contains_key(id) ==> #[trigger] noted.contains_key(id) && (noted[id]
                    == seen[id] || noted[id] == tick)
            &&& fit ==> forall|k: int|
                0 <= k < ids.len() ==> noted.contains_key(#[trigger] ids[k]) && noted[ids[k]]
                    == tick
            &&& forall|id: u64, t: u16|
                after.contains_key(id) && !players.contains_key(id) && t < after[id]
                    ==> #[trigger] has_slot(after, id, t)
        }),
    decreases ids.len(),
{
    let (after, noted, fit) = assigned(players, seen, tick, ids);
    lemma_assigned(players, seen, tick, ids);
    if ids.len() > 0 {
        let id = ids[0];
        let seen2 = seen.insert(id, tick);
        let rest = ids.drop_first();
        lemma_free_slot(players, 0, MAX_PLAYERS as int);
        let next = if players.contains_key(id) {
            players
        } else {
            match free_player_slot(players, 0, MAX_PLAYERS as int) {
                Some(slot) => players.insert(id, slot),
                None => players,
            }
        };
        assert forall|k: u64| #[trigger] ids.contains(k) <==> k == id || rest.contains(k) by {
            if ids.contains(k) && k != id {
                let m = choose|m: int| 0 <= m < ids.len() && ids[m] == k;
                assert(rest[m - 1] == k);
            }
            if rest.contains(k) {
                let m = choose|m: int| 0 <= m < rest.len() && rest[m] == k;
                assert(ids[m + 1] == k);
            }
            if k == id {
                assert(ids[0] == k);
            }
        }
        if players.contains_key(id) || free_player_slot(players, 0, MAX_PLAYERS as int) is Some {
            assert(slots_valid(next)) by {
                if !players.contains_key(id) {
                    let slot = next[id];
                    assert forall|j: u64, k: u64| #[trigger]
                        next.contains_key(j) && #[trigger] next.contains_key(k) && j
                            != k implies next[j] != next[k] by {
                        if j == id {
                            assert(players.contains_key(k));
                            assert(players.contains_value(players[k]));
                        } else if k == id {
                            assert(players.contains_key(j));
                            assert(players.contains_value(players[j]));
                        }
                    }
                }
            }
            lemma_noted(next, seen2, tick, rest);
            lemma_assigned(next, seen2, tick, rest);
            assert forall|k: u64| #[trigger]
                noted.contains_key(k) && !ids.contains(k) implies seen.contains_key(k) && noted[k]
                == seen[k] by {
                assert(!rest.contains(k));
            }
            assert forall|k: u64| seen.contains_key(k) implies #[trigger] noted.contains_key(k)
                && (noted[k] == seen[k] || noted[k] == tick) by {
                assert(seen2.contains_key(k));
            }
            if fit {
                assert forall|k: int| 0 <= k < ids.len() implies noted.contains_key(
                    #[trigger] ids[k],
                ) && noted[ids[k]] == tick by {
                    if k > 0 {
                        assert(rest[k - 1] == ids[k]);
                    } else if !rest.contains(id) {
                        assert(seen2.contains_key(id));
                        assert(noted.contains_key(id));
                    } else {
                        let m = choose|m: int| 0 <= m < rest.len() && rest[m] == id;
                        assert(noted.contains_key(rest[m]));
                    }
                }
            }
            assert forall|k: u64, t: u16|
                after.contains_key(k) && !players.contains_key(k) && t
                    < after[k] implies #[trigger] has_slot(after, k, t) by {
                if k == id && !players.contains_key(id) {
                    assert(next.contains_key(id));
                    assert(after[id] == next[id]);
                    assert(players.contains_value(t));
                    let m = choose|m: u64| #[trigger] players.contains_key(m) && players[m] == t;
                    assert(next.contains_key(m));
                    assert(after.contains_key(m) && after[m] == t);
                } else {
                    assert(!next.contains_key(k));
                }
            }
        }
    }
}

/// Somebody has slot `t`.
pub open spec fn has_slot(players: Map<u64, u16>, id: u64, t: u16) -> bool {
    exists|m: u64| #[trigger] players.contains_key(m) && players[m] == t
}

proof fn lemma_kept_set(players: Map<u64, u16>, seen: Map<u64, u64>, local: u64, tick: u64, id: u64)
    ensures
        id != local ==> (players_kept(players, seen, local, tick).contains_key(id)
            <==> players.contains_key(id) && keeps_player(seen, local, tick, id)),
{
}

/// However a build ends, a player that was seen lately, and the client's own
/// player, keep their slots.
pub proof fn players_keep_their_slots<P: Fn(&Vec<SnapItem>) -> bool>(
    s: &mut Snapshots,
    snapshot: Snapshot,
    local: u64,
    tick: i32,
    effects: Vec<SnapObj>,
    pack: P,
    r: Result<Vec<SnapItem>, SnapshotError>,
    id: u64,
)
    requires
        call_ensures(
            Snapshots::build::<P>,
            (s, &snapshot, local, tick, &effects, pack),
            r,
        ),
        slots_valid(old(s).players@),
        old(s).players@.contains_key(id),
        id == local || seen_lately(*old(s), id),
    ensures
        final(s).players@.contains_key(id),
        final(s).players@[id] == old(s).players@[id],
{
    let players = old(s).players@;
    let seen = old(s).player_seen@;
    let at = old(s).latest_tick;
    lemma_kept(players, seen, local, at);
    assert(keeps_player(seen, local, at, id));
    lemma_assigned(
        players_kept(players, seen, local, at),
        kept_seen(seen, kept_players(players, seen, local, at)),
        at,
        roster_of(snapshot),
    );
}

/// A player that is neither in the snapshot nor was seen lately loses its
/// slot, unless it is the client's own.
pub proof fn unseen_players_lose_their_slots<P: Fn(&Vec<SnapItem>) -> bool>(
    s: &mut Snapshots,
    snapshot: Snapshot,
    local: u64,
    tick: i32,
    effects: Vec<SnapObj>,
    pack: P,
    r: Result<Vec<SnapItem>, SnapshotError>,
    id: u64,
)
    requires
        call_ensures(
            Snapshots::build::<P>,
            (s, &snapshot, local, tick, &effects, pack),
            r,
        ),
        slots_valid(old(s).players@),
        id != local,
        !seen_lately(*old(s), id),
        !is_in(snapshot, id),
    ensures
        !final(s).players@.contains_key(id),
{
    let players = old(s).players@;
    let seen = old(s).player_seen@;
    let at = old(s).latest_tick;
    lemma_kept(players, seen, local, at);
    lemma_is_in(snapshot, id);
    lemma_kept_set(players, seen, local, at, id);
    lemma_assigned(
        players_kept(players, seen, local, at),
        kept_seen(seen, kept_players(players, seen, local, at)),
        at,
        roster_of(snapshot),
    );
}

/// After a build that succeeded, every player of the snapshot has a slot of
/// its own below 64, and was seen at the latest tick.
pub proof fn players_of_the_snapshot_have_slots<P: Fn(&Vec<SnapItem>) -> bool>(
    s: &mut Snapshots,
    snapshot: Snapshot,
    local: u64,
    tick: i32,
    effects: Vec<SnapObj>,
    pack: P,
    r: Result<Vec<SnapItem>, SnapshotError>,
    id: u64,
    other: u64,
)
    requires
        call_ensures(
            Snapshots::build::<P>,
            (s, &snapshot, local, tick, &effects, pack),
            r,
        ),
        slots_valid(old(s).players@),
        r is Ok,
        is_in(snapshot, id),
    ensures
        final(s).players@.contains_key(id),
        final(s).players@[id] < 64,
        final(s).players@.contains_key(other) && other != id ==> final(s).players@[other]
            != final(s).players@[id],
        final(s).player_seen@.contains_key(id),
        final(s).player_seen@[id] == old(s).latest_tick,
{
    let players = old(s).players@;
    let seen = old(s).player_seen@;
    let at = old(s).latest_tick;
    let start = players_kept(players, seen, local, at);
    let noted = kept_seen(seen, kept_players(players, seen, local, at));
    let ids = roster_of(snapshot);
    lemma_kept(players, seen, local, at);
    lemma_is_in(snapshot, id);
    lemma_assigned(start, noted, at, ids);
    lemma_noted(start, noted, at, ids);
    assert(players_after(players, seen, at, snapshot, local).2);
    assert(final(s).players@.dom().contains(id));
    let k = choose|k: int| 0 <= k < ids.len() && ids[k] == id;
    assert(final(s).player_seen@.contains_key(ids[k]));
}

/// A player that had no slot gets the lowest that is free: every lower one
/// belongs to somebody.
pub proof fn new_players_get_the_lowest_slot<P: Fn(&Vec<SnapItem>) -> bool>(
    s: &mut Snapshots,
    snapshot: Snapshot,
    local: u64,
    tick: i32,
    effects: Vec<SnapObj>,
    pack: P,
    r: Result<Vec<SnapItem>, SnapshotError>,
    id: u64,
    t: u16,
)
    requires
        call_ensures(
            Snapshots::build::<P>,
            (s, &snapshot, local, tick, &effects, pack),
            r,
        ),
        slots_valid(old(s).players@),
        !old(s).players@.contains_key(id),
        final(s).players@.contains_key(id),
        t < final(s).players@[id],
    ensures
        exists|m: u64| #[trigger] final(s).players@.contains_key(m) && final(s).players@[m] == t,
{
    let players = old(s).players@;
    let seen = old(s).player_seen@;
    let at = old(s).latest_tick;
    let start = players_kept(players, seen, local, at);
    let noted = kept_seen(seen, kept_players(players, seen, local, at));
    lemma_kept(players, seen, local, at);
    lemma_noted(start, noted, at, roster_of(snapshot));
    lemma_assigned(start, noted, at, roster_of(snapshot));
    if start.contains_key(id) {
        assert(start[id] == 0);
        assert(final(s).players@[id] == 0);
    }
    assert(has_slot(final(s).players@, id, t));
}

/// The client's own player comes first: the first build gives it slot zero.
pub proof fn own_player_gets_slot_zero<P: Fn(&Vec<SnapItem>) -> bool>(
    s: &mut Snapshots,
    snapshot: Snapshot,
    local: u64,
    tick: i32,
    effects: Vec<SnapObj>,
    pack: P,
    r: Result<Vec<SnapItem>, SnapshotError>,
)
    requires
        call_ensures(
            Snapshots::build::<P>,
            (s, &snapshot, local, tick, &effects, pack),
            r,
        ),
        slots_valid(old(s).players@),
        old(s).players@.dom() == Set::<u64>::empty(),
    ensures
        final(s).players@.contains_key(local),
        final(s).players@[local] == 0,
{
    let players = old(s).players@;
    let seen = old(s).player_seen@;
    let at = old(s).latest_tick;
    lemma_kept(players, seen, local, at);
    let kept = kept_players(players, seen, local, at);
    assert(kept.dom() =~= Set::<u64>::empty());
    let start = players_kept(players, seen, local, at);
    assert(start.contains_key(local) && start[local] == 0);
    lemma_assigned(start, kept_seen(seen, kept), at, roster_of(snapshot));
}

/// The player has a slot and keeps it.
pub open spec fn keeps_slot(s: Snapshots, local: u64, id: u64) -> bool {
    s.players@.contains_key(id) && (id == local || seen_lately(s, id))
}

/// A build fails for its players exactly if those of the snapshot and those
/// that keep a slot are more than 64. If nobody keeps one, the client's own
/// player has one.
pub proof fn builds_fail_beyond_the_player_limit<P: Fn(&Vec<SnapItem>) -> bool>(
    s: &mut Snapshots,
    snapshot: Snapshot,
    local: u64,
    tick: i32,
    effects: Vec<SnapObj>,
    pack: P,
    r: Result<Vec<SnapItem>, SnapshotError>,
    wanted: Set<u64>,
)
    requires
        call_ensures(
            Snapshots::build::<P>,
            (s, &snapshot, local, tick, &effects, pack),
            r,
        ),
        slots_valid(old(s).players@),
        forall|id: u64| #[trigger]
            wanted.contains(id) <==> is_in(snapshot, id) || keeps_slot(*old(s), local, id) || (id
                == local && forall|k: u64| !(#[trigger] keeps_slot(*old(s), local, k))),
    ensures
        wanted.len() > 64 <==> r == Err::<Vec<SnapItem>, SnapshotError>(
            SnapshotError::TooManyPlayers,
        ),
{
    let players = old(s).players@;
    let seen = old(s).player_seen@;
    let at = old(s).latest_tick;
    let start = players_kept(players, seen, local, at);
    let kept = kept_players(players, seen, local, at);
    lemma_kept(players, seen, local, at);
    lemma_assigned(start, kept_seen(seen, kept), at, roster_of(snapshot));
    assert(kept.dom().subset_of(players.dom()));
    vstd::set_lib::lemma_set_subset_finite(players.dom(), kept.dom());
    assert forall|id: u64| kept.contains_key(id) <==> #[trigger] keeps_slot(
        *old(s),
        local,
        id,
    ) by {}
    assert(kept.len() == 0 <==> forall|k: u64| !(#[trigger] keeps_slot(*old(s), local, k))) by {
        if kept.dom().len() == 0 {
            assert(kept.dom() =~= Set::<u64>::empty());
            assert forall|k: u64| !(#[trigger] keeps_slot(*old(s), local, k)) by {
                assert(!kept.dom().contains(k));
            }
        } else {
            let some = kept.dom().choose();
            assert(kept.dom().contains(some)) by {
                if kept.dom() =~= Set::<u64>::empty() {
                    assert(kept.dom().len() == 0);
                }
            }
            assert(keeps_slot(*old(s), local, some));
        }
    }
    assert(wanted =~= start.dom().union(roster_of(snapshot).to_set())) by {
        assert forall|id: u64| wanted.contains(id) <==> start.dom().union(
            roster_of(snapshot).to_set(),
        ).contains(id) by {
            lemma_is_in(snapshot, id);
        }
    }
}

/// An entity that was seen within the last three seconds keeps its id,
/// however a build ends. Different entities have different ids afterwards.
pub proof fn entities_keep_their_ids<P: Fn(&Vec<SnapItem>) -> bool>(
    s: &mut Snapshots,
    snapshot: Snapshot,
    local: u64,
    tick: i32,
    effects: Vec<SnapObj>,
    pack: P,
    r: Result<Vec<SnapItem>, SnapshotError>,
    i: int,
    a: int,
    b: int,
)
    requires
        call_ensures(
            Snapshots::build::<P>,
            (s, &snapshot, local, tick, &effects, pack),
            r,
        ),
        objects_valid(old(s).objects@),
        0 <= i < old(s).objects@.len(),
        old(s).latest_tick - old(s).objects@[i].seen < 150,
    ensures
        exists|k: int|
            {
                &&& 0 <= k < final(s).objects@.len()
                &&& (#[trigger] final(s).objects@[k]).kind == old(s).objects@[i].kind
                &&& final(s).objects@[k].id == old(s).objects@[i].id
                &&& final(s).objects@[k].slot == old(s).objects@[i].slot
            },
        0 <= a < b < final(s).objects@.len() ==> final(s).objects@[a].slot
            != final(s).objects@[b].slot && (final(s).objects@[a].kind != final(s).objects@[b].kind
            || final(s).objects@[a].id != final(s).objects@[b].id),
{
    entity_ids_survive_a_build(
        *old(s),
        snapshot,
        local,
        tick,
        effects@,
        pack,
        r,
        *final(s),
    );
    assert(has_object(
        final(s).objects@,
        old(s).objects@[i].kind,
        old(s).objects@[i].id,
        old(s).objects@[i].slot,
    ));
}

/// The entity is in the table and was seen at the tick.
spec fn is_noted(objects: Seq<ObjectSlot>, tick: u64, kind: u8, id: u64) -> bool {
    exists|k: int|
        0 <= k < objects.len() && (#[trigger] objects[k]).kind == kind && objects[k].id == id
            && objects[k].seen == tick
}

/// The entity is to be placed.
spec fn is_among(todo: Seq<Entity>, kind: u8, id: u64) -> bool {
    exists|q: int| 0 <= q < todo.len() && (#[trigger] todo[q]).kind == kind && todo[q].id == id
}

proof fn lemma_noted_entities(objects: Seq<ObjectSlot>, tick: u64, todo: Seq<Entity>)
    ensures
        ({
            let (last, items) = placed(objects, tick, todo);
            &&& forall|k: int|
                0 <= k < last.len() ==> objects.contains(#[trigger] last[k]) || (last[k].seen == tick
                    && is_among(todo, last[k].kind, last[k].id))
            &&& forall|kind: u8, id: u64|
                is_noted(objects, tick, kind, id) ==> #[trigger] is_noted(last, tick, kind, id)
            &&& items is Some ==> forall|q: int|
                0 <= q < todo.len() ==> is_noted(
                    last,
                    tick,
                    (#[trigger] todo[q]).kind,
                    todo[q].id,
                )
        }),
    decreases todo.len(),
{
    if todo.len() == 0 {
        assert forall|k: int| 0 <= k < objects.len() implies objects.contains(
            #[trigger] objects[k],
        ) by {}
    } else {
        let e = todo[0];
        lemma_object_index(objects, e.kind, e.id);
        match object_seen(objects, tick, e.kind, e.id) {
            None => {
                assert forall|k: int| 0 <= k < objects.len() implies objects.contains(
                    #[trigger] objects[k],
                ) by {}
            },
            Some((next, slot)) => {
                let rest = todo.drop_first();
                lemma_noted_entities(next, tick, rest);
                let (last, items) = placed(next, tick, rest);
                let at = object_index(objects, e.kind, e.id);
                assert(next[at].kind == e.kind && next[at].id == e.id && next[at].seen == tick);
                assert(is_noted(next, tick, e.kind, e.id));
                assert forall|k: int| 0 <= k < last.len() implies objects.contains(
                    #[trigger] last[k],
                ) || (last[k].seen == tick && is_among(todo, last[k].kind, last[k].id)) by {
                    if next.contains(last[k]) {
                        let m = choose|m: int| 0 <= m < next.len() && next[m] == last[k];
                        if m != at {
                            assert(objects[m] == last[k]);
                        } else {
                            assert(todo[0].kind == last[k].kind && todo[0].id == last[k].id);
                        }
                    } else {
                        let q = choose|q: int|
                            0 <= q < rest.len() && (#[trigger] rest[q]).kind == last[k].kind
                                && rest[q].id == last[k].id;
                        assert(todo[q + 1] == rest[q]);
                    }
                }
                assert forall|kind: u8, id: u64|
                    is_noted(objects, tick, kind, id) implies #[trigger] is_noted(
                    last,
                    tick,
                    kind,
                    id,
                ) by {
                    let m = choose|m: int|
                        0 <= m < objects.len() && (#[trigger] objects[m]).kind == kind
                            && objects[m].id == id && objects[m].seen == tick;
                    assert(next[m].kind == kind && next[m].id == id && next[m].seen == tick);
                    assert(is_noted(next, tick, kind, id));
                }
                if items is Some {
                    assert forall|q: int| 0 <= q < todo.len() implies is_noted(
                        last,
                        tick,
                        (#[trigger] todo[q]).kind,
                        todo[q].id,
                    ) by {
                        if q > 0 {
                            assert(rest[q - 1] == todo[q]);
                        }
                    }
                }
            },
        }
    }
}

/// The stage has an entity of this kind and id: a projectile, a laser, a race
/// projectile or a pickup.
pub open spec fn has_entity(stage: Stage, kind: u8, id: u64) -> bool {
    ||| kind == 1 && exists|k: int|
        0 <= k < stage.projectiles@.len() && (#[trigger] stage.projectiles@[k]).id == id
    ||| kind == 2 && exists|k: int|
        0 <= k < stage.lasers@.len() && (#[trigger] stage.lasers@[k]).id == id
    ||| kind == 3 && exists|k: int|
        0 <= k < stage.race_projectiles@.len() && (#[trigger] stage.race_projectiles@[k]).id == id
    ||| kind == 4 && exists|k: int|
        0 <= k < stage.pickups@.len() && (#[trigger] stage.pickups@[k]).id == id
}

proof fn lemma_has_entity(stage: Stage, tick: i32, kind: u8, id: u64)
    requires
        is_among(flying_entities(stage, tick), kind, id) || is_among(
            laser_entities(stage, tick),
            kind,
            id,
        ),
    ensures
        has_entity(stage, kind, id),
{
    let flying = flying_entities(stage, tick);
    let lasers = laser_entities(stage, tick);
    let a = stage.projectiles@.len() as int;
    let b = a + stage.race_projectiles@.len();
    if is_among(flying, kind, id) {
        let q = choose|q: int|
            0 <= q < flying.len() && (#[trigger] flying[q]).kind == kind && flying[q].id == id;
        if q < a {
            assert(stage.projectiles@[q].id == id);
        } else if q < b {
            assert(stage.race_projectiles@[q - a].id == id);
        } else {
            assert(stage.pickups@[q - b].id == id);
        }
    } else {
        let q = choose|q: int|
            0 <= q < lasers.len() && (#[trigger] lasers[q]).kind == kind && lasers[q].id == id;
        assert(stage.lasers@[q].id == id);
    }
}

/// After a build that succeeded, the table holds an entity only as long as
/// needed: it is on the stage that was shown just now, or is as it was before
/// and was seen within the last three seconds.
pub proof fn unseen_entities_lose_their_ids<P: Fn(&Vec<SnapItem>) -> bool>(
    s: &mut Snapshots,
    snapshot: Snapshot,
    local: u64,
    tick: i32,
    effects: Vec<SnapObj>,
    pack: P,
    items: Vec<SnapItem>,
    shown: int,
    k: int,
)
    requires
        call_ensures(
            Snapshots::build::<P>,
            (s, &snapshot, local, tick, &effects, pack),
            Ok::<Vec<SnapItem>, SnapshotError>(items),
        ),
        objects_valid(old(s).objects@),
        is_shown(snapshot, local, shown),
        0 <= k < final(s).objects@.len(),
    ensures
        ({
            let o = final(s).objects@[k];
            ||| o.seen == old(s).latest_tick && has_entity(snapshot.stages@[shown], o.kind, o.id)
            ||| old(s).objects@.contains(o) && old(s).latest_tick - o.seen < 150
        }),
{
    let at = old(s).latest_tick;
    let kept = kept_objects(old(s).objects@, at);
    lemma_kept_objects(old(s).objects@, at);
    lemma_shown(snapshot, local, shown);
    let stage = snapshot.stages@[shown];
    let last = final(s).objects@;
    let flying = flying_entities(stage, tick);
    let lasers = laser_entities(stage, tick);
    lemma_noted_entities(kept, at, flying);
    let next = placed(kept, at, flying).0;
    lemma_noted_entities(next, at, lasers);
    let o = last[k];
    if next.contains(o) {
        let m = choose|m: int| 0 <= m < next.len() && next[m] == o;
        if kept.contains(next[m]) {
            let j = choose|j: int| 0 <= j < kept.len() && kept[j] == o;
            let keep = |o: ObjectSlot| is_recent(at, o.seen);
            old(s).objects@.filter_lemma(keep);
            assert(old(s).objects@.contains(kept[j]));
            assert(keep(kept[j]));
        } else {
            lemma_has_entity(stage, tick, o.kind, o.id);
        }
    } else {
        lemma_has_entity(stage, tick, o.kind, o.id);
    }
}

/// Every entity of the stage that is shown is noted as seen, so that its id
/// stays.
pub proof fn shown_entities_are_noted<P: Fn(&Vec<SnapItem>) -> bool>(
    s: &mut Snapshots,
    snapshot: Snapshot,
    local: u64,
    tick: i32,
    effects: Vec<SnapObj>,
    pack: P,
    items: Vec<SnapItem>,
    shown: int,
    kind: u8,
    id: u64,
)
    requires
        call_ensures(
            Snapshots::build::<P>,
            (s, &snapshot, local, tick, &effects, pack),
            Ok::<Vec<SnapItem>, SnapshotError>(items),
        ),
        is_shown(snapshot, local, shown),
        has_entity(snapshot.stages@[shown], kind, id),
    ensures
        exists|k: int|
            {
                &&& 0 <= k < final(s).objects@.len()
                &&& (#[trigger] final(s).objects@[k]).kind == kind
                &&& final(s).objects@[k].id == id
                &&& final(s).objects@[k].seen == old(s).latest_tick
            },
{
    let at = old(s).latest_tick;
    let stage = snapshot.stages@[shown];
    lemma_shown(snapshot, local, shown);
    let kept = kept_objects(old(s).objects@, at);
    let flying = flying_entities(stage, tick);
    let lasers = laser_entities(stage, tick);
    lemma_noted_entities(kept, at, flying);
    let next = placed(kept, at, flying).0;
    lemma_noted_entities(next, at, lasers);
    let a = stage.projectiles@.len();
    let b = a + stage.race_projectiles@.len();
    if kind == 1 {
        let k = choose|k: int|
            0 <= k < stage.projectiles@.len() && (#[trigger] stage.projectiles@[k]).id == id;
        assert(flying[k].kind == kind && flying[k].id == id);
        assert(is_noted(next, at, kind, id));
    } else if kind == 2 {
        let k = choose|k: int|
            0 <= k < stage.lasers@.len() && (#[trigger] stage.lasers@[k]).id == id;
        assert(lasers[k].kind == kind && lasers[k].id == id);
    } else if kind == 3 {
        let k = choose|k: int|
            0 <= k < stage.race_projectiles@.len() && (#[trigger] stage.race_projectiles@[k]).id
                == id;
        assert(flying[a + k].kind == kind && flying[a + k].id == id);
        assert(is_noted(next, at, kind, id));
    } else {
        let k = choose|k: int|
            0 <= k < stage.pickups@.len() && (#[trigger] stage.pickups@[k]).id == id;
        assert(flying[b + k].kind == kind && flying[b + k].id == id);
        assert(is_noted(next, at, kind, id));
    }
    assert(is_noted(final(s).objects@, at, kind, id));
}

/// The entities among the first `n` steps.
spec fn places(steps: Seq<Step>) -> nat
    decreases steps.len(),
{
    if steps.len() == 0 {
        0
    } else {
        places(steps.drop_last()) + if steps.last() is Place {
            1nat
        } else {
            0
        }
    }
}

proof fn lemma_places_add(a: Seq<Step>, b: Seq<Step>)
    ensures
        places(a + b) == places(a) + places(b),
    decreases b.len(),
{
    if b.len() == 0 {
        assert(a + b =~= a);
    } else {
        assert((a + b).drop_last() =~= a + b.drop_last());
        lemma_places_add(a, b.drop_last());
    }
}

proof fn lemma_no_places(steps: Seq<Step>)
    requires
        forall|i: int| 0 <= i < steps.len() ==> (#[trigger] steps[i]) is Item,
    ensures
        places(steps) == 0,
    decreases steps.len(),
{
    if steps.len() > 0 {
        assert(steps[steps.len() - 1] is Item);
        assert forall|i: int| 0 <= i < steps.drop_last().len() implies (
        #[trigger] steps.drop_last()[i]) is Item by {
            assert(steps[i] is Item);
        }
        lemma_no_places(steps.drop_last());
    }
}

proof fn lemma_places_len(steps: Seq<Step>)
    ensures
        places(steps) <= steps.len(),
    decreases steps.len(),
{
    if steps.len() > 0 {
        lemma_places_len(steps.drop_last());
    }
}

proof fn lemma_ids_run_out(objects: Seq<ObjectSlot>)
    requires
        free_object_slot(objects, 0) is None,
    ensures
        objects.len() >= u16::MAX,
{
    lemma_free_object(objects, 0);
    let all = set_int_range(0, u16::MAX as int);
    lemma_int_range(0, u16::MAX as int);
    let slots = objects.map_values(|o: ObjectSlot| o.slot as int);
    assert(all.subset_of(slots.to_set())) by {
        assert forall|t: int| all.contains(t) implies slots.to_set().contains(t) by {
            assert(object_slot_used(objects, t as u16));
            let i = choose|i: int|
                0 <= i < objects.len() && (#[trigger] objects[i]).slot == t as u16;
            assert(slots[i] == t);
        }
    }
    slots.lemma_cardinality_of_set();
    vstd::set_lib::lemma_len_subset(all, slots.to_set());
}

proof fn lemma_table_grows(objects: Seq<ObjectSlot>, seen: u64, steps: Seq<Step>)
    ensures
        ({
            let (table, items) = steps_taken(objects, seen, steps);
            &&& table.len() <= objects.len() + places(steps)
            &&& items is None ==> objects.len() + places(steps) > u16::MAX
        }),
    decreases steps.len(),
{
    if steps.len() > 0 {
        let head = steps.drop_last();
        lemma_table_grows(objects, seen, head);
        let (table, items) = steps_taken(objects, seen, head);
        if items is Some {
            if let Step::Place(e) = steps.last() {
                lemma_object_index(table, e.kind, e.id);
                if object_seen(table, seen, e.kind, e.id) is None {
                    lemma_ids_run_out(table);
                }
            }
        }
    }
}

proof fn lemma_places_of_the_stage(items: Seq<SnapItem>, stage: Stage, tick: i32, more: Seq<SnapItem>)
    ensures
        places(item_steps(items) + stage_steps(Some(stage), tick) + item_steps(more))
            <= stage.projectiles@.len() + stage.race_projectiles@.len() + stage.pickups@.len()
            + stage.lasers@.len(),
{
    let flying = entity_steps(flying_entities(stage, tick));
    let flags = item_steps(flag_item(stage.red_flags@, 0) + flag_item(stage.blue_flags@, 1));
    let lasers = entity_steps(laser_entities(stage, tick));
    lemma_places_add(item_steps(items) + stage_steps(Some(stage), tick), item_steps(more));
    lemma_places_add(item_steps(items), stage_steps(Some(stage), tick));
    lemma_places_add(flying + flags, lasers);
    lemma_places_add(flying, flags);
    lemma_no_places(item_steps(items));
    lemma_no_places(item_steps(more));
    lemma_no_places(flags);
    lemma_places_len(flying);
    lemma_places_len(lasers);
}

/// A build whose players have slots and whose entities find ids can only fail
/// because the items do not fit: if they always do, it succeeds.
pub proof fn builds_succeed_while_everything_fits<P: Fn(&Vec<SnapItem>) -> bool>(
    s: &mut Snapshots,
    snapshot: Snapshot,
    local: u64,
    tick: i32,
    effects: Vec<SnapObj>,
    pack: P,
    r: Result<Vec<SnapItem>, SnapshotError>,
    shown: int,
)
    requires
        call_ensures(
            Snapshots::build::<P>,
            (s, &snapshot, local, tick, &effects, pack),
            r,
        ),
        objects_valid(old(s).objects@),
        is_shown(snapshot, local, shown),
    ensures
        r matches Err(e) ==> e == SnapshotError::TooManyPlayers || e
            == SnapshotError::EntityIdsExhausted || e == SnapshotError::DoesNotFit,
        r == Err::<Vec<SnapItem>, SnapshotError>(SnapshotError::EntityIdsExhausted) ==> {
            let stage = snapshot.stages@[shown];
            old(s).objects@.len() + stage.projectiles@.len() + stage.race_projectiles@.len()
                + stage.pickups@.len() + stage.lasers@.len() > u16::MAX
        },
        r == Err::<Vec<SnapItem>, SnapshotError>(SnapshotError::DoesNotFit) ==> exists|
            list: Vec<SnapItem>,
        |
            #[trigger] pack.ensures((&list,), false),
        r is Ok ==> exists|list: Vec<SnapItem>|
            list@ == r->Ok_0@ && #[trigger] pack.ensures((&list,), true),
{
    let at = old(s).latest_tick;
    let stage = snapshot.stages@[shown];
    lemma_shown(snapshot, local, shown);
    let kept = kept_objects(old(s).objects@, at);
    let (players, _, fit) = players_after(
        old(s).players@,
        old(s).player_seen@,
        at,
        snapshot,
        local,
    );
    let keep = |o: ObjectSlot| is_recent(at, o.seen);
    old(s).objects@.filter_lemma(keep);
    assert(kept.len() <= old(s).objects@.len()) by {
        old(s).objects@.lemma_filter_len(keep);
    }
    if fit {
        let items = player_items(
            old(s).game_config,
            old(s).race,
            players,
            snapshot,
            local,
            tick,
        );
        let steps = steps_of(
            old(s).game_config,
            old(s).race,
            players,
            snapshot,
            local,
            tick,
            effects@,
        );
        assert(packs(pack, kept, at, steps, r, final(s).objects@));
        let n = choose|n: int|
            {
                &&& 0 <= n <= steps.len()
                &&& #[trigger] steps_fit(pack, kept, at, steps, n)
                &&& if n == steps.len() {
                    r matches Ok(out) && steps_taken(kept, at, steps) == (
                        final(s).objects@,
                        Some(out@),
                    )
                } else {
                    let (table, items) = steps_taken(kept, at, steps.take(n + 1));
                    &&& final(s).objects@ == table
                    &&& match items {
                        None => r == Err::<Vec<SnapItem>, SnapshotError>(
                            SnapshotError::EntityIdsExhausted,
                        ),
                        Some(items) => r == Err::<Vec<SnapItem>, SnapshotError>(
                            SnapshotError::DoesNotFit,
                        ) && answers(pack, items, false),
                    }
                }
            };
        lemma_places_of_the_stage(items, stage, tick, effect_items(effects@));
        if n < steps.len() {
            lemma_table_grows(kept, at, steps.take(n + 1));
            assert(steps =~= steps.take(n + 1) + steps.skip(n + 1));
            lemma_places_add(steps.take(n + 1), steps.skip(n + 1));
        } else {
            assert(steps.take(n) =~= steps);
            assert(steps.len() > 0) by {
                assert(items.len() > 0) by {
                    assert(game_items(
                        old(s).game_config,
                        old(s).race,
                        players,
                        stage_shown(snapshot, local),
                        tick,
                    ).len() > 0);
                }
                assert(item_steps(items).len() == items.len());
            }
            assert(steps_taken(kept, at, steps.take(n)).1 matches Some(all) && answers(
                pack,
                all,
                true,
            ));
        }
    }
}

/// A player that keeps its slot but is not in the snapshot was last seen when
/// it was.
pub proof fn absent_players_are_not_seen<P: Fn(&Vec<SnapItem>) -> bool>(
    s: &mut Snapshots,
    snapshot: Snapshot,
    local: u64,
    tick: i32,
    effects: Vec<SnapObj>,
    pack: P,
    r: Result<Vec<SnapItem>, SnapshotError>,
    id: u64,
)
    requires
        call_ensures(
            Snapshots::build::<P>,
            (s, &snapshot, local, tick, &effects, pack),
            r,
        ),
        slots_valid(old(s).players@),
        keeps_slot(*old(s), local, id),
        old(s).player_seen@.contains_key(id),
        !is_in(snapshot, id),
    ensures
        final(s).player_seen@.contains_key(id),
        final(s).player_seen@[id] == old(s).player_seen@[id],
{
    let players = old(s).players@;
    let seen = old(s).player_seen@;
    let at = old(s).latest_tick;
    let start = players_kept(players, seen, local, at);
    let kept = kept_players(players, seen, local, at);
    let noted = kept_seen(seen, kept);
    lemma_kept(players, seen, local, at);
    lemma_is_in(snapshot, id);
    assert(kept.contains_key(id));
    assert(noted.contains_key(id));
    lemma_noted(start, noted, at, roster_of(snapshot));
    assert(final(s).player_seen@.contains_key(id));
}

} // verus!
