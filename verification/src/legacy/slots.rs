//! What holds of the ids that players and entities are given.
use crate::legacy::decode::{accepts, Packed, MAX_BASES};
use crate::legacy::objects::{SnapItem, SnapObj};
use crate::legacy::snapshot::{
    assigned, builds, free_object_slot, free_player_slot, is_recent, keeps_player, kept_objects,
    kept_players, kept_seen, object_index, object_seen, object_slot_used, packs, placed,
    players_after, players_kept, roster_of, steps_fit, steps_of, steps_taken, Entity, ObjectSlot,
    SnapshotError, Snapshots, Step, MAX_PLAYERS,
};
use crate::legacy::world::Snapshot;
use crate::tables::newest;
use vstd::prelude::*;
use vstd::set_lib::set_int_range;

verus! {

/// Every player has a slot of its own, among those that the protocol has.
pub open spec fn slots_valid(players: Map<u64, u16>) -> bool {
    &&& players.dom().finite()
    &&& forall|k: u64| #[trigger] players.contains_key(k) ==> players[k] < MAX_PLAYERS
    &&& forall|j: u64, k: u64| #[trigger]
        players.contains_key(j) && #[trigger] players.contains_key(k) && j != k ==> players[j]
            != players[k]
}

/// The slot that is found is the lowest free one.
pub(crate) proof fn lemma_free_slot(players: Map<u64, u16>, from: int, limit: int)
    requires
        0 <= from <= limit <= u16::MAX,
    ensures
        match free_player_slot(players, from, limit) {
            Some(s) => from <= s < limit && !players.contains_value(s) && forall|t: u16|
                from <= t < s ==> #[trigger] players.contains_value(t),
            None => forall|t: u16| from <= t < limit ==> #[trigger] players.contains_value(t),
        },
    decreases limit - from,
{
    if from < limit && players.contains_value(from as u16) {
        lemma_free_slot(players, from + 1, limit);
    }
}

/// A slot is free exactly while fewer than 64 players are mapped.
proof fn lemma_slot_free(players: Map<u64, u16>)
    requires
        slots_valid(players),
    ensures
        players.len() <= MAX_PLAYERS,
        free_player_slot(players, 0, MAX_PLAYERS as int) is Some <==> players.len() < MAX_PLAYERS,
{
    let f = |k: u64| players[k] as int;
    let used = players.dom().map(f);
    let all = set_int_range(0, MAX_PLAYERS as int);
    vstd::set_lib::lemma_int_range(0, MAX_PLAYERS as int);
    assert(vstd::relations::injective_on(f, players.dom())) by {
        assert forall|j: u64, k: u64|
            players.dom().contains(j) && players.dom().contains(k) && #[trigger] f(j)
                == #[trigger] f(k) implies j == k by {
            assert(players.contains_key(j) && players.contains_key(k));
        }
    }
    vstd::set_lib::lemma_map_size(players.dom(), used, f);
    assert(used.subset_of(all));
    vstd::set_lib::lemma_len_subset(used, all);
    lemma_free_slot(players, 0, MAX_PLAYERS as int);
    match free_player_slot(players, 0, MAX_PLAYERS as int) {
        Some(s) => {
            assert(!used.contains(s as int)) by {
                if used.contains(s as int) {
                    let k = choose|k: u64| players.dom().contains(k) && f(k) == s as int;
                    assert(players.contains_value(s));
                }
            }
            assert(used.subset_of(all.remove(s as int)));
            vstd::set_lib::lemma_len_subset(used, all.remove(s as int));
        },
        None => {
            assert(all.subset_of(used)) by {
                assert forall|t: int| #[trigger] all.contains(t) implies used.contains(t) by {
                    assert(players.contains_value(t as u16));
                    let k = choose|k: u64| #[trigger]
                        players.dom().contains(k) && players[k] == t as u16;
                    assert(f(k) == t);
                }
            }
            vstd::set_lib::lemma_len_subset(all, used);
        },
    }
}

/// Mapping players keeps slots distinct, takes nobody's slot away, maps
/// nobody who was not named, and succeeds exactly if the players together are
/// at most 64.
pub(crate) proof fn lemma_assigned(players: Map<u64, u16>, seen: Map<u64, u64>, tick: u64, ids: Seq<u64>)
    requires
        slots_valid(players),
    ensures
        ({
            let (after, _, fit) = assigned(players, seen, tick, ids);
            &&& slots_valid(after)
            &&& forall|k: u64| #[trigger]
                players.contains_key(k) ==> after.contains_key(k) && after[k] == players[k]
            &&& forall|k: u64| #[trigger]
                after.contains_key(k) ==> players.contains_key(k) || ids.contains(k)
            &&& fit <==> players.dom().union(ids.to_set()).len() <= MAX_PLAYERS
            &&& fit ==> after.dom() == players.dom().union(ids.to_set())
        }),
    decreases ids.len(),
{
    let (after, _, fit) = assigned(players, seen, tick, ids);
    let wanted = players.dom().union(ids.to_set());
    lemma_slot_free(players);
    if ids.len() == 0 {
        assert(wanted =~= players.dom());
    } else {
        let id = ids[0];
        let rest = ids.drop_first();
        let seen2 = seen.insert(id, tick);
        assert(ids =~= seq![id] + rest);
        assert(ids.to_set() =~= rest.to_set().insert(id)) by {
            assert forall|k: u64| ids.contains(k) <==> (k == id || rest.contains(k)) by {
                if ids.contains(k) && k != id {
                    let i = choose|i: int| 0 <= i < ids.len() && ids[i] == k;
                    assert(rest[i - 1] == k);
                }
                if rest.contains(k) {
                    let i = choose|i: int| 0 <= i < rest.len() && rest[i] == k;
                    assert(ids[i + 1] == k);
                }
            }
        }
        if players.contains_key(id) {
            lemma_assigned(players, seen2, tick, rest);
            assert(wanted =~= players.dom().union(rest.to_set()));
        } else if let Some(slot) = free_player_slot(players, 0, MAX_PLAYERS as int) {
            lemma_free_slot(players, 0, MAX_PLAYERS as int);
            let next = players.insert(id, slot);
            assert forall|k: u64| #[trigger] players.contains_key(k) implies players[k]
                != slot by {
                if players[k] == slot {
                    assert(players.contains_value(slot));
                }
            }
            assert(slots_valid(next));
            lemma_assigned(next, seen2, tick, rest);
            assert(wanted =~= next.dom().union(rest.to_set()));
            assert forall|k: u64| #[trigger] players.contains_key(k) implies after.contains_key(k)
                && after[k] == players[k] by {
                assert(next.contains_key(k));
            }
        } else {
            assert(wanted.contains(id));
            vstd::set_lib::lemma_len_subset(players.dom().insert(id), wanted);
        }
        assert forall|k: u64| #[trigger] after.contains_key(k) implies players.contains_key(k)
            || ids.contains(k) by {
            if !players.contains_key(k) && k != id {
                assert(ids.to_set().contains(k) == rest.to_set().contains(k));
            }
            assert(ids[0] == id);
        }
    }
}

/// The players that stay mapped keep distinct slots, and there is always at
/// least one.
pub(crate) proof fn lemma_kept(players: Map<u64, u16>, seen: Map<u64, u64>, local: u64, tick: u64)
    requires
        slots_valid(players),
    ensures
        slots_valid(players_kept(players, seen, local, tick)),
        forall|k: u64|
            players.contains_key(k) && #[trigger] keeps_player(seen, local, tick, k)
                ==> players_kept(players, seen, local, tick).contains_key(k) && players_kept(
                players,
                seen,
                local,
                tick,
            )[k] == players[k],
{
    let kept = kept_players(players, seen, local, tick);
    assert(kept.dom().subset_of(players.dom()));
    vstd::set_lib::lemma_set_subset_finite(players.dom(), kept.dom());
    assert forall|j: u64, k: u64| #[trigger]
        kept.contains_key(j) && #[trigger] kept.contains_key(k) && j != k implies kept[j]
        != kept[k] by {
        assert(players.contains_key(j) && players.contains_key(k));
    }
    assert forall|k: u64| #[trigger] kept.contains_key(k) implies kept[k] < MAX_PLAYERS by {
        assert(players.contains_key(k));
    }
    if kept.len() == 0 {
        assert(kept.dom() =~= Set::empty());
        let first = kept.insert(local, 0);
        assert forall|k: u64| #[trigger] first.contains_key(k) implies k == local by {
            assert(!kept.dom().contains(k));
        }
        assert forall|k: u64|
            players.contains_key(k) && #[trigger] keeps_player(seen, local, tick, k) implies
            false by {
            assert(kept.dom().contains(k));
        }
    }
}

/// After a snapshot, players have distinct slots again.
pub proof fn slots_stay_distinct(
    players: Map<u64, u16>,
    seen: Map<u64, u64>,
    tick: u64,
    snapshot: Snapshot,
    local: u64,
)
    requires
        slots_valid(players),
    ensures
        slots_valid(players_after(players, seen, tick, snapshot, local).0),
{
    lemma_kept(players, seen, local, tick);
    lemma_assigned(
        players_kept(players, seen, local, tick),
        kept_seen(seen, kept_players(players, seen, local, tick)),
        tick,
        roster_of(snapshot),
    );
}

/// A player that was seen recently, and the local one, keep their slots.
pub proof fn slots_stay_stable(
    players: Map<u64, u16>,
    seen: Map<u64, u64>,
    tick: u64,
    snapshot: Snapshot,
    local: u64,
    id: u64,
)
    requires
        slots_valid(players),
        players.contains_key(id),
        id == local || (seen.contains_key(id) && is_recent(tick, seen[id])),
    ensures
        players_after(players, seen, tick, snapshot, local).0.contains_key(id),
        players_after(players, seen, tick, snapshot, local).0[id] == players[id],
{
    lemma_kept(players, seen, local, tick);
    assert(keeps_player(seen, local, tick, id));
    lemma_assigned(
        players_kept(players, seen, local, tick),
        kept_seen(seen, kept_players(players, seen, local, tick)),
        tick,
        roster_of(snapshot),
    );
}

/// The first snapshot gives the local player slot zero.
pub proof fn local_player_comes_first(
    seen: Map<u64, u64>,
    tick: u64,
    snapshot: Snapshot,
    local: u64,
)
    ensures
        players_after(Map::empty(), seen, tick, snapshot, local).0.contains_key(local),
        players_after(Map::empty(), seen, tick, snapshot, local).0[local] == 0,
{
    let none = Map::<u64, u16>::empty();
    lemma_kept(none, seen, local, tick);
    assert(kept_players(none, seen, local, tick) =~= none);
    let first = players_kept(none, seen, local, tick);
    assert(first.contains_key(local) && first[local] == 0);
    lemma_assigned(
        first,
        kept_seen(seen, kept_players(none, seen, local, tick)),
        tick,
        roster_of(snapshot),
    );
}

/// A snapshot's players fit exactly if, together with those that are still
/// remembered, they are at most 64. Then all of them are mapped.
pub proof fn players_fit_up_to_limit(
    players: Map<u64, u16>,
    seen: Map<u64, u64>,
    tick: u64,
    snapshot: Snapshot,
    local: u64,
)
    requires
        slots_valid(players),
    ensures
        ({
            let wanted = players_kept(players, seen, local, tick).dom().union(
                roster_of(snapshot).to_set(),
            );
            let (after, _, fit) = players_after(players, seen, tick, snapshot, local);
            &&& fit <==> wanted.len() <= MAX_PLAYERS
            &&& fit ==> after.dom() == wanted
        }),
{
    lemma_kept(players, seen, local, tick);
    lemma_assigned(
        players_kept(players, seen, local, tick),
        kept_seen(seen, kept_players(players, seen, local, tick)),
        tick,
        roster_of(snapshot),
    );
}

/// Every entity is in the table once and has an id of its own.
pub open spec fn objects_valid(objects: Seq<ObjectSlot>) -> bool {
    &&& forall|i: int| 0 <= i < objects.len() ==> (#[trigger] objects[i]).slot < u16::MAX
    &&& forall|i: int, j: int|
        0 <= i < j < objects.len() ==> (#[trigger] objects[i]).slot != (#[trigger] objects[j]).slot
    &&& forall|i: int, j: int|
        0 <= i < j < objects.len() ==> (#[trigger] objects[i]).kind != (#[trigger] objects[j]).kind
            || objects[i].id != objects[j].id
}

/// The entity is in the table with the id `slot`.
pub open spec fn has_object(objects: Seq<ObjectSlot>, kind: u8, id: u64, slot: u16) -> bool {
    exists|i: int|
        0 <= i < objects.len() && (#[trigger] objects[i]).kind == kind && objects[i].id == id
            && objects[i].slot == slot
}

pub(crate) proof fn lemma_free_object(objects: Seq<ObjectSlot>, from: int)
    requires
        0 <= from,
    ensures
        match free_object_slot(objects, from) {
            Some(s) => from <= s < u16::MAX && !object_slot_used(objects, s) && forall|t: u16|
                from <= t < s ==> #[trigger] object_slot_used(objects, t),
            None => forall|t: u16|
                from <= t < u16::MAX ==> #[trigger] object_slot_used(objects, t),
        },
    decreases u16::MAX - from,
{
    if from < u16::MAX && object_slot_used(objects, from as u16) {
        lemma_free_object(objects, from + 1);
    }
}

pub(crate) proof fn lemma_object_index(objects: Seq<ObjectSlot>, kind: u8, id: u64)
    ensures
        0 <= object_index(objects, kind, id) <= objects.len(),
        object_index(objects, kind, id) < objects.len() ==> objects[object_index(
            objects,
            kind,
            id,
        )].kind == kind && objects[object_index(objects, kind, id)].id == id,
        object_index(objects, kind, id) == objects.len() ==> forall|i: int|
            0 <= i < objects.len() ==> (#[trigger] objects[i]).kind != kind || objects[i].id != id,
    decreases objects.len(),
{
    if objects.len() > 0 && !(objects[0].kind == kind && objects[0].id == id) {
        let rest = objects.drop_first();
        lemma_object_index(rest, kind, id);
        if object_index(objects, kind, id) == objects.len() {
            assert forall|i: int| 0 <= i < objects.len() implies (#[trigger] objects[i]).kind
                != kind || objects[i].id != id by {
                if i > 0 {
                    assert(rest[i - 1] == objects[i]);
                }
            }
        }
    }
}

/// Seeing an entity keeps ids distinct and takes none away.
pub(crate) proof fn lemma_object_seen(objects: Seq<ObjectSlot>, tick: u64, kind: u8, id: u64)
    requires
        objects_valid(objects),
    ensures
        object_seen(objects, tick, kind, id) matches Some((after, slot)) ==> {
            &&& objects_valid(after)
            &&& has_object(after, kind, id, slot)
            &&& forall|k: u8, n: u64, s: u16| #[trigger]
                has_object(objects, k, n, s) ==> has_object(after, k, n, s)
        },
{
    lemma_object_index(objects, kind, id);
    lemma_free_object(objects, 0);
    if let Some((after, slot)) = object_seen(objects, tick, kind, id) {
        let at = object_index(objects, kind, id);
        assert(after[at].slot == slot);
        if at == objects.len() {
            assert forall|i: int| 0 <= i < objects.len() implies (#[trigger] objects[i]).slot
                != slot by {
                assert(!object_slot_used(objects, slot));
            }
        }
        assert forall|k: u8, n: u64, s: u16| #[trigger] has_object(objects, k, n, s) implies
            has_object(after, k, n, s) by {
            let i = choose|i: int|
                0 <= i < objects.len() && (#[trigger] objects[i]).kind == k && objects[i].id == n
                    && objects[i].slot == s;
            assert(after[i].kind == k && after[i].id == n && after[i].slot == s);
        }
    }
}

/// An entity that is not known gets the lowest id that no entity has; if all
/// are in use, it gets none. One that is known keeps its id.
pub proof fn new_entity_gets_the_lowest_free_id(
    objects: Seq<ObjectSlot>,
    tick: u64,
    kind: u8,
    id: u64,
)
    requires
        objects_valid(objects),
    ensures
        match object_seen(objects, tick, kind, id) {
            Some((_, slot)) => has_object(objects, kind, id, slot) || {
                &&& forall|s: u16| !has_object(objects, kind, id, s)
                &&& slot < u16::MAX
                &&& !object_slot_used(objects, slot)
                &&& forall|t: u16| t < slot ==> #[trigger] object_slot_used(objects, t)
            },
            None => {
                &&& forall|s: u16| !has_object(objects, kind, id, s)
                &&& forall|t: u16| t < u16::MAX ==> #[trigger] object_slot_used(objects, t)
            },
        },
{
    lemma_object_index(objects, kind, id);
    lemma_free_object(objects, 0);
    let at = object_index(objects, kind, id);
    if at < objects.len() {
        assert(has_object(objects, kind, id, objects[at].slot));
    }
}

/// The table after the ids of some entities were asked for in turn, each
/// given by its kind and its number. Where there is no id, nothing changes.
pub open spec fn objects_asked(objects: Seq<ObjectSlot>, tick: u64, keys: Seq<(u8, u64)>) -> Seq<
    ObjectSlot,
>
    decreases keys.len(),
{
    if keys.len() == 0 {
        objects
    } else {
        let before = objects_asked(objects, tick, keys.drop_last());
        match object_seen(before, tick, keys.last().0, keys.last().1) {
            Some((after, _)) => after,
            None => before,
        }
    }
}

proof fn lemma_objects_asked(objects: Seq<ObjectSlot>, tick: u64, keys: Seq<(u8, u64)>)
    requires
        objects_valid(objects),
    ensures
        objects_valid(objects_asked(objects, tick, keys)),
        forall|k: u8, n: u64, s: u16| #[trigger]
            has_object(objects, k, n, s) ==> has_object(objects_asked(objects, tick, keys), k, n, s),
    decreases keys.len(),
{
    if keys.len() > 0 {
        let before = objects_asked(objects, tick, keys.drop_last());
        lemma_objects_asked(objects, tick, keys.drop_last());
        lemma_object_seen(before, tick, keys.last().0, keys.last().1);
    }
}

/// Ids tell entities apart: of two that were given out between two snapshots,
/// whatever was asked for in between, the one equals the other exactly if
/// they belong to the same entity.
pub proof fn ids_are_equal_exactly_for_equal_entities(
    objects: Seq<ObjectSlot>,
    tick: u64,
    first: (u8, u64),
    first_id: u16,
    after_first: Seq<ObjectSlot>,
    between: Seq<(u8, u64)>,
    second: (u8, u64),
    second_id: u16,
    after_second: Seq<ObjectSlot>,
)
    requires
        objects_valid(objects),
        object_seen(objects, tick, first.0, first.1) == Some((after_first, first_id)),
        object_seen(objects_asked(after_first, tick, between), tick, second.0, second.1) == Some(
            (after_second, second_id),
        ),
    ensures
        first_id == second_id <==> first == second,
{
    lemma_object_seen(objects, tick, first.0, first.1);
    lemma_objects_asked(after_first, tick, between);
    let middle = objects_asked(after_first, tick, between);
    lemma_object_seen(middle, tick, second.0, second.1);
    assert(has_object(middle, first.0, first.1, first_id));
    assert(has_object(after_second, first.0, first.1, first_id));
    assert(has_object(after_second, second.0, second.1, second_id));
}

pub(crate) proof fn lemma_placed(objects: Seq<ObjectSlot>, tick: u64, todo: Seq<Entity>)
    requires
        objects_valid(objects),
    ensures
        objects_valid(placed(objects, tick, todo).0),
        forall|k: u8, n: u64, s: u16| #[trigger]
            has_object(objects, k, n, s) ==> has_object(placed(objects, tick, todo).0, k, n, s),
    decreases todo.len(),
{
    if todo.len() > 0 {
        lemma_object_seen(objects, tick, todo[0].kind, todo[0].id);
        if let Some((next, id)) = object_seen(objects, tick, todo[0].kind, todo[0].id) {
            lemma_placed(next, tick, todo.drop_first());
        }
    }
}

/// The entities that stay keep their distinct ids.
pub(crate) proof fn lemma_kept_objects(objects: Seq<ObjectSlot>, tick: u64)
    requires
        objects_valid(objects),
    ensures
        objects_valid(kept_objects(objects, tick)),
        forall|i: int|
            0 <= i < objects.len() && is_recent(tick, (#[trigger] objects[i]).seen) ==> has_object(
                kept_objects(objects, tick),
                objects[i].kind,
                objects[i].id,
                objects[i].slot,
            ),
        forall|i: int|
            0 <= i < kept_objects(objects, tick).len() ==> objects.contains(
                #[trigger] kept_objects(objects, tick)[i],
            ),
    decreases objects.len(),
{
    let keep = |o: ObjectSlot| is_recent(tick, o.seen);
    reveal(Seq::filter);
    if objects.len() > 0 {
        let head = objects.drop_last();
        let kept = kept_objects(objects, tick);
        let before = kept_objects(head, tick);
        lemma_kept_objects(head, tick);
        let last = objects.last();
        assert(kept == if keep(last) {
            before.push(last)
        } else {
            before
        });
        assert forall|i: int| 0 <= i < kept.len() implies objects.contains(#[trigger] kept[i]) by {
            if i < before.len() {
                assert(head.contains(before[i]));
                let j = choose|j: int| 0 <= j < head.len() && head[j] == before[i];
                assert(objects[j] == kept[i]);
            } else {
                assert(objects[objects.len() - 1] == kept[i]);
            }
        }
        if keep(last) {
            assert forall|i: int| 0 <= i < before.len() implies (#[trigger] before[i]).slot
                != last.slot && (before[i].kind != last.kind || before[i].id != last.id) by {
                assert(head.contains(before[i]));
                let j = choose|j: int| 0 <= j < head.len() && head[j] == before[i];
                assert(objects[j] == before[i] && objects[objects.len() - 1] == last);
            }
        }
        assert forall|i: int|
            0 <= i < objects.len() && is_recent(tick, (#[trigger] objects[i]).seen) implies
            has_object(kept, objects[i].kind, objects[i].id, objects[i].slot) by {
            if i < head.len() {
                assert(head[i] == objects[i]);
                let j = choose|j: int|
                    0 <= j < before.len() && (#[trigger] before[j]).kind == head[i].kind
                        && before[j].id == head[i].id && before[j].slot == head[i].slot;
                assert(kept[j] == before[j]);
            } else {
                assert(kept[kept.len() - 1] == last);
            }
        }
    }
}

proof fn lemma_steps(objects: Seq<ObjectSlot>, seen: u64, steps: Seq<Step>)
    requires
        objects_valid(objects),
    ensures
        objects_valid(steps_taken(objects, seen, steps).0),
        forall|k: u8, n: u64, s: u16| #[trigger]
            has_object(objects, k, n, s) ==> has_object(
                steps_taken(objects, seen, steps).0,
                k,
                n,
                s,
            ),
    decreases steps.len(),
{
    if steps.len() > 0 {
        let (table, items) = steps_taken(objects, seen, steps.drop_last());
        lemma_steps(objects, seen, steps.drop_last());
        if let Step::Place(e) = steps.last() {
            lemma_object_seen(table, seen, e.kind, e.id);
        }
    }
}

/// However building a snapshot ends, entities have distinct ids afterwards,
/// and each one that was seen recently has the id it had.
pub proof fn entity_ids_survive_a_build<P: Fn(&Vec<SnapItem>) -> bool>(
    before: Snapshots,
    snapshot: Snapshot,
    local: u64,
    tick: i32,
    effects: Seq<SnapObj>,
    pack: P,
    r: Result<Vec<SnapItem>, SnapshotError>,
    after: Snapshots,
)
    requires
        objects_valid(before.objects@),
        builds(before, snapshot, local, tick, effects, pack, r, after),
    ensures
        objects_valid(after.objects@),
        forall|i: int|
            0 <= i < before.objects@.len() && is_recent(
                before.latest_tick,
                (#[trigger] before.objects@[i]).seen,
            ) ==> has_object(
                after.objects@,
                before.objects@[i].kind,
                before.objects@[i].id,
                before.objects@[i].slot,
            ),
{
    let seen = before.latest_tick;
    let kept = kept_objects(before.objects@, seen);
    lemma_kept_objects(before.objects@, seen);
    let (players, _, fit) = players_after(
        before.players@,
        before.player_seen@,
        seen,
        snapshot,
        local,
    );
    if fit {
        let steps = steps_of(
            before.game_config,
            before.race,
            players,
            snapshot,
            local,
            tick,
            effects,
        );
        assert(packs(pack, kept, seen, steps, r, after.objects@));
        lemma_steps(kept, seen, steps);
        let n = choose|n: int|
            {
                &&& 0 <= n <= steps.len()
                &&& #[trigger] steps_fit(pack, kept, seen, steps, n)
                &&& if n == steps.len() {
                    r matches Ok(out) && steps_taken(kept, seen, steps) == (
                        after.objects@,
                        Some(out@),
                    )
                } else {
                    after.objects@ == steps_taken(kept, seen, steps.take(n + 1)).0
                }
            };
        if n < steps.len() {
            lemma_steps(kept, seen, steps.take(n + 1));
        }
    }
}

/// A snapshot that is handed on has a greater id than all before it, and one
/// that is not leaves the latest id as it is.
pub proof fn snapshots_only_advance(
    before: Snapshots,
    packed: Packed,
    parsed: Option<(Snapshot, usize)>,
    keep: bool,
    r: Result<Option<(u64, Snapshot)>, SnapshotError>,
    after: Snapshots,
)
    requires
        accepts(before, packed, parsed, keep, r, after),
    ensures
        match r {
            Ok(Some(_)) => after.latest_id matches Some(id) && (before.latest_id matches Some(
                latest,
            ) ==> latest < id),
            _ => after.latest_id == before.latest_id && after.latest_tick == before.latest_tick,
        },
{
}

/// At most 32 snapshots are kept, and the newest of them is the one that was
/// just kept if its id is the greatest.
pub proof fn kept_snapshot_is_available(
    before: Snapshots,
    packed: Packed,
    parsed: Option<(Snapshot, usize)>,
    r: Result<Option<(u64, Snapshot)>, SnapshotError>,
    after: Snapshots,
)
    requires
        accepts(before, packed, parsed, true, r, after),
        r is Ok,
        before.bases@.dom().finite(),
        forall|k: u64| #[trigger] before.bases@.contains_key(k) ==> k <= packed.id,
    ensures
        after.bases@.len() <= MAX_BASES,
        after.bases@.contains_key(packed.id),
        after.bases@[packed.id] == (packed.tick, packed.bytes),
{
    let all = before.bases@.insert(packed.id, (packed.tick, packed.bytes));
    let kept = after.bases@;
    assert(newest(all, kept, MAX_BASES as nat));
    assert(all.contains_key(packed.id));
    if !kept.contains_key(packed.id) {
        assert(kept.len() == MAX_BASES);
        let j = kept.dom().choose();
        assert(kept.contains_key(j));
        assert(all.contains_key(j));
    }
}

} // verus!
