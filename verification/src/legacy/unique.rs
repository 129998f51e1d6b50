//! A snapshot holds each object once.
use crate::legacy::character::{
    all_mapped, character_items, shown_items, spectator_item, spectator_items, stage_items,
    team_of, watching,
};
use crate::legacy::events::{effects_after, pending_object, translated_events, WorldEvent};
use crate::legacy::objects::{SnapItem, SnapObj};
use crate::legacy::slots::{
    has_object, lemma_kept_objects, lemma_object_seen, lemma_placed, objects_valid,
    slots_stay_distinct, slots_valid,
};
use crate::legacy::snapshot::{
    character_ids, effect_items, entity_items, flag_item, flying_entities, game_items, info_items,
    kept_objects, laser_entities, laser_entity, lemma_assigned_maps, lemma_roster_mapped,
    object_seen, objects_after, pickup_entity, placed, player_items, players_after, players_kept,
    projectile_entity, race_projectile_entity, roster_of, stage_ids, stage_shown, Entity,
    GameConfig, ObjectSlot,
};
use crate::legacy::world::{Character, Snapshot, Spectator, Stage};
use vstd::prelude::*;

verus! {

/// The number of an object's type.
pub open spec fn object_type(obj: SnapObj) -> int {
    match obj {
        SnapObj::GameInfo(_) => 0,
        SnapObj::GameInfoEx(_) => 1,
        SnapObj::GameData(_) => 2,
        SnapObj::ClientInfo(_) => 10,
        SnapObj::PlayerInfo(_) => 11,
        SnapObj::DdnetPlayer(_) => 12,
        SnapObj::SpectatorInfo(_) => 13,
        SnapObj::DdnetCharacter(_) => 14,
        SnapObj::Character(_) => 15,
        SnapObj::Projectile(_) => 20,
        SnapObj::Pickup(_) => 21,
        SnapObj::Laser(_) => 22,
        SnapObj::Flag(_) => 30,
        SnapObj::SoundWorld { .. } => 40,
        SnapObj::Explosion { .. } => 41,
        SnapObj::Spawn { .. } => 42,
        SnapObj::Death { .. } => 43,
        SnapObj::HammerHit { .. } => 44,
        SnapObj::DamageInd { .. } => 45,
    }
}

/// The family of types that an object belongs to: the game, a player, an
/// entity, a flag or an event.
pub open spec fn family(obj: SnapObj) -> int {
    object_type(obj) / 10
}

/// No two objects have the same type and the same id.
pub open spec fn each_once(items: Seq<SnapItem>) -> bool {
    forall|i: int, j: int|
        0 <= i < j < items.len() ==> object_type((#[trigger] items[i]).obj) != object_type(
            (#[trigger] items[j]).obj,
        ) || items[i].id != items[j].id
}

/// All objects belong to one family.
pub open spec fn all_of(items: Seq<SnapItem>, n: int) -> bool {
    forall|i: int| 0 <= i < items.len() ==> family((#[trigger] items[i]).obj) == n
}

/// The lists of a snapshot hold nobody and nothing twice.
pub open spec fn snapshot_valid(snapshot: Snapshot) -> bool {
    &&& roster_of(snapshot).no_duplicates()
    &&& forall|i: int|
        0 <= i < snapshot.stages@.len() ==> stage_valid(#[trigger] snapshot.stages@[i])
}

/// The lists of a stage hold no entity twice.
pub open spec fn stage_valid(stage: Stage) -> bool {
    &&& forall|i: int, j: int|
        0 <= i < j < stage.projectiles@.len() ==> (#[trigger] stage.projectiles@[i]).id != (
        #[trigger] stage.projectiles@[j]).id
    &&& forall|i: int, j: int|
        0 <= i < j < stage.race_projectiles@.len() ==> (#[trigger] stage.race_projectiles@[i]).id
            != (#[trigger] stage.race_projectiles@[j]).id
    &&& forall|i: int, j: int|
        0 <= i < j < stage.pickups@.len() ==> (#[trigger] stage.pickups@[i]).id != (
        #[trigger] stage.pickups@[j]).id
    &&& forall|i: int, j: int|
        0 <= i < j < stage.lasers@.len() ==> (#[trigger] stage.lasers@[i]).id != (
        #[trigger] stage.lasers@[j]).id
}

proof fn lemma_families(a: Seq<SnapItem>, b: Seq<SnapItem>)
    requires
        each_once(a),
        each_once(b),
        forall|i: int, j: int|
            0 <= i < a.len() && 0 <= j < b.len() ==> family((#[trigger] a[i]).obj) != family(
                (#[trigger] b[j]).obj,
            ),
    ensures
        each_once(a + b),
{
    let all = a + b;
    assert forall|i: int, j: int| 0 <= i < j < all.len() implies object_type(
        (#[trigger] all[i]).obj,
    ) != object_type((#[trigger] all[j]).obj) || all[i].id != all[j].id by {
        if j < a.len() {
            assert(all[i] == a[i] && all[j] == a[j]);
        } else if i >= a.len() {
            assert(all[i] == b[i - a.len()] && all[j] == b[j - a.len()]);
        } else {
            assert(all[i] == a[i] && all[j] == b[j - a.len()]);
            assert(family(a[i].obj) != family(b[j - a.len()].obj));
        }
    }
}

/// The objects are those of players of the given set.
spec fn of_players(items: Seq<SnapItem>, players: Map<u64, u16>, ids: Set<u64>) -> bool {
    forall|i: int|
        0 <= i < items.len() ==> family((#[trigger] items[i]).obj) == 1 && exists|id: u64| #[trigger]
            ids.contains(id) && players.contains_key(id) && players[id] == items[i].id
}

proof fn lemma_players_join(
    a: Seq<SnapItem>,
    b: Seq<SnapItem>,
    players: Map<u64, u16>,
    left: Set<u64>,
    right: Set<u64>,
)
    requires
        slots_valid(players),
        each_once(a),
        each_once(b),
        of_players(a, players, left),
        of_players(b, players, right),
        left.disjoint(right),
    ensures
        each_once(a + b),
        of_players(a + b, players, left.union(right)),
{
    let all = a + b;
    let ids = left.union(right);
    assert forall|i: int| 0 <= i < all.len() implies family((#[trigger] all[i]).obj) == 1
        && exists|id: u64| #[trigger]
        ids.contains(id) && players.contains_key(id) && players[id] == all[i].id by {
        if i < a.len() {
            assert(all[i] == a[i]);
            let id = choose|id: u64| #[trigger]
                left.contains(id) && players.contains_key(id) && players[id] == a[i].id;
            assert(ids.contains(id));
        } else {
            assert(all[i] == b[i - a.len()]);
            let id = choose|id: u64| #[trigger]
                right.contains(id) && players.contains_key(id) && players[id] == b[i - a.len()].id;
            assert(ids.contains(id));
        }
    }
    assert forall|i: int, j: int| 0 <= i < j < all.len() implies object_type(
        (#[trigger] all[i]).obj,
    ) != object_type((#[trigger] all[j]).obj) || all[i].id != all[j].id by {
        if j < a.len() {
            assert(all[i] == a[i] && all[j] == a[j]);
        } else if i >= a.len() {
            assert(all[i] == b[i - a.len()] && all[j] == b[j - a.len()]);
        } else {
            let x = a[i];
            let y = b[j - a.len()];
            assert(all[i] == x && all[j] == y);
            let p = choose|id: u64| #[trigger]
                left.contains(id) && players.contains_key(id) && players[id] == x.id;
            let q = choose|id: u64| #[trigger]
                right.contains(id) && players.contains_key(id) && players[id] == y.id;
            assert(p != q);
            assert(players[p] != players[q]);
        }
    }
}

/// The objects of one character.
spec fn character_block(
    stages: Seq<Stage>,
    players: Map<u64, u16>,
    c: Character,
    local: u64,
    tick: i32,
    shown: bool,
    index: int,
) -> Seq<SnapItem> {
    info_items(players[c.id], c.look, c.id == local, team_of(c.side), c.score as int) + if shown {
        shown_items(stages, players, c, local, tick, index)
    } else {
        seq![]
    }
}

proof fn lemma_character_block(
    stages: Seq<Stage>,
    players: Map<u64, u16>,
    c: Character,
    local: u64,
    tick: i32,
    shown: bool,
    index: int,
)
    requires
        players.contains_key(c.id),
    ensures
        ({
            let items = character_block(stages, players, c, local, tick, shown, index);
            each_once(items) && of_players(items, players, set![c.id])
        }),
{
    let items = character_block(stages, players, c, local, tick, shown, index);
    let (camera, flags) = watching(c.phase);
    assert(set![c.id].contains(c.id));
    assert forall|i: int| 0 <= i < items.len() implies family((#[trigger] items[i]).obj) == 1
        && items[i].id == players[c.id] by {
    }
    assert forall|i: int, j: int| 0 <= i < j < items.len() implies object_type(
        (#[trigger] items[i]).obj,
    ) < object_type((#[trigger] items[j]).obj) by {
    }
}

/// The characters of a list, as a set of ids.
spec fn ids_of(characters: Seq<Character>) -> Set<u64> {
    character_ids(characters).to_set()
}

proof fn lemma_character_items(
    stages: Seq<Stage>,
    players: Map<u64, u16>,
    characters: Seq<Character>,
    local: u64,
    tick: i32,
    shown: bool,
)
    requires
        slots_valid(players),
        character_ids(characters).no_duplicates(),
        forall|j: int|
            0 <= j < characters.len() ==> players.contains_key((#[trigger] characters[j]).id),
    ensures
        ({
            let items = character_items(stages, players, characters, local, tick, shown);
            each_once(items) && of_players(items, players, ids_of(characters))
        }),
    decreases characters.len(),
{
    if characters.len() > 0 {
        let head = characters.drop_last();
        let c = characters.last();
        let ids = character_ids(characters);
        assert(character_ids(head) =~= ids.drop_last());
        assert forall|j: int| 0 <= j < head.len() implies players.contains_key(
            (#[trigger] head[j]).id,
        ) by {
            assert(characters[j] == head[j]);
        }
        lemma_character_items(stages, players, head, local, tick, shown);
        lemma_character_block(
            stages,
            players,
            c,
            local,
            tick,
            shown,
            characters.len() - 1,
        );
        let before = character_items(stages, players, head, local, tick, shown);
        let block = character_block(
            stages,
            players,
            c,
            local,
            tick,
            shown,
            characters.len() - 1,
        );
        assert(ids.last() == c.id);
        assert(ids_of(head).disjoint(set![c.id])) by {
            if ids_of(head).contains(c.id) {
                let k = choose|k: int|
                    0 <= k < character_ids(head).len() && character_ids(head)[k] == c.id;
                assert(ids[k] == c.id);
                assert(ids[ids.len() - 1] == c.id);
            }
        }
        lemma_players_join(before, block, players, ids_of(head), set![c.id]);
        assert(character_items(stages, players, characters, local, tick, shown) =~= before
            + block);
        assert(ids_of(characters) =~= ids_of(head).union(set![c.id])) by {
            assert(ids =~= character_ids(head).push(c.id));
            lemma_push_to_set(character_ids(head), c.id);
        }
    }
}

proof fn lemma_push_to_set(s: Seq<u64>, x: u64)
    ensures
        s.push(x).to_set() == s.to_set().union(set![x]),
{
    let all = s.push(x);
    assert forall|y: u64| all.to_set().contains(y) == s.to_set().union(set![x]).contains(y) by {
        if all.contains(y) {
            let k = choose|k: int| 0 <= k < all.len() && all[k] == y;
            if k < s.len() {
                assert(s[k] == y);
            }
        }
        if s.contains(y) {
            let k = choose|k: int| 0 <= k < s.len() && s[k] == y;
            assert(all[k] == y);
        }
        assert(all[s.len() as int] == x);
    }
    assert(all.to_set() =~= s.to_set().union(set![x]));
}

proof fn lemma_add_to_set(s: Seq<u64>, t: Seq<u64>)
    ensures
        (s + t).to_set() == s.to_set().union(t.to_set()),
{
    let all = s + t;
    assert forall|y: u64| all.to_set().contains(y) == s.to_set().union(t.to_set()).contains(y) by {
        if all.contains(y) {
            let k = choose|k: int| 0 <= k < all.len() && all[k] == y;
            if k < s.len() {
                assert(s[k] == y);
            } else {
                assert(t[k - s.len()] == y);
            }
        }
        if s.contains(y) {
            let k = choose|k: int| 0 <= k < s.len() && s[k] == y;
            assert(all[k] == y);
        }
        if t.contains(y) {
            let k = choose|k: int| 0 <= k < t.len() && t[k] == y;
            assert(all[s.len() + k] == y);
        }
    }
    assert(all.to_set() =~= s.to_set().union(t.to_set()));
}

/// The two halves of a list without duplicates have none, and share nothing.
proof fn lemma_halves(s: Seq<u64>, t: Seq<u64>)
    requires
        (s + t).no_duplicates(),
    ensures
        s.no_duplicates(),
        t.no_duplicates(),
        s.to_set().disjoint(t.to_set()),
{
    let all = s + t;
    assert forall|i: int, j: int| 0 <= i < s.len() && 0 <= j < s.len() && i != j implies s[i]
        != s[j] by {
        assert(all[i] == s[i] && all[j] == s[j]);
    }
    assert forall|i: int, j: int| 0 <= i < t.len() && 0 <= j < t.len() && i != j implies t[i]
        != t[j] by {
        assert(all[s.len() + i] == t[i] && all[s.len() + j] == t[j]);
    }
    assert forall|y: u64| !(s.to_set().contains(y) && t.to_set().contains(y)) by {
        if s.contains(y) && t.contains(y) {
            let i = choose|i: int| 0 <= i < s.len() && s[i] == y;
            let j = choose|j: int| 0 <= j < t.len() && t[j] == y;
            assert(all[i] == all[s.len() + j]);
        }
    }
}

proof fn lemma_stage_items(
    stages: Seq<Stage>,
    n: int,
    players: Map<u64, u16>,
    local: u64,
    tick: i32,
    shown: Option<Stage>,
)
    requires
        slots_valid(players),
        0 <= n <= stages.len(),
        stage_ids(stages.take(n)).no_duplicates(),
        forall|i: int| 0 <= i < stages.len() ==> all_mapped(players, #[trigger] stages[i]),
    ensures
        ({
            let items = stage_items(stages, n, players, local, tick, shown);
            each_once(items) && of_players(items, players, stage_ids(stages.take(n)).to_set())
        }),
    decreases n,
{
    if n > 0 {
        let stage = stages[n - 1];
        let head = stages.take(n - 1);
        let own = shown matches Some(s) && s.id == stage.id;
        assert(stages.take(n).drop_last() =~= head);
        assert(stages.take(n).last() == stage);
        let a = stage_ids(head);
        let b = character_ids(stage.characters@);
        lemma_halves(a, b);
        lemma_add_to_set(a, b);
        lemma_stage_items(stages, n - 1, players, local, tick, shown);
        assert(all_mapped(players, stage));
        lemma_character_items(stages, players, stage.characters@, local, tick, own);
        lemma_players_join(
            stage_items(stages, n - 1, players, local, tick, shown),
            character_items(stages, players, stage.characters@, local, tick, own),
            players,
            a.to_set(),
            b.to_set(),
        );
    }
}

/// The ids of spectators.
spec fn spectator_ids(spectators: Seq<Spectator>) -> Seq<u64> {
    spectators.map_values(|s: Spectator| s.id)
}

proof fn lemma_spectator_items(
    stages: Seq<Stage>,
    players: Map<u64, u16>,
    spectators: Seq<Spectator>,
    local: u64,
)
    requires
        slots_valid(players),
        spectator_ids(spectators).no_duplicates(),
        forall|i: int|
            0 <= i < spectators.len() ==> players.contains_key((#[trigger] spectators[i]).id),
    ensures
        ({
            let items = spectator_items(stages, players, spectators, local);
            each_once(items) && of_players(items, players, spectator_ids(spectators).to_set())
        }),
    decreases spectators.len(),
{
    if spectators.len() > 0 {
        let head = spectators.drop_last();
        let p = spectators.last();
        let ids = spectator_ids(spectators);
        assert(spectator_ids(head) =~= ids.drop_last());
        assert forall|i: int| 0 <= i < head.len() implies players.contains_key(
            (#[trigger] head[i]).id,
        ) by {
            assert(spectators[i] == head[i]);
        }
        lemma_spectator_items(stages, players, head, local);
        let block = spectator_item(stages, players, p, local);
        assert(players.contains_key(spectators[spectators.len() - 1].id));
        assert(set![p.id].contains(p.id));
        assert forall|i: int| 0 <= i < block.len() implies family((#[trigger] block[i]).obj) == 1
            && block[i].id == players[p.id] by {
        }
        assert(ids =~= spectator_ids(head) + seq![p.id]);
        lemma_halves(spectator_ids(head), seq![p.id]);
        lemma_push_to_set(spectator_ids(head), p.id);
        assert(spectator_ids(head).push(p.id) =~= ids);
        assert(seq![p.id].to_set() =~= set![p.id]) by {
            assert(seq![p.id][0] == p.id);
        }
        lemma_players_join(
            spectator_items(stages, players, head, local),
            block,
            players,
            spectator_ids(head).to_set(),
            set![p.id],
        );
    }
}

/// No two entities of a list have the same kind and id.
spec fn distinct(todo: Seq<Entity>) -> bool {
    forall|i: int, j: int|
        0 <= i < j < todo.len() ==> (#[trigger] todo[i]).kind != (#[trigger] todo[j]).kind
            || todo[i].id != todo[j].id
}

/// The items are those of the entities, under the ids of the table.
pub(crate) open spec fn placed_as(items: Seq<SnapItem>, todo: Seq<Entity>, objects: Seq<ObjectSlot>) -> bool {
    &&& items.len() == todo.len()
    &&& forall|i: int|
        0 <= i < items.len() ==> (#[trigger] items[i]).obj == todo[i].obj && has_object(
            objects,
            todo[i].kind,
            todo[i].id,
            items[i].id,
        )
}

pub(crate) proof fn lemma_placed_as(objects: Seq<ObjectSlot>, tick: u64, todo: Seq<Entity>)
    requires
        objects_valid(objects),
    ensures
        placed(objects, tick, todo).1 matches Some(items) ==> placed_as(
            items,
            todo,
            placed(objects, tick, todo).0,
        ),
    decreases todo.len(),
{
    if todo.len() > 0 {
        lemma_object_seen(objects, tick, todo[0].kind, todo[0].id);
        if let Some((next, id)) = object_seen(objects, tick, todo[0].kind, todo[0].id) {
            let rest = todo.drop_first();
            lemma_placed(next, tick, rest);
            lemma_placed_as(next, tick, rest);
            let (last, after) = placed(next, tick, rest);
            if let Some(more) = after {
                let items = placed(objects, tick, todo).1->0;
                assert forall|i: int| 0 <= i < items.len() implies (#[trigger] items[i]).obj
                    == todo[i].obj && has_object(last, todo[i].kind, todo[i].id, items[i].id) by {
                    if i == 0 {
                        assert(has_object(next, todo[0].kind, todo[0].id, id));
                    } else {
                        assert(items[i] == more[i - 1]);
                        assert(rest[i - 1] == todo[i]);
                    }
                }
            }
        }
    }
}

/// Different entities have different ids.
proof fn lemma_ids_differ(
    objects: Seq<ObjectSlot>,
    kind: u8,
    id: u64,
    slot: u16,
    other_kind: u8,
    other_id: u64,
    other_slot: u16,
)
    requires
        objects_valid(objects),
        has_object(objects, kind, id, slot),
        has_object(objects, other_kind, other_id, other_slot),
        kind != other_kind || id != other_id,
    ensures
        slot != other_slot,
{
    let i = choose|i: int|
        0 <= i < objects.len() && (#[trigger] objects[i]).kind == kind && objects[i].id == id
            && objects[i].slot == slot;
    let j = choose|j: int|
        0 <= j < objects.len() && (#[trigger] objects[j]).kind == other_kind && objects[j].id
            == other_id && objects[j].slot == other_slot;
    assert(i != j);
    if i < j {
        assert(objects[i].slot != objects[j].slot);
    } else {
        assert(objects[j].slot != objects[i].slot);
    }
}

proof fn lemma_placed_once(items: Seq<SnapItem>, todo: Seq<Entity>, objects: Seq<ObjectSlot>)
    requires
        objects_valid(objects),
        placed_as(items, todo, objects),
        distinct(todo),
    ensures
        each_once(items),
{
    assert forall|i: int, j: int| 0 <= i < j < items.len() implies object_type(
        (#[trigger] items[i]).obj,
    ) != object_type((#[trigger] items[j]).obj) || items[i].id != items[j].id by {
        assert(todo[i].kind != todo[j].kind || todo[i].id != todo[j].id);
        lemma_ids_differ(
            objects,
            todo[i].kind,
            todo[i].id,
            items[i].id,
            todo[j].kind,
            todo[j].id,
            items[j].id,
        );
    }
}

/// The entities of a stage are distinct, and of the entity family.
proof fn lemma_entities_distinct(stage: Stage, tick: i32)
    requires
        stage_valid(stage),
    ensures
        distinct(flying_entities(stage, tick) + laser_entities(stage, tick)),
        forall|i: int|
            0 <= i < (flying_entities(stage, tick) + laser_entities(stage, tick)).len()
                ==> family(
                (#[trigger] (flying_entities(stage, tick) + laser_entities(stage, tick))[i]).obj,
            ) == 2,
{
    let a = stage.projectiles@;
    let b = stage.race_projectiles@;
    let c = stage.pickups@;
    let d = stage.lasers@;
    let all = flying_entities(stage, tick) + laser_entities(stage, tick);
    let n = a.len() as int;
    let m = n + b.len();
    let k = m + c.len();
    assert forall|i: int| 0 <= i < all.len() implies #[trigger] all[i] == (if i < n {
        projectile_entity(a[i], tick)
    } else if i < m {
        race_projectile_entity(b[i - n], tick)
    } else if i < k {
        pickup_entity(c[i - m])
    } else {
        laser_entity(d[i - k], tick)
    }) by {
    }
    assert forall|i: int, j: int| 0 <= i < j < all.len() implies (#[trigger] all[i]).kind != (
    #[trigger] all[j]).kind || all[i].id != all[j].id by {
        if j < n {
            assert(a[i].id != a[j].id);
        } else if n <= i && j < m {
            assert(b[i - n].id != b[j - n].id);
        } else if m <= i && j < k {
            assert(c[i - m].id != c[j - m].id);
        } else if k <= i {
            assert(d[i - k].id != d[j - k].id);
        }
    }
}

proof fn lemma_entity_items(objects: Seq<ObjectSlot>, seen: u64, stage: Stage, tick: i32)
    requires
        objects_valid(objects),
        stage_valid(stage),
    ensures
        entity_items(objects, seen, stage, tick).1 matches Some(items) ==> each_once(items)
            && forall|i: int|
            0 <= i < items.len() ==> 2 <= family((#[trigger] items[i]).obj) <= 3,
{
    let flying = flying_entities(stage, tick);
    let lasers = laser_entities(stage, tick);
    lemma_placed(objects, seen, flying);
    lemma_placed_as(objects, seen, flying);
    let (next, first) = placed(objects, seen, flying);
    if let Some(a) = first {
        lemma_placed(next, seen, lasers);
        lemma_placed_as(next, seen, lasers);
        let (last, second) = placed(next, seen, lasers);
        if let Some(b) = second {
            let flags = flag_item(stage.red_flags@, 0) + flag_item(stage.blue_flags@, 1);
            let all = a + b;
            let todo = flying + lasers;
            lemma_entities_distinct(stage, tick);
            assert forall|i: int| 0 <= i < all.len() implies (#[trigger] all[i]).obj == todo[i].obj
                && has_object(last, todo[i].kind, todo[i].id, all[i].id) by {
                if i < a.len() {
                    assert(all[i] == a[i] && todo[i] == flying[i]);
                    assert(has_object(next, flying[i].kind, flying[i].id, a[i].id));
                } else {
                    assert(all[i] == b[i - a.len()] && todo[i] == lasers[i - a.len()]);
                }
            }
            assert(placed_as(all, todo, last));
            lemma_placed_once(all, todo, last);
            let items = entity_items(objects, seen, stage, tick).1->0;
            assert(items =~= a + flags + b);
            assert forall|i: int| 0 <= i < flags.len() implies family((#[trigger] flags[i]).obj)
                == 3 by {
            }
            assert forall|i: int| 0 <= i < items.len() implies 2 <= family(
                (#[trigger] items[i]).obj,
            ) <= 3 by {
                if i < a.len() {
                    assert(items[i] == all[i]);
                    assert(family(todo[i].obj) == 2);
                } else if i < a.len() + flags.len() {
                    assert(items[i] == flags[i - a.len()]);
                } else {
                    assert(items[i] == all[i - flags.len()]);
                    assert(family(todo[i - flags.len()].obj) == 2);
                }
            }
            assert forall|i: int, j: int| 0 <= i < j < items.len() implies object_type(
                (#[trigger] items[i]).obj,
            ) != object_type((#[trigger] items[j]).obj) || items[i].id != items[j].id by {
                let f = a.len() as int;
                let g = f + flags.len();
                if f <= i < g && f <= j < g {
                    assert(items[i] == flags[i - f] && items[j] == flags[j - f]);
                } else if f <= i < g {
                    assert(items[i] == flags[i - f]);
                    assert(items[j] == all[j - flags.len()]);
                    assert(family(todo[j - flags.len()].obj) == 2);
                } else if f <= j < g {
                    assert(items[j] == flags[j - f]);
                    assert(items[i] == all[i]);
                    assert(family(todo[i].obj) == 2);
                } else {
                    let x = if i < f {
                        i
                    } else {
                        i - flags.len()
                    };
                    let y = if j < f {
                        j
                    } else {
                        j - flags.len()
                    };
                    assert(items[i] == all[x] && items[j] == all[y]);
                    assert(x < y);
                }
            }
        }
    }
}

/// The events fit: there are at most as many as ids, and they are events.
pub open spec fn effects_valid(effects: Seq<SnapObj>) -> bool {
    &&& effects.len() <= 0x1_0000
    &&& forall|i: int| 0 <= i < effects.len() ==> family(#[trigger] effects[i]) == 4
}

proof fn lemma_effect_items(effects: Seq<SnapObj>)
    requires
        effects_valid(effects),
    ensures
        each_once(effect_items(effects)),
        all_of(effect_items(effects), 4),
{
    let items = effect_items(effects);
    assert forall|i: int| 0 <= i < items.len() implies (#[trigger] items[i]).id == i
        && items[i].obj == effects[i] by {
    }
}

proof fn lemma_game_items(
    config: GameConfig,
    race: bool,
    players: Map<u64, u16>,
    stage: Option<Stage>,
    tick: i32,
)
    ensures
        each_once(game_items(config, race, players, stage, tick)),
        all_of(game_items(config, race, players, stage, tick), 0),
{
}

/// The snapshot that is built out of distinct players, entities and events
/// holds no object twice, so that it can be packed.
pub proof fn snapshot_holds_each_object_once(
    config: GameConfig,
    race: bool,
    players: Map<u64, u16>,
    player_seen: Map<u64, u64>,
    objects: Seq<ObjectSlot>,
    seen: u64,
    snapshot: Snapshot,
    local: u64,
    tick: i32,
    effects: Seq<SnapObj>,
)
    requires
        slots_valid(players),
        objects_valid(objects),
        snapshot_valid(snapshot),
        effects_valid(effects),
        players_after(players, player_seen, seen, snapshot, local).2,
        objects_after(objects, seen, snapshot, local, tick).1 is Some,
    ensures
        ({
            let after = players_after(players, player_seen, seen, snapshot, local).0;
            let entities = objects_after(objects, seen, snapshot, local, tick).1->0;
            each_once(
                player_items(config, race, after, snapshot, local, tick) + entities
                    + effect_items(effects),
            )
        }),
{
    let after = players_after(players, player_seen, seen, snapshot, local).0;
    let entities = objects_after(objects, seen, snapshot, local, tick).1->0;
    let shown = stage_shown(snapshot, local);
    let ids = roster_of(snapshot);
    slots_stay_distinct(players, player_seen, seen, snapshot, local);
    let start = players_kept(players, player_seen, local, seen);
    lemma_assigned_maps(
        start,
        crate::legacy::snapshot::kept_seen(
            player_seen,
            crate::legacy::snapshot::kept_players(players, player_seen, local, seen),
        ),
        seen,
        ids,
    );
    lemma_roster_mapped(snapshot, after);
    let stages = snapshot.stages@;
    let a = stage_ids(stages);
    let b = spectator_ids(snapshot.spectators@);
    assert(ids =~= a + b);
    lemma_halves(a, b);
    assert(stages.take(stages.len() as int) =~= stages);
    lemma_stage_items(stages, stages.len() as int, after, local, tick, shown);
    lemma_spectator_items(stages, after, snapshot.spectators@, local);
    let x = stage_items(stages, stages.len() as int, after, local, tick, shown);
    let y = spectator_items(stages, after, snapshot.spectators@, local);
    lemma_players_join(x, y, after, a.to_set(), b.to_set());
    let game = game_items(config, race, after, shown, tick);
    lemma_game_items(config, race, after, shown, tick);
    assert(all_of(x + y, 1));
    lemma_families(game, x + y);
    let head = game + (x + y);
    assert(player_items(config, race, after, snapshot, local, tick) =~= head);
    assert forall|i: int| 0 <= i < head.len() implies family((#[trigger] head[i]).obj) <= 1 by {
        if i < game.len() {
            assert(head[i] == game[i]);
        } else {
            assert(head[i] == (x + y)[i - game.len()]);
        }
    }
    lemma_kept_objects(objects, seen);
    if let Some(stage) = shown {
        lemma_shown_stage(snapshot, local, 0);
        lemma_entity_items(kept_objects(objects, seen), seen, stage, tick);
    }
    lemma_families(head, entities);
    lemma_effect_items(effects);
    lemma_families(head + entities, effect_items(effects));
}

/// The stage that is shown is one of the snapshot's.
proof fn lemma_shown_stage(snapshot: Snapshot, local: u64, i: int)
    requires
        snapshot_valid(snapshot),
        0 <= i,
    ensures
        crate::legacy::snapshot::first_stage(snapshot, local, i) matches Some(stage)
            ==> stage_valid(stage),
        stage_shown(snapshot, local) is Some && crate::legacy::snapshot::first_stage(
            snapshot,
            local,
            0,
        ) is None ==> stage_valid(stage_shown(snapshot, local)->0),
    decreases snapshot.stages@.len() - i,
{
    if i < snapshot.stages@.len() {
        assert(stage_valid(snapshot.stages@[i]));
        lemma_shown_stage(snapshot, local, i + 1);
    }
}

/// What events leave for the next snapshot are event objects, and never too
/// many.
pub proof fn pending_objects_are_events(
    players: Map<u64, u16>,
    effects: Seq<SnapObj>,
    events: Seq<WorldEvent>,
)
    requires
        effects_valid(effects),
    ensures
        effects_valid(translated_events(players, effects, events).0),
    decreases events.len(),
{
    if events.len() > 0 {
        pending_objects_are_events(players, effects, events.drop_last());
        let before = translated_events(players, effects, events.drop_last()).0;
        let event = events.last();
        let all = match pending_object(players, event) {
            Some(obj) => before.push(obj),
            None => before,
        };
        assert forall|i: int| 0 <= i < all.len() implies family(#[trigger] all[i]) == 4 by {
            if i < before.len() {
                assert(all[i] == before[i]);
            }
        }
        let after = effects_after(players, before, event);
        assert forall|i: int| 0 <= i < after.len() implies family(#[trigger] after[i]) == 4 by {
            assert(after[i] == all[all.len() - after.len() + i]);
        }
    }
}

} // verus!
