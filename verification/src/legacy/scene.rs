//! What a snapshot that was built says about the match, the entities and the
//! events.
use crate::legacy::objects::{
    FlagObj, GameData, GameInfo, GameInfoEx, LaserObj, PickupObj, ProjectileObj, SnapItem, SnapObj,
    Weapon,
};
use crate::legacy::character::spectator_item;
use crate::legacy::picture::{
    about_player, block, can_build, in_blocks, is_ago, is_entity, is_event, is_limited, is_shown,
    is_weapon, lemma_block, lemma_entities_are_entities, lemma_not_others, lemma_parts, lemma_shown,
    lemma_spectator_block,
};
use crate::legacy::slots::{has_object, lemma_kept_objects, lemma_placed};
use crate::legacy::snapshot::{
    effect_items, flag_item, flying_entities, game_items, kept_objects, laser_entities,
    laser_entity, objects_after, pickup_entity, placed, projectile_entity, race_projectile_entity,
    stage_shown, Entity, ObjectSlot, SnapshotError, Snapshots,
};
use crate::legacy::unique::{lemma_placed_as, object_type, snapshot_holds_each_object_once};
use crate::legacy::world::{
    Flag, Laser, MatchType, Pickup, PickupType, Projectile, RaceProjectile, Snapshot, Stage,
    WeaponWithProjectile,
};
use vstd::prelude::*;

verus! {

/// An item of a snapshot.
pub open spec fn item(id: u16, obj: SnapObj) -> SnapItem {
    SnapItem { id, obj }
}

/// The object describes the match.
pub open spec fn about_match(obj: SnapObj) -> bool {
    obj is GameInfo || obj is GameInfoEx || obj is GameData
}

proof fn lemma_not_about_players<P: Fn(&Vec<SnapItem>) -> bool>(
    s: &mut Snapshots,
    snapshot: Snapshot,
    local: u64,
    tick: i32,
    effects: Vec<SnapObj>,
    pack: P,
    items: Vec<SnapItem>,
    x: SnapItem,
)
    requires
        call_ensures(
            Snapshots::build::<P>,
            (s, &snapshot, local, tick, &effects, pack),
            Ok::<Vec<SnapItem>, SnapshotError>(items),
        ),
        can_build(*old(s), snapshot, effects@),
        items@.contains(x),
        !about_player(x.obj),
    ensures
        ({
            let players = final(s).players@;
            let shown = stage_shown(snapshot, local);
            let entities = objects_after(
                old(s).objects@,
                old(s).latest_tick,
                snapshot,
                local,
                tick,
            ).1->0;
            ||| game_items(old(s).game_config, old(s).race, players, shown, tick).contains(x)
            ||| entities.contains(x)
            ||| effect_items(effects@).contains(x)
        }),
{
    let players = final(s).players@;
    let stages = snapshot.stages@;
    let shown = stage_shown(snapshot, local);
    lemma_parts(s, snapshot, local, tick, effects, pack, items, x);
    if in_blocks(stages, stages.len() as int, players, local, tick, shown, x) {
        let (i, j) = choose|i: int, j: int|
            #![trigger stages[i].characters@[j]]
            {
                &&& 0 <= i < stages.len()
                &&& 0 <= j < stages[i].characters@.len()
                &&& block(
                    stages,
                    players,
                    stages[i].characters@[j],
                    local,
                    tick,
                    shown matches Some(s) && s.id == stages[i].id,
                    j,
                ).contains(x)
            };
        lemma_block(
            stages,
            players,
            stages[i].characters@[j],
            local,
            tick,
            shown matches Some(s) && s.id == stages[i].id,
            j,
            x,
        );
    }
    assert forall|k: int| 0 <= k < snapshot.spectators@.len() implies !spectator_item(
        stages,
        players,
        #[trigger] snapshot.spectators@[k],
        local,
    ).contains(x) by {
        let p = snapshot.spectators@[k];
        if spectator_item(stages, players, p, local).contains(x) {
            lemma_spectator_block(stages, players, p, local, x);
        }
    }
}

proof fn lemma_match<P: Fn(&Vec<SnapItem>) -> bool>(
    s: &mut Snapshots,
    snapshot: Snapshot,
    local: u64,
    tick: i32,
    effects: Vec<SnapObj>,
    pack: P,
    items: Vec<SnapItem>,
    x: SnapItem,
)
    requires
        call_ensures(
            Snapshots::build::<P>,
            (s, &snapshot, local, tick, &effects, pack),
            Ok::<Vec<SnapItem>, SnapshotError>(items),
        ),
        can_build(*old(s), snapshot, effects@),
        about_match(x.obj),
    ensures
        items@.contains(x) <==> game_items(
            old(s).game_config,
            old(s).race,
            final(s).players@,
            stage_shown(snapshot, local),
            tick,
        ).contains(x),
{
    lemma_parts(s, snapshot, local, tick, effects, pack, items, x);
    if items@.contains(x) {
        lemma_not_about_players(s, snapshot, local, tick, effects, pack, items, x);
        if effect_items(effects@).contains(x) {
            let k = choose|k: int|
                0 <= k < effect_items(effects@).len() && effect_items(effects@)[k] == x;
            assert(is_event(effects@[k]));
        }
        let entities = objects_after(
            old(s).objects@,
            old(s).latest_tick,
            snapshot,
            local,
            tick,
        ).1->0;
        if entities.contains(x) {
            lemma_entities_are_entities(
                old(s).objects@,
                old(s).latest_tick,
                snapshot,
                local,
                tick,
                x,
            );
        }
    }
}

/// Every snapshot describes the match by one object: the kind of the match,
/// its phase, when the round started, and the limits.
pub proof fn match_is_described_as_it_is<P: Fn(&Vec<SnapItem>) -> bool>(
    s: &mut Snapshots,
    snapshot: Snapshot,
    local: u64,
    tick: i32,
    effects: Vec<SnapObj>,
    pack: P,
    items: Vec<SnapItem>,
    shown: int,
)
    requires
        call_ensures(
            Snapshots::build::<P>,
            (s, &snapshot, local, tick, &effects, pack),
            Ok::<Vec<SnapItem>, SnapshotError>(items),
        ),
        can_build(*old(s), snapshot, effects@),
        is_shown(snapshot, local, shown),
    ensures
        exists|o: GameInfo| items@.contains(#[trigger] item(0, SnapObj::GameInfo(o))),
        forall|id: u16, o: GameInfo|
            items@.contains(#[trigger] item(id, SnapObj::GameInfo(o))) ==> {
                let stage = snapshot.stages@[shown];
                &&& id == 0
                &&& 0 <= o.game_flags <= 3
                &&& o.game_flags % 2 == 1 <==> stage.game_match.ty is Sided
                &&& o.game_flags >= 2 <==> stage.red_flags@.len() > 0 || stage.blue_flags@.len() > 0
                &&& stage.game_match.phase is Running ==> o.game_state_flags == 0
                &&& stage.game_match.phase is GameOver ==> o.game_state_flags == 1
                &&& stage.game_match.phase is SuddenDeath ==> o.game_state_flags == 2
                &&& stage.game_match.phase is Paused ==> o.game_state_flags == 4
                &&& stage.game_match.phase is PausedSuddenDeath ==> o.game_state_flags == 6
                &&& is_ago(o.round_start_tick, tick, stage.game_match.passed_ticks)
                &&& is_limited(o.score_limit, old(s).game_config.score_limit as int)
                &&& o.time_limit < i32::MAX ==> 60 * o.time_limit
                    >= old(s).game_config.time_limit_secs
                &&& 60 * (o.time_limit - 1) < old(s).game_config.time_limit_secs
                &&& o.time_limit >= 0
                &&& o.warmup_timer == 0 && o.round_num == 0 && o.round_current == 1
            },
{
    lemma_shown(snapshot, local, shown);
    let all = game_items(
        old(s).game_config,
        old(s).race,
        final(s).players@,
        stage_shown(snapshot, local),
        tick,
    );
    let x = all[0];
    assert(all.contains(x));
    assert(x == item(0, SnapObj::GameInfo(x.obj->GameInfo_0)));
    lemma_match(s, snapshot, local, tick, effects, pack, items, x);
    assert forall|id: u16, o: GameInfo|
        items@.contains(#[trigger] item(id, SnapObj::GameInfo(o))) implies item(
        id,
        SnapObj::GameInfo(o),
    ) == x by {
        let y = item(id, SnapObj::GameInfo(o));
        lemma_match(s, snapshot, local, tick, effects, pack, items, y);
        let k = choose|k: int| 0 <= k < all.len() && all[k] == y;
        assert(k == 0);
    }
}

/// Every snapshot says whether the game is a race, and what clients predict.
pub proof fn game_type_is_described_as_it_is<P: Fn(&Vec<SnapItem>) -> bool>(
    s: &mut Snapshots,
    snapshot: Snapshot,
    local: u64,
    tick: i32,
    effects: Vec<SnapObj>,
    pack: P,
    items: Vec<SnapItem>,
)
    requires
        call_ensures(
            Snapshots::build::<P>,
            (s, &snapshot, local, tick, &effects, pack),
            Ok::<Vec<SnapItem>, SnapshotError>(items),
        ),
        can_build(*old(s), snapshot, effects@),
    ensures
        exists|o: GameInfoEx| items@.contains(#[trigger] item(0, SnapObj::GameInfoEx(o))),
        forall|id: u16, o: GameInfoEx|
            items@.contains(#[trigger] item(id, SnapObj::GameInfoEx(o))) ==> {
                let race = old(s).race;
                &&& id == 0
                &&& o.gametype_ddrace == race && o.gametype_ddnet == race
                &&& o.gametype_vanilla == !race
                &&& o.predict_ddrace == race && o.predict_ddrace_tiles == race
                &&& o.predict_vanilla == !race
                &&& o.entities_ddnet == race
                &&& o.version == 6
                &&& o.flags2 == 0
            },
{
    let all = game_items(
        old(s).game_config,
        old(s).race,
        final(s).players@,
        stage_shown(snapshot, local),
        tick,
    );
    let x = all[1];
    assert(all.contains(x));
    assert(x == item(0, SnapObj::GameInfoEx(x.obj->GameInfoEx_0)));
    lemma_match(s, snapshot, local, tick, effects, pack, items, x);
    assert forall|id: u16, o: GameInfoEx|
        items@.contains(#[trigger] item(id, SnapObj::GameInfoEx(o))) implies item(
        id,
        SnapObj::GameInfoEx(o),
    ) == x by {
        let y = item(id, SnapObj::GameInfoEx(o));
        lemma_match(s, snapshot, local, tick, effects, pack, items, y);
        let k = choose|k: int| 0 <= k < all.len() && all[k] == y;
        assert(k == 1);
    }
}

/// `r` says who carries the first of the flags: a slot, -1 if it lies on the
/// ground, -2 if it stands at its place, -3 if there is none.
pub open spec fn tells_carrier(r: i32, flags: Seq<Flag>, players: Map<u64, u16>) -> bool {
    &&& flags.len() == 0 ==> r == -3
    &&& flags.len() > 0 ==> {
        let carried = flags[0].carrier matches Some(id) && players.contains_key(id);
        &&& carried ==> r == players[flags[0].carrier->0]
        &&& !carried && flags[0].dropped ==> r == -1
        &&& !carried && !flags[0].dropped ==> r == -2
    }
}

/// A snapshot tells the scores of the sides and who carries the flags.
pub proof fn scores_and_carriers_are_told<P: Fn(&Vec<SnapItem>) -> bool>(
    s: &mut Snapshots,
    snapshot: Snapshot,
    local: u64,
    tick: i32,
    effects: Vec<SnapObj>,
    pack: P,
    items: Vec<SnapItem>,
    shown: int,
)
    requires
        call_ensures(
            Snapshots::build::<P>,
            (s, &snapshot, local, tick, &effects, pack),
            Ok::<Vec<SnapItem>, SnapshotError>(items),
        ),
        can_build(*old(s), snapshot, effects@),
        is_shown(snapshot, local, shown),
    ensures
        exists|o: GameData| items@.contains(#[trigger] item(0, SnapObj::GameData(o))),
        forall|id: u16, o: GameData|
            items@.contains(#[trigger] item(id, SnapObj::GameData(o))) ==> {
                let stage = snapshot.stages@[shown];
                &&& id == 0
                &&& stage.game_match.ty matches MatchType::Sided { red, blue } ==> is_limited(
                    o.teamscore_red,
                    red as int,
                ) && is_limited(o.teamscore_blue, blue as int)
                &&& stage.game_match.ty is Solo ==> o.teamscore_red == 0 && o.teamscore_blue == 0
                &&& tells_carrier(o.flag_carrier_red, stage.red_flags@, final(s).players@)
                &&& tells_carrier(o.flag_carrier_blue, stage.blue_flags@, final(s).players@)
            },
{
    lemma_shown(snapshot, local, shown);
    let all = game_items(
        old(s).game_config,
        old(s).race,
        final(s).players@,
        stage_shown(snapshot, local),
        tick,
    );
    let x = all[2];
    assert(all.contains(x));
    assert(x == item(0, SnapObj::GameData(x.obj->GameData_0)));
    lemma_match(s, snapshot, local, tick, effects, pack, items, x);
    assert forall|id: u16, o: GameData|
        items@.contains(#[trigger] item(id, SnapObj::GameData(o))) implies item(
        id,
        SnapObj::GameData(o),
    ) == x by {
        let y = item(id, SnapObj::GameData(o));
        lemma_match(s, snapshot, local, tick, effects, pack, items, y);
        let k = choose|k: int| 0 <= k < all.len() && all[k] == y;
        assert(k == 2);
    }
}

/// The entity is in the snapshot, under the id that the table has for it.
spec fn is_placed(items: Seq<SnapItem>, table: Seq<ObjectSlot>, e: Entity) -> bool {
    exists|slot: u16| #[trigger]
        has_object(table, e.kind, e.id, slot) && items.contains(item(slot, e.obj))
}

proof fn lemma_entities<P: Fn(&Vec<SnapItem>) -> bool>(
    s: &mut Snapshots,
    snapshot: Snapshot,
    local: u64,
    tick: i32,
    effects: Vec<SnapObj>,
    pack: P,
    items: Vec<SnapItem>,
    shown: int,
    x: SnapItem,
)
    requires
        call_ensures(
            Snapshots::build::<P>,
            (s, &snapshot, local, tick, &effects, pack),
            Ok::<Vec<SnapItem>, SnapshotError>(items),
        ),
        can_build(*old(s), snapshot, effects@),
        is_shown(snapshot, local, shown),
    ensures
        ({
            let stage = snapshot.stages@[shown];
            let todo = flying_entities(stage, tick) + laser_entities(stage, tick);
            let table = final(s).objects@;
            &&& forall|q: int|
                0 <= q < todo.len() ==> is_placed(items@, table, #[trigger] todo[q])
            &&& items@.contains(x) && is_entity(x.obj) ==> {
                ||| exists|q: int|
                    0 <= q < todo.len() && (#[trigger] todo[q]).obj == x.obj && has_object(
                        table,
                        todo[q].kind,
                        todo[q].id,
                        x.id,
                    )
                ||| flag_item(stage.red_flags@, 0).contains(x)
                ||| flag_item(stage.blue_flags@, 1).contains(x)
            }
            &&& flag_item(stage.red_flags@, 0).contains(x) ==> items@.contains(x)
            &&& flag_item(stage.blue_flags@, 1).contains(x) ==> items@.contains(x)
        }),
{
    let stage = snapshot.stages@[shown];
    let seen = old(s).latest_tick;
    lemma_shown(snapshot, local, shown);
    lemma_parts(s, snapshot, local, tick, effects, pack, items, x);
    lemma_kept_objects(old(s).objects@, seen);
    let kept = kept_objects(old(s).objects@, seen);
    let flying = flying_entities(stage, tick);
    let lasers = laser_entities(stage, tick);
    let todo = flying + lasers;
    let table = final(s).objects@;
    lemma_placed(kept, seen, flying);
    lemma_placed_as(kept, seen, flying);
    let (next, first) = placed(kept, seen, flying);
    lemma_placed(next, seen, lasers);
    lemma_placed_as(next, seen, lasers);
    let a = first->0;
    let red = flag_item(stage.red_flags@, 0);
    let blue = flag_item(stage.blue_flags@, 1);
    let c = placed(next, seen, lasers).1->0;
    let entities = objects_after(old(s).objects@, seen, snapshot, local, tick).1->0;
    assert(entities =~= a + red + blue + c);
    let start = items@.len() - effects@.len() - entities.len();
    assert forall|k: int| 0 <= k < entities.len() implies items@.contains(
        #[trigger] entities[k],
    ) by {
        assert(effect_items(effects@).len() == effects@.len());
        assert(items@[start + k] == entities[k]);
    }
    assert forall|q: int| 0 <= q < todo.len() implies is_placed(
        items@,
        table,
        #[trigger] todo[q],
    ) by {
        if q < flying.len() {
            assert(todo[q] == flying[q]);
            assert(entities[q] == a[q]);
            assert(a[q] == item(a[q].id, flying[q].obj));
            assert(has_object(next, flying[q].kind, flying[q].id, a[q].id));
            assert(has_object(table, flying[q].kind, flying[q].id, a[q].id));
        } else {
            let m = q - flying.len();
            assert(todo[q] == lasers[m]);
            assert(entities[a.len() + red.len() + blue.len() + m] == c[m]);
            assert(c[m] == item(c[m].id, lasers[m].obj));
            assert(has_object(table, lasers[m].kind, lasers[m].id, c[m].id));
        }
    }
    if red.contains(x) {
        assert(entities[a.len() as int] == x);
    }
    if blue.contains(x) {
        assert(entities[(a.len() + red.len()) as int] == x);
    }
    if items@.contains(x) && is_entity(x.obj) {
        lemma_not_about_players(s, snapshot, local, tick, effects, pack, items, x);
        if effect_items(effects@).contains(x) {
            let k = choose|k: int|
                0 <= k < effect_items(effects@).len() && effect_items(effects@)[k] == x;
            assert(is_event(effects@[k]));
        }
        assert(entities.contains(x));
        let k = choose|k: int| 0 <= k < entities.len() && entities[k] == x;
        if k < a.len() {
            assert(x == a[k]);
            assert(todo[k] == flying[k]);
            assert(has_object(next, flying[k].kind, flying[k].id, a[k].id));
            assert(has_object(table, todo[k].kind, todo[k].id, x.id));
        } else if k < a.len() + red.len() {
            assert(red[k - a.len()] == x);
        } else if k < a.len() + red.len() + blue.len() {
            assert(blue[k - a.len() - red.len()] == x);
        } else {
            let m = k - a.len() - red.len() - blue.len();
            assert(c[m] == x);
            assert(todo[flying.len() + m] == lasers[m]);
            assert(has_object(table, lasers[m].kind, lasers[m].id, c[m].id));
        }
    }
}

/// A projectile is shown where it is, as it flies. It starts one tick ago, so
/// that short-lived ones are seen.
pub open spec fn shows_projectile(o: ProjectileObj, p: Projectile, tick: i32) -> bool {
    &&& o.x == p.x && o.y == p.y
    &&& o.vel_x == p.vel_x && o.vel_y == p.vel_y
    &&& shows_weapon(o.type_, p.ty)
    &&& is_ago(o.start_tick, tick, 1)
}

pub open spec fn shows_weapon(w: Weapon, ty: WeaponWithProjectile) -> bool {
    &&& w == Weapon::Pistol <==> ty == WeaponWithProjectile::Gun
    &&& w == Weapon::Shotgun <==> ty == WeaponWithProjectile::Shotgun
    &&& w == Weapon::Grenade <==> ty == WeaponWithProjectile::Grenade
}

/// A projectile of a race is shown from where it started, and started as long
/// ago as it has lived.
pub open spec fn shows_race_projectile(o: ProjectileObj, p: RaceProjectile, tick: i32) -> bool {
    &&& o.x == p.start.x.cut && o.y == p.start.y.cut
    &&& o.vel_x == p.vel_x && o.vel_y == p.vel_y
    &&& shows_weapon(o.type_, p.ty)
    &&& p.life_span is None ==> o.start_tick == tick
    &&& p.life_span matches Some(span) ==> {
        &&& p.life_left is None ==> is_ago(o.start_tick, tick, span)
        &&& p.life_left matches Some(left) ==> {
            &&& left <= span ==> is_ago(o.start_tick, tick, (span - left) as u64)
            &&& left > span ==> o.start_tick == tick
        }
    }
}

/// A pickup is shown where it is, as what it is. Shields show as armor.
pub open spec fn shows_pickup(o: PickupObj, p: Pickup) -> bool {
    &&& o.x == p.pos.x.cut && o.y == p.pos.y.cut
    &&& 0 <= o.type_ <= 3
    &&& o.type_ == 0 <==> p.ty is Health
    &&& o.type_ == 1 <==> p.ty is Armor || p.ty is WeaponShield || p.ty is NinjaShield
    &&& o.type_ == 2 <==> p.ty is Weapon
    &&& o.type_ == 3 <==> p.ty is Ninja
    &&& p.ty matches PickupType::Weapon(w) ==> is_weapon(o.subtype, w)
    &&& !(p.ty is Weapon) ==> o.subtype == 0
}

/// A laser is shown between its two ends, since it was fired.
pub open spec fn shows_laser(o: LaserObj, l: Laser, tick: i32) -> bool {
    &&& o.x == l.pos.x.cut && o.y == l.pos.y.cut
    &&& o.from_x == l.from.x.cut && o.from_y == l.from.y.cut
    &&& l.age matches Some(age) ==> is_ago(o.start_tick, tick, age)
    &&& l.age is None ==> o.start_tick == tick
}

/// Every projectile of the stage that is shown is in the snapshot, under the
/// id that the table has for it.
pub proof fn projectiles_are_shown_where_they_are<P: Fn(&Vec<SnapItem>) -> bool>(
    s: &mut Snapshots,
    snapshot: Snapshot,
    local: u64,
    tick: i32,
    effects: Vec<SnapObj>,
    pack: P,
    items: Vec<SnapItem>,
    shown: int,
    k: int,
)
    requires
        call_ensures(
            Snapshots::build::<P>,
            (s, &snapshot, local, tick, &effects, pack),
            Ok::<Vec<SnapItem>, SnapshotError>(items),
        ),
        can_build(*old(s), snapshot, effects@),
        is_shown(snapshot, local, shown),
        0 <= k < snapshot.stages@[shown].projectiles@.len(),
    ensures
        exists|slot: u16, o: ProjectileObj|
            #![trigger item(slot, SnapObj::Projectile(o))]
            {
                &&& has_object(
                    final(s).objects@,
                    1,
                    snapshot.stages@[shown].projectiles@[k].id,
                    slot,
                )
                &&& items@.contains(item(slot, SnapObj::Projectile(o)))
                &&& shows_projectile(o, snapshot.stages@[shown].projectiles@[k], tick)
            },
{
    let stage = snapshot.stages@[shown];
    lemma_entities(s, snapshot, local, tick, effects, pack, items, shown, arbitrary());
    let todo = flying_entities(stage, tick) + laser_entities(stage, tick);
    let e = projectile_entity(stage.projectiles@[k], tick);
    let at = k;
    assert(todo[at] == e);
    assert(is_placed(items@, final(s).objects@, todo[at]));
    let slot = choose|slot: u16| #[trigger]
        has_object(final(s).objects@, e.kind, e.id, slot) && items@.contains(item(slot, e.obj));
    assert(items@.contains(item(slot, SnapObj::Projectile(e.obj->Projectile_0))));
}

/// Every race projectile of the stage that is shown is in the snapshot, under
/// the id that the table has for it.
pub proof fn race_projectiles_are_shown_since_they_started<P: Fn(&Vec<SnapItem>) -> bool>(
    s: &mut Snapshots,
    snapshot: Snapshot,
    local: u64,
    tick: i32,
    effects: Vec<SnapObj>,
    pack: P,
    items: Vec<SnapItem>,
    shown: int,
    k: int,
)
    requires
        call_ensures(
            Snapshots::build::<P>,
            (s, &snapshot, local, tick, &effects, pack),
            Ok::<Vec<SnapItem>, SnapshotError>(items),
        ),
        can_build(*old(s), snapshot, effects@),
        is_shown(snapshot, local, shown),
        0 <= k < snapshot.stages@[shown].race_projectiles@.len(),
    ensures
        exists|slot: u16, o: ProjectileObj|
            #![trigger item(slot, SnapObj::Projectile(o))]
            {
                &&& has_object(
                    final(s).objects@,
                    3,
                    snapshot.stages@[shown].race_projectiles@[k].id,
                    slot,
                )
                &&& items@.contains(item(slot, SnapObj::Projectile(o)))
                &&& shows_race_projectile(o, snapshot.stages@[shown].race_projectiles@[k], tick)
            },
{
    let stage = snapshot.stages@[shown];
    lemma_entities(s, snapshot, local, tick, effects, pack, items, shown, arbitrary());
    let todo = flying_entities(stage, tick) + laser_entities(stage, tick);
    let e = race_projectile_entity(stage.race_projectiles@[k], tick);
    let at = stage.projectiles@.len() + k;
    assert(todo[at] == e);
    assert(is_placed(items@, final(s).objects@, todo[at]));
    let slot = choose|slot: u16| #[trigger]
        has_object(final(s).objects@, e.kind, e.id, slot) && items@.contains(item(slot, e.obj));
    assert(items@.contains(item(slot, SnapObj::Projectile(e.obj->Projectile_0))));
}

/// Every pickup of the stage that is shown is in the snapshot, under the id
/// that the table has for it.
pub proof fn pickups_are_shown_as_what_they_are<P: Fn(&Vec<SnapItem>) -> bool>(
    s: &mut Snapshots,
    snapshot: Snapshot,
    local: u64,
    tick: i32,
    effects: Vec<SnapObj>,
    pack: P,
    items: Vec<SnapItem>,
    shown: int,
    k: int,
)
    requires
        call_ensures(
            Snapshots::build::<P>,
            (s, &snapshot, local, tick, &effects, pack),
            Ok::<Vec<SnapItem>, SnapshotError>(items),
        ),
        can_build(*old(s), snapshot, effects@),
        is_shown(snapshot, local, shown),
        0 <= k < snapshot.stages@[shown].pickups@.len(),
    ensures
        exists|slot: u16, o: PickupObj|
            #![trigger item(slot, SnapObj::Pickup(o))]
            {
                &&& has_object(
                    final(s).objects@,
                    4,
                    snapshot.stages@[shown].pickups@[k].id,
                    slot,
                )
                &&& items@.contains(item(slot, SnapObj::Pickup(o)))
                &&& shows_pickup(o, snapshot.stages@[shown].pickups@[k])
            },
{
    let stage = snapshot.stages@[shown];
    lemma_entities(s, snapshot, local, tick, effects, pack, items, shown, arbitrary());
    let todo = flying_entities(stage, tick) + laser_entities(stage, tick);
    let e = pickup_entity(stage.pickups@[k]);
    let at = stage.projectiles@.len() + stage.race_projectiles@.len() + k;
    assert(todo[at] == e);
    assert(is_placed(items@, final(s).objects@, todo[at]));
    let slot = choose|slot: u16| #[trigger]
        has_object(final(s).objects@, e.kind, e.id, slot) && items@.contains(item(slot, e.obj));
    assert(items@.contains(item(slot, SnapObj::Pickup(e.obj->Pickup_0))));
}

/// Every laser of the stage that is shown is in the snapshot, under the id
/// that the table has for it.
pub proof fn lasers_are_shown_between_their_ends<P: Fn(&Vec<SnapItem>) -> bool>(
    s: &mut Snapshots,
    snapshot: Snapshot,
    local: u64,
    tick: i32,
    effects: Vec<SnapObj>,
    pack: P,
    items: Vec<SnapItem>,
    shown: int,
    k: int,
)
    requires
        call_ensures(
            Snapshots::build::<P>,
            (s, &snapshot, local, tick, &effects, pack),
            Ok::<Vec<SnapItem>, SnapshotError>(items),
        ),
        can_build(*old(s), snapshot, effects@),
        is_shown(snapshot, local, shown),
        0 <= k < snapshot.stages@[shown].lasers@.len(),
    ensures
        exists|slot: u16, o: LaserObj|
            #![trigger item(slot, SnapObj::Laser(o))]
            {
                &&& has_object(
                    final(s).objects@,
                    2,
                    snapshot.stages@[shown].lasers@[k].id,
                    slot,
                )
                &&& items@.contains(item(slot, SnapObj::Laser(o)))
                &&& shows_laser(o, snapshot.stages@[shown].lasers@[k], tick)
            },
{
    let stage = snapshot.stages@[shown];
    lemma_entities(s, snapshot, local, tick, effects, pack, items, shown, arbitrary());
    let todo = flying_entities(stage, tick) + laser_entities(stage, tick);
    let e = laser_entity(stage.lasers@[k], tick);
    let at = flying_entities(stage, tick).len() + k;
    assert(todo[at] == e);
    assert(is_placed(items@, final(s).objects@, todo[at]));
    let slot = choose|slot: u16| #[trigger]
        has_object(final(s).objects@, e.kind, e.id, slot) && items@.contains(item(slot, e.obj));
    assert(items@.contains(item(slot, SnapObj::Laser(e.obj->Laser_0))));
}

proof fn lemma_kinds(stage: Stage, tick: i32, q: int)
    requires
        0 <= q < flying_entities(stage, tick).len() + stage.lasers@.len(),
    ensures
        ({
            let todo = flying_entities(stage, tick) + laser_entities(stage, tick);
            let a = stage.projectiles@.len() as int;
            let b = a + stage.race_projectiles@.len();
            let c = b + stage.pickups@.len();
            &&& flying_entities(stage, tick).len() == c
            &&& q < a ==> todo[q] == projectile_entity(stage.projectiles@[q], tick)
            &&& a <= q < b ==> todo[q] == race_projectile_entity(
                stage.race_projectiles@[q - a],
                tick,
            )
            &&& b <= q < c ==> todo[q] == pickup_entity(stage.pickups@[q - b])
            &&& c <= q ==> todo[q] == laser_entity(stage.lasers@[q - c], tick)
        }),
{
}

/// What is shown as a projectile is one of the stage that is shown.
pub proof fn only_projectiles_are_shown_as_projectiles<P: Fn(&Vec<SnapItem>) -> bool>(
    s: &mut Snapshots,
    snapshot: Snapshot,
    local: u64,
    tick: i32,
    effects: Vec<SnapObj>,
    pack: P,
    items: Vec<SnapItem>,
    shown: int,
    id: u16,
    o: ProjectileObj,
)
    requires
        call_ensures(
            Snapshots::build::<P>,
            (s, &snapshot, local, tick, &effects, pack),
            Ok::<Vec<SnapItem>, SnapshotError>(items),
        ),
        can_build(*old(s), snapshot, effects@),
        is_shown(snapshot, local, shown),
        items@.contains(item(id, SnapObj::Projectile(o))),
    ensures
        ({
        ||| exists|k: int|
            {
                &&& 0 <= k < snapshot.stages@[shown].projectiles@.len()
                &&& has_object(
                    final(s).objects@,
                    1,
                    (#[trigger] snapshot.stages@[shown].projectiles@[k]).id,
                    id,
                )
                &&& shows_projectile(o, snapshot.stages@[shown].projectiles@[k], tick)
            }
        ||| exists|k: int|
            {
                &&& 0 <= k < snapshot.stages@[shown].race_projectiles@.len()
                &&& has_object(
                    final(s).objects@,
                    3,
                    (#[trigger] snapshot.stages@[shown].race_projectiles@[k]).id,
                    id,
                )
                &&& shows_race_projectile(o, snapshot.stages@[shown].race_projectiles@[k], tick)
            }
        }),
{
    let stage = snapshot.stages@[shown];
    let x = item(id, SnapObj::Projectile(o));
    lemma_entities(s, snapshot, local, tick, effects, pack, items, shown, x);
    let todo = flying_entities(stage, tick) + laser_entities(stage, tick);
    let q = choose|q: int|
        0 <= q < todo.len() && (#[trigger] todo[q]).obj == x.obj && has_object(
            final(s).objects@,
            todo[q].kind,
            todo[q].id,
            x.id,
        );
    lemma_kinds(stage, tick, q);
    if q < stage.projectiles@.len() {
        let k = q - 0int;
        assert(todo[q] == projectile_entity(stage.projectiles@[k], tick));
        assert(todo[q].id == stage.projectiles@[k].id);
    } else {
        let k = q - stage.projectiles@.len();
        assert(todo[q] == race_projectile_entity(stage.race_projectiles@[k], tick));
        assert(todo[q].id == stage.race_projectiles@[k].id);
    }
}

/// What is shown as a pickup is one of the stage that is shown.
pub proof fn only_pickups_are_shown_as_pickups<P: Fn(&Vec<SnapItem>) -> bool>(
    s: &mut Snapshots,
    snapshot: Snapshot,
    local: u64,
    tick: i32,
    effects: Vec<SnapObj>,
    pack: P,
    items: Vec<SnapItem>,
    shown: int,
    id: u16,
    o: PickupObj,
)
    requires
        call_ensures(
            Snapshots::build::<P>,
            (s, &snapshot, local, tick, &effects, pack),
            Ok::<Vec<SnapItem>, SnapshotError>(items),
        ),
        can_build(*old(s), snapshot, effects@),
        is_shown(snapshot, local, shown),
        items@.contains(item(id, SnapObj::Pickup(o))),
    ensures
        exists|k: int|
            {
                &&& 0 <= k < snapshot.stages@[shown].pickups@.len()
                &&& has_object(
                    final(s).objects@,
                    4,
                    (#[trigger] snapshot.stages@[shown].pickups@[k]).id,
                    id,
                )
                &&& shows_pickup(o, snapshot.stages@[shown].pickups@[k])
            },
{
    let stage = snapshot.stages@[shown];
    let x = item(id, SnapObj::Pickup(o));
    lemma_entities(s, snapshot, local, tick, effects, pack, items, shown, x);
    let todo = flying_entities(stage, tick) + laser_entities(stage, tick);
    let q = choose|q: int|
        0 <= q < todo.len() && (#[trigger] todo[q]).obj == x.obj && has_object(
            final(s).objects@,
            todo[q].kind,
            todo[q].id,
            x.id,
        );
    lemma_kinds(stage, tick, q);
    let k = q - (stage.projectiles@.len() + stage.race_projectiles@.len());
    assert(todo[q] == pickup_entity(stage.pickups@[k]));
    assert(todo[q].id == stage.pickups@[k].id);
}

/// What is shown as a laser is one of the stage that is shown.
pub proof fn only_lasers_are_shown_as_lasers<P: Fn(&Vec<SnapItem>) -> bool>(
    s: &mut Snapshots,
    snapshot: Snapshot,
    local: u64,
    tick: i32,
    effects: Vec<SnapObj>,
    pack: P,
    items: Vec<SnapItem>,
    shown: int,
    id: u16,
    o: LaserObj,
)
    requires
        call_ensures(
            Snapshots::build::<P>,
            (s, &snapshot, local, tick, &effects, pack),
            Ok::<Vec<SnapItem>, SnapshotError>(items),
        ),
        can_build(*old(s), snapshot, effects@),
        is_shown(snapshot, local, shown),
        items@.contains(item(id, SnapObj::Laser(o))),
    ensures
        exists|k: int|
            {
                &&& 0 <= k < snapshot.stages@[shown].lasers@.len()
                &&& has_object(
                    final(s).objects@,
                    2,
                    (#[trigger] snapshot.stages@[shown].lasers@[k]).id,
                    id,
                )
                &&& shows_laser(o, snapshot.stages@[shown].lasers@[k], tick)
            },
{
    let stage = snapshot.stages@[shown];
    let x = item(id, SnapObj::Laser(o));
    lemma_entities(s, snapshot, local, tick, effects, pack, items, shown, x);
    let todo = flying_entities(stage, tick) + laser_entities(stage, tick);
    let q = choose|q: int|
        0 <= q < todo.len() && (#[trigger] todo[q]).obj == x.obj && has_object(
            final(s).objects@,
            todo[q].kind,
            todo[q].id,
            x.id,
        );
    lemma_kinds(stage, tick, q);
    let k = q - flying_entities(stage, tick).len();
    assert(todo[q] == laser_entity(stage.lasers@[k], tick));
    assert(todo[q].id == stage.lasers@[k].id);
}

/// The first flag of each side of the stage that is shown is in the snapshot,
/// where it is: the red one under id 0, the blue one under id 1. There are no
/// other flags.
pub proof fn flags_are_shown_where_they_are<P: Fn(&Vec<SnapItem>) -> bool>(
    s: &mut Snapshots,
    snapshot: Snapshot,
    local: u64,
    tick: i32,
    effects: Vec<SnapObj>,
    pack: P,
    items: Vec<SnapItem>,
    shown: int,
    id: u16,
    o: FlagObj,
)
    requires
        call_ensures(
            Snapshots::build::<P>,
            (s, &snapshot, local, tick, &effects, pack),
            Ok::<Vec<SnapItem>, SnapshotError>(items),
        ),
        can_build(*old(s), snapshot, effects@),
        is_shown(snapshot, local, shown),
    ensures
        ({
            let red = snapshot.stages@[shown].red_flags@;
            let blue = snapshot.stages@[shown].blue_flags@;
            items@.contains(item(id, SnapObj::Flag(o))) <==> {
                ||| red.len() > 0 && id == 0 && o.team == 0 && o.x == red[0].pos.x.cut && o.y
                    == red[0].pos.y.cut
                ||| blue.len() > 0 && id == 1 && o.team == 1 && o.x == blue[0].pos.x.cut && o.y
                    == blue[0].pos.y.cut
            }
        }),
{
    let stage = snapshot.stages@[shown];
    let x = item(id, SnapObj::Flag(o));
    lemma_entities(s, snapshot, local, tick, effects, pack, items, shown, x);
    let red = flag_item(stage.red_flags@, 0);
    let blue = flag_item(stage.blue_flags@, 1);
    if red.len() > 0 {
        assert(red.contains(red[0]));
    }
    if blue.len() > 0 {
        assert(blue.contains(blue[0]));
    }
    let todo = flying_entities(stage, tick) + laser_entities(stage, tick);
    assert forall|q: int| 0 <= q < todo.len() implies (#[trigger] todo[q]).obj != x.obj by {
        lemma_kinds(stage, tick, q);
    }
}

/// The events are in the snapshot as they are, numbered in order, and there
/// are no others.
pub proof fn events_are_shown_as_they_are<P: Fn(&Vec<SnapItem>) -> bool>(
    s: &mut Snapshots,
    snapshot: Snapshot,
    local: u64,
    tick: i32,
    effects: Vec<SnapObj>,
    pack: P,
    items: Vec<SnapItem>,
    x: SnapItem,
)
    requires
        call_ensures(
            Snapshots::build::<P>,
            (s, &snapshot, local, tick, &effects, pack),
            Ok::<Vec<SnapItem>, SnapshotError>(items),
        ),
        can_build(*old(s), snapshot, effects@),
        is_event(x.obj),
    ensures
        items@.contains(x) <==> x.id < effects@.len() && x.obj == effects@[x.id as int],
{
    lemma_parts(s, snapshot, local, tick, effects, pack, items, x);
    let events = effect_items(effects@);
    if x.id < effects@.len() && x.obj == effects@[x.id as int] {
        assert(events[x.id as int] == x);
        assert(events.contains(x));
    }
    if items@.contains(x) {
        lemma_not_about_players(s, snapshot, local, tick, effects, pack, items, x);
        let entities = objects_after(
            old(s).objects@,
            old(s).latest_tick,
            snapshot,
            local,
            tick,
        ).1->0;
        if entities.contains(x) {
            lemma_entities_are_entities(
                old(s).objects@,
                old(s).latest_tick,
                snapshot,
                local,
                tick,
                x,
            );
        }
        assert(events.contains(x));
        let k = choose|k: int| 0 <= k < events.len() && events[k] == x;
        assert(events[k].obj == effects@[k]);
    }
}

/// A snapshot that is built holds no object twice.
pub proof fn built_snapshot_holds_each_object_once<P: Fn(&Vec<SnapItem>) -> bool>(
    s: &mut Snapshots,
    snapshot: Snapshot,
    local: u64,
    tick: i32,
    effects: Vec<SnapObj>,
    pack: P,
    items: Vec<SnapItem>,
    a: int,
    b: int,
)
    requires
        call_ensures(
            Snapshots::build::<P>,
            (s, &snapshot, local, tick, &effects, pack),
            Ok::<Vec<SnapItem>, SnapshotError>(items),
        ),
        can_build(*old(s), snapshot, effects@),
        0 <= a < b < items@.len(),
        object_type(items@[a].obj) == object_type(items@[b].obj),
    ensures
        items@[a].id != items@[b].id,
{
    lemma_parts(s, snapshot, local, tick, effects, pack, items, arbitrary());
    snapshot_holds_each_object_once(
        old(s).game_config,
        old(s).race,
        old(s).players@,
        old(s).player_seen@,
        old(s).objects@,
        old(s).latest_tick,
        snapshot,
        local,
        tick,
        effects@,
    );
}

/// What is told about a player is told of one that the snapshot has.
pub proof fn only_players_of_the_snapshot_are_described<P: Fn(&Vec<SnapItem>) -> bool>(
    s: &mut Snapshots,
    snapshot: Snapshot,
    local: u64,
    tick: i32,
    effects: Vec<SnapObj>,
    pack: P,
    items: Vec<SnapItem>,
    x: SnapItem,
)
    requires
        call_ensures(
            Snapshots::build::<P>,
            (s, &snapshot, local, tick, &effects, pack),
            Ok::<Vec<SnapItem>, SnapshotError>(items),
        ),
        can_build(*old(s), snapshot, effects@),
        items@.contains(x),
        about_player(x.obj),
    ensures
        ({
            let players = final(s).players@;
            ||| exists|i: int, j: int|
                #![trigger snapshot.stages@[i].characters@[j]]
                0 <= i < snapshot.stages@.len() && 0 <= j < snapshot.stages@[i].characters@.len()
                    && players[snapshot.stages@[i].characters@[j].id] == x.id
            ||| exists|k: int|
                0 <= k < snapshot.spectators@.len() && players[(
                #[trigger] snapshot.spectators@[k]).id] == x.id
        }),
{
    let players = final(s).players@;
    let stages = snapshot.stages@;
    let shown = stage_shown(snapshot, local);
    lemma_parts(s, snapshot, local, tick, effects, pack, items, x);
    lemma_not_others(s, snapshot, local, tick, effects, x);
    if in_blocks(stages, stages.len() as int, players, local, tick, shown, x) {
        let (i, j) = choose|i: int, j: int|
            #![trigger stages[i].characters@[j]]
            {
                &&& 0 <= i < stages.len()
                &&& 0 <= j < stages[i].characters@.len()
                &&& block(
                    stages,
                    players,
                    stages[i].characters@[j],
                    local,
                    tick,
                    shown matches Some(s) && s.id == stages[i].id,
                    j,
                ).contains(x)
            };
        lemma_block(
            stages,
            players,
            stages[i].characters@[j],
            local,
            tick,
            shown matches Some(s) && s.id == stages[i].id,
            j,
            x,
        );
        assert(players[snapshot.stages@[i].characters@[j].id] == x.id);
    } else {
        let k = choose|k: int|
            0 <= k < snapshot.spectators@.len() && spectator_item(
                stages,
                players,
                #[trigger] snapshot.spectators@[k],
                local,
            ).contains(x);
        lemma_spectator_block(stages, players, snapshot.spectators@[k], local, x);
        assert(players[snapshot.spectators@[k].id] == x.id);
    }
}

/// Of a snapshot without stages nothing is shown: the match has no flags and
/// has not started, and there are neither scores nor entities.
pub proof fn nothing_is_shown_without_a_stage<P: Fn(&Vec<SnapItem>) -> bool>(
    s: &mut Snapshots,
    snapshot: Snapshot,
    local: u64,
    tick: i32,
    effects: Vec<SnapObj>,
    pack: P,
    items: Vec<SnapItem>,
    x: SnapItem,
)
    requires
        call_ensures(
            Snapshots::build::<P>,
            (s, &snapshot, local, tick, &effects, pack),
            Ok::<Vec<SnapItem>, SnapshotError>(items),
        ),
        can_build(*old(s), snapshot, effects@),
        snapshot.stages@.len() == 0,
        items@.contains(x),
    ensures
        !(x.obj is GameData),
        !is_entity(x.obj),
        x.obj matches SnapObj::GameInfo(o) ==> {
            &&& x.id == 0
            &&& o.game_flags == 0 && o.game_state_flags == 0 && o.round_start_tick == 0
            &&& o.warmup_timer == 0 && o.round_num == 0 && o.round_current == 1
            &&& is_limited(o.score_limit, old(s).game_config.score_limit as int)
        },
{
    assert(stage_shown(snapshot, local) is None);
    let all = game_items(
        old(s).game_config,
        old(s).race,
        final(s).players@,
        stage_shown(snapshot, local),
        tick,
    );
    lemma_parts(s, snapshot, local, tick, effects, pack, items, x);
    if about_match(x.obj) {
        lemma_match(s, snapshot, local, tick, effects, pack, items, x);
        let k = choose|k: int| 0 <= k < all.len() && all[k] == x;
        assert(all.len() == 2);
    } else if is_entity(x.obj) {
        lemma_not_about_players(s, snapshot, local, tick, effects, pack, items, x);
        if effect_items(effects@).contains(x) {
            let k = choose|k: int|
                0 <= k < effect_items(effects@).len() && effect_items(effects@)[k] == x;
            assert(is_event(effects@[k]));
        }
        if all.contains(x) {
            let k = choose|k: int| 0 <= k < all.len() && all[k] == x;
            assert(about_match(all[k].obj));
        }
    }
}

} // verus!
