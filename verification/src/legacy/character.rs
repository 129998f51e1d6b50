//! The snapshot items of characters and spectators.
use crate::legacy::objects::{
    CharacterCore, CharacterFlags, CharacterObj, DdnetCharacter, DdnetPlayer, Emote, SnapItem,
    SnapObj, SpectatorInfo, Team,
};
use crate::legacy::snapshot::{
    ago, cap, cap_i32, clamp, clamp_i32, info, info_items, low, low_i32, slot_number, slot_or,
    ticks_ago, weapon, weapon_bits, weapon_flags, weapon_number,
};
use crate::legacy::world::{
    character_in, Camera, CarriedWeapon, Character, Freeze, Hook, MatchSide, Phase, Position,
    Snapshot, Spectator, Stage, TeeEye, WeaponType,
};
use std::collections::HashMap;
use vstd::prelude::*;

verus! {

/// What a phase of life says about watching: the camera, and the flags of a
/// player that is paused in the game or watches outside of it.
pub open spec fn watching(phase: Phase) -> (Option<Camera>, i32) {
    match phase {
        Phase::Normal { hook, hooked, spectate } => (
            spectate,
            if spectate is Some {
                2i32
            } else {
                0i32
            },
        ),
        Phase::Spectate(camera) => (Some(camera), 4i32),
        Phase::Dead => (None, 0i32),
    }
}

/// The first of the followed players that has a character.
pub open spec fn followed(stages: Seq<Stage>, ids: Seq<u64>) -> Option<(u64, Character)>
    decreases ids.len(),
{
    if ids.len() == 0 {
        None
    } else {
        match character_in(stages, ids[0]) {
            Some(c) => Some((ids[0], c)),
            None => followed(stages, ids.drop_first()),
        }
    }
}

/// Where a player with a character looks: at a free position, at the first
/// followed player that has a character, or at its own character.
pub open spec fn camera_info(
    stages: Seq<Stage>,
    players: Map<u64, u16>,
    own: Position,
    camera: Camera,
) -> SpectatorInfo {
    let (spectator_id, pos) = match camera {
        Camera::Free(pos) => (-1i32, pos),
        Camera::Follows(ids) => match followed(stages, ids@) {
            Some((id, c)) => (slot_or(players, id, -1i32), c.pos),
            None => (-1i32, own),
        },
    };
    SpectatorInfo { spectator_id, x: pos.x.cut, y: pos.y.cut }
}

/// The state, tick, position and direction of a hook. One that is not out is
/// at the character.
pub open spec fn hook_values(hook: Hook, pos: Position) -> (i32, i32, i32, i32, i32, i32) {
    match hook {
        Hook::Idle => (0i32, 0i32, pos.x.cut, pos.y.cut, 0i32, 0i32),
        Hook::WaitsForRelease => (-1i32, 0i32, pos.x.cut, pos.y.cut, 0i32, 0i32),
        Hook::Active { x, y, dir_x, dir_y, tick, state } => (
            (state + 1) as i32,
            tick,
            x,
            y,
            dir_x,
            dir_y,
        ),
    }
}

/// The first carried weapon of the given type.
pub open spec fn carried(weapons: Seq<CarriedWeapon>, ty: WeaponType) -> Option<CarriedWeapon>
    decreases weapons.len(),
{
    if weapons.len() == 0 {
        None
    } else if weapons[0].weapon == ty {
        Some(weapons[0])
    } else {
        carried(weapons.drop_first(), ty)
    }
}

/// `n`, at most ten: the most that the display has room for.
pub open spec fn up_to_ten(n: u32) -> i32 {
    if n > 10 {
        10
    } else {
        n as i32
    }
}

/// The ammunition that the active weapon is shown with. Unlimited ammunition
/// shows as ten.
pub open spec fn ammo_shown(weapons: Seq<CarriedWeapon>, active: WeaponType) -> i32 {
    match carried(weapons, active) {
        Some(w) => match w.ammo {
            Some(ammo) => up_to_ten(ammo),
            None => 10,
        },
        None => 10,
    }
}

pub open spec fn emote_of(eye: TeeEye) -> Emote {
    match eye {
        TeeEye::Pain => Emote::Pain,
        TeeEye::Happy => Emote::Happy,
        TeeEye::Surprised => Emote::Surprise,
        TeeEye::Angry => Emote::Angry,
        TeeEye::Blink => Emote::Blink,
        TeeEye::Normal | TeeEye::Other => Emote::Normal,
    }
}

pub open spec fn team_of(side: Option<MatchSide>) -> Team {
    match side {
        Some(MatchSide::Blue) => Team::Blue,
        _ => Team::Red,
    }
}

/// The tick at which a freeze ends, zero without one.
pub open spec fn freeze_end(freeze: Option<Freeze>, tick: i32) -> i32 {
    match freeze {
        Some(f) => match f.remaining {
            Some(t) => clamp_i32(tick + cap_i32(t as int)),
            None => tick,
        },
        None => 0,
    }
}

/// The extended object of the `index`th character of its stage.
pub open spec fn ddnet_character(c: Character, tick: i32, index: int) -> DdnetCharacter {
    DdnetCharacter {
        flags: CharacterFlags {
            solo: c.traits.solo,
            collision_disabled: c.traits.collision_disabled,
            hook_hit_disabled: c.traits.hook_hit_disabled,
            endless_hook: c.traits.has_endless,
            endless_jump: c.jumps.endless,
            is_super: c.traits.is_super,
            in_freeze: c.freeze is Some,
            weapon_ninja: c.ninja,
            weapons: weapon_bits(c.weapons@),
        },
        freeze_end: freeze_end(c.freeze, tick),
        jumps: c.jumps.max,
        tele_checkpoint: c.tele_checkpoint,
        strong_weak_id: low_i32(index),
        jumped_total: c.jumps.count,
        ninja_activation_tick: 0,
        freeze_start: 0,
        target_x: c.motion.cursor_x,
        target_y: c.motion.cursor_y,
        tune_zone_override: 0,
    }
}

/// The character object. Health, armor and ammunition are shown to the
/// player itself only.
pub open spec fn character_obj(
    players: Map<u64, u16>,
    c: Character,
    local: bool,
    tick: i32,
    hook: Hook,
    hooked: Option<u64>,
) -> CharacterObj {
    let (hook_state, hook_tick, hook_x, hook_y, hook_dx, hook_dy) = hook_values(hook, c.pos);
    CharacterObj {
        character_core: CharacterCore {
            tick,
            x: c.pos.x.rounded,
            y: c.pos.y.rounded,
            vel_x: c.motion.vel_x,
            vel_y: c.motion.vel_y,
            angle: c.motion.angle,
            direction: c.motion.direction,
            jumped: c.jumps.flag,
            hooked_player: match hooked {
                Some(id) => slot_or(players, id, -1i32),
                None => -1i32,
            },
            hook_state,
            hook_tick,
            hook_x,
            hook_y,
            hook_dx,
            hook_dy,
        },
        player_flags: 0,
        health: if local {
            up_to_ten(c.health)
        } else {
            0
        },
        armor: if local {
            up_to_ten(c.armor)
        } else {
            0
        },
        ammo_count: if local {
            ammo_shown(c.weapons@, c.active_weapon)
        } else {
            0
        },
        weapon: if c.ninja {
            5
        } else {
            weapon_number(c.active_weapon)
        },
        emote: emote_of(c.eye),
        attack_tick: match c.attack_age {
            Some(age) => ticks_ago(tick, age),
            None => 0,
        },
    }
}

/// The items of a character on the stage that is shown, beyond those that
/// describe the player.
pub open spec fn shown_items(
    stages: Seq<Stage>,
    players: Map<u64, u16>,
    c: Character,
    local: u64,
    tick: i32,
    index: int,
) -> Seq<SnapItem> {
    let id = players[c.id];
    let (camera, flags) = watching(c.phase);
    seq![SnapItem { id, obj: SnapObj::DdnetPlayer(DdnetPlayer { flags, auth_level: 0 }) }] + (
    match camera {
        Some(camera) if c.id == local => seq![
            SnapItem {
                id,
                obj: SnapObj::SpectatorInfo(camera_info(stages, players, c.pos, camera)),
            },
        ],
        _ => seq![],
    }) + match c.phase {
        Phase::Normal { hook, hooked, spectate } => seq![
            SnapItem { id, obj: SnapObj::DdnetCharacter(ddnet_character(c, tick, index)) },
            SnapItem {
                id,
                obj: SnapObj::Character(
                    character_obj(players, c, c.id == local, tick, hook, hooked),
                ),
            },
        ],
        _ => seq![],
    }
}

/// The items of the first characters of a stage.
pub open spec fn character_items(
    stages: Seq<Stage>,
    players: Map<u64, u16>,
    characters: Seq<Character>,
    local: u64,
    tick: i32,
    shown: bool,
) -> Seq<SnapItem>
    decreases characters.len(),
{
    if characters.len() == 0 {
        seq![]
    } else {
        let c = characters.last();
        character_items(stages, players, characters.drop_last(), local, tick, shown) + info_items(
            players[c.id],
            c.look,
            c.id == local,
            team_of(c.side),
            c.score as int,
        ) + if shown {
            shown_items(stages, players, c, local, tick, characters.len() - 1)
        } else {
            seq![]
        }
    }
}

/// The items of all characters of the first `n` stages.
pub open spec fn stage_items(
    stages: Seq<Stage>,
    n: int,
    players: Map<u64, u16>,
    local: u64,
    tick: i32,
    shown: Option<Stage>,
) -> Seq<SnapItem>
    decreases n,
{
    if n <= 0 {
        seq![]
    } else {
        let stage = stages[n - 1];
        stage_items(stages, n - 1, players, local, tick, shown) + character_items(
            stages,
            players,
            stage.characters@,
            local,
            tick,
            shown matches Some(s) && s.id == stage.id,
        )
    }
}

/// Where a player without a character looks: at the first followed player
/// that has one, else at its cursor.
pub open spec fn watched_position(stages: Seq<Stage>, p: Spectator) -> Position {
    match followed(stages, p.follows@) {
        Some((id, c)) => c.pos,
        None => p.cursor,
    }
}

/// The slot of the first followed player that has one.
pub open spec fn followed_slot(players: Map<u64, u16>, ids: Seq<u64>) -> i32
    decreases ids.len(),
{
    if ids.len() == 0 {
        -1i32
    } else if players.contains_key(ids[0]) {
        players[ids[0]] as i32
    } else {
        followed_slot(players, ids.drop_first())
    }
}

/// The items of one player without a character.
pub open spec fn spectator_item(
    stages: Seq<Stage>,
    players: Map<u64, u16>,
    p: Spectator,
    local: u64,
) -> Seq<SnapItem> {
    let pos = watched_position(stages, p);
    info_items(players[p.id], p.look, p.id == local, Team::Spectators, 0) + if p.id == local {
        seq![
            SnapItem {
                id: players[p.id],
                obj: SnapObj::SpectatorInfo(
                    SpectatorInfo {
                        spectator_id: followed_slot(players, p.follows@),
                        x: pos.x.rounded,
                        y: pos.y.rounded,
                    },
                ),
            },
        ]
    } else {
        seq![]
    }
}

/// The items of all players without a character.
pub open spec fn spectator_items(
    stages: Seq<Stage>,
    players: Map<u64, u16>,
    spectators: Seq<Spectator>,
    local: u64,
) -> Seq<SnapItem>
    decreases spectators.len(),
{
    if spectators.len() == 0 {
        seq![]
    } else {
        spectator_items(stages, players, spectators.drop_last(), local) + spectator_item(
            stages,
            players,
            spectators.last(),
            local,
        )
    }
}

fn first_followed<'a>(snapshot: &'a Snapshot, ids: &Vec<u64>) -> (r: Option<(u64, &'a Character)>)
    ensures
        match followed(snapshot.stages@, ids@) {
            Some((id, c)) => r matches Some((i, x)) && i == id && *x == c,
            None => r is None,
        },
{
    let mut i: usize = 0;
    assert(ids@.skip(0) =~= ids@);
    while i < ids.len()
        invariant
            i <= ids.len(),
            followed(snapshot.stages@, ids@.skip(i as int)) == followed(snapshot.stages@, ids@),
        decreases ids.len() - i,
    {
        assert(ids@.skip(i as int).drop_first() =~= ids@.skip(i + 1));
        if let Some(c) = snapshot.character(ids[i]) {
            return Some((ids[i], c));
        }
        i += 1;
    }
    None
}

fn first_slot(players: &HashMap<u64, u16>, ids: &Vec<u64>) -> (r: i32)
    ensures
        r == followed_slot(players@, ids@),
{
    let mut i: usize = 0;
    assert(ids@.skip(0) =~= ids@);
    while i < ids.len()
        invariant
            i <= ids.len(),
            followed_slot(players@, ids@.skip(i as int)) == followed_slot(players@, ids@),
        decreases ids.len() - i,
    {
        assert(ids@.skip(i as int).drop_first() =~= ids@.skip(i + 1));
        if let Some(slot) = players.get(&ids[i]) {
            return *slot as i32;
        }
        i += 1;
    }
    -1
}

/// Where a player without a character looks.
pub fn spectator_pos(snapshot: &Snapshot, spectator: &Spectator) -> (r: Position)
    ensures
        r == watched_position(snapshot.stages@, *spectator),
{
    match first_followed(snapshot, &spectator.follows) {
        Some((_, c)) => c.pos,
        None => spectator.cursor,
    }
}

fn looked_at(snapshot: &Snapshot, players: &HashMap<u64, u16>, own: Position, camera: &Camera) -> (r:
    SpectatorInfo)
    ensures
        r == camera_info(snapshot.stages@, players@, own, *camera),
{
    let (spectator_id, pos) = match camera {
        Camera::Free(pos) => (-1i32, *pos),
        Camera::Follows(ids) => match first_followed(snapshot, ids) {
            Some((id, c)) => (slot_number(players, id, -1), c.pos),
            None => (-1i32, own),
        },
    };
    SpectatorInfo { spectator_id, x: pos.x.cut, y: pos.y.cut }
}

fn at_most_ten(n: u32) -> (r: i32)
    ensures
        r == up_to_ten(n),
{
    if n > 10 {
        10
    } else {
        n as i32
    }
}

fn ammo(weapons: &Vec<CarriedWeapon>, active: WeaponType) -> (r: i32)
    ensures
        r == ammo_shown(weapons@, active),
{
    let mut i: usize = 0;
    assert(weapons@.skip(0) =~= weapons@);
    while i < weapons.len()
        invariant
            i <= weapons.len(),
            carried(weapons@.skip(i as int), active) == carried(weapons@, active),
        decreases weapons.len() - i,
    {
        assert(weapons@.skip(i as int).drop_first() =~= weapons@.skip(i + 1));
        if weapons[i].weapon == active {
            return match weapons[i].ammo {
                Some(ammo) => at_most_ten(ammo),
                None => 10,
            };
        }
        i += 1;
    }
    10
}

fn extended(c: &Character, tick: i32, index: usize) -> (r: DdnetCharacter)
    ensures
        r == ddnet_character(*c, tick, index as int),
{
    let freeze_end: i32 = match c.freeze {
        Some(f) => match f.remaining {
            Some(t) => clamp(tick as i64 + cap(t) as i64),
            None => tick,
        },
        None => 0,
    };
    DdnetCharacter {
        flags: CharacterFlags {
            solo: c.traits.solo,
            collision_disabled: c.traits.collision_disabled,
            hook_hit_disabled: c.traits.hook_hit_disabled,
            endless_hook: c.traits.has_endless,
            endless_jump: c.jumps.endless,
            is_super: c.traits.is_super,
            in_freeze: c.freeze.is_some(),
            weapon_ninja: c.ninja,
            weapons: weapon_flags(&c.weapons),
        },
        freeze_end,
        jumps: c.jumps.max,
        tele_checkpoint: c.tele_checkpoint,
        strong_weak_id: low(index),
        jumped_total: c.jumps.count,
        ninja_activation_tick: 0,
        freeze_start: 0,
        target_x: c.motion.cursor_x,
        target_y: c.motion.cursor_y,
        tune_zone_override: 0,
    }
}

fn character_object(
    players: &HashMap<u64, u16>,
    c: &Character,
    local: bool,
    tick: i32,
    hook: Hook,
    hooked: Option<u64>,
) -> (r: CharacterObj)
    ensures
        r == character_obj(players@, *c, local, tick, hook, hooked),
{
    let (hook_state, hook_tick, hook_x, hook_y, hook_dx, hook_dy) = match hook {
        Hook::Idle => (0i32, 0i32, c.pos.x.cut, c.pos.y.cut, 0i32, 0i32),
        Hook::WaitsForRelease => (-1i32, 0i32, c.pos.x.cut, c.pos.y.cut, 0i32, 0i32),
        Hook::Active { x, y, dir_x, dir_y, tick, state } => (
            state as i32 + 1,
            tick,
            x,
            y,
            dir_x,
            dir_y,
        ),
    };
    CharacterObj {
        character_core: CharacterCore {
            tick,
            x: c.pos.x.rounded,
            y: c.pos.y.rounded,
            vel_x: c.motion.vel_x,
            vel_y: c.motion.vel_y,
            angle: c.motion.angle,
            direction: c.motion.direction,
            jumped: c.jumps.flag,
            hooked_player: match hooked {
                Some(id) => slot_number(players, id, -1),
                None => -1,
            },
            hook_state,
            hook_tick,
            hook_x,
            hook_y,
            hook_dx,
            hook_dy,
        },
        player_flags: 0,
        health: if local {
            at_most_ten(c.health)
        } else {
            0
        },
        armor: if local {
            at_most_ten(c.armor)
        } else {
            0
        },
        ammo_count: if local {
            ammo(&c.weapons, c.active_weapon)
        } else {
            0
        },
        weapon: if c.ninja {
            5
        } else {
            weapon(c.active_weapon)
        },
        emote: match c.eye {
            TeeEye::Pain => Emote::Pain,
            TeeEye::Happy => Emote::Happy,
            TeeEye::Surprised => Emote::Surprise,
            TeeEye::Angry => Emote::Angry,
            TeeEye::Blink => Emote::Blink,
            TeeEye::Normal | TeeEye::Other => Emote::Normal,
        },
        attack_tick: match c.attack_age {
            Some(age) => ago(tick, age),
            None => 0,
        },
    }
}

fn show(
    snapshot: &Snapshot,
    players: &HashMap<u64, u16>,
    c: &Character,
    local: u64,
    tick: i32,
    index: usize,
    out: &mut Vec<SnapItem>,
)
    requires
        players@.contains_key(c.id),
    ensures
        final(out)@ == old(out)@ + shown_items(
            snapshot.stages@,
            players@,
            *c,
            local,
            tick,
            index as int,
        ),
{
    let id: u16 = *players.get(&c.id).unwrap();
    let (looks, flags): (Option<&Camera>, i32) = match &c.phase {
        Phase::Normal { hook: _, hooked: _, spectate } => match spectate {
            Some(camera) => (Some(camera), 2),
            None => (None, 0),
        },
        Phase::Spectate(camera) => (Some(camera), 4),
        Phase::Dead => (None, 0),
    };
    out.push(SnapItem { id, obj: SnapObj::DdnetPlayer(DdnetPlayer { flags, auth_level: 0 }) });
    if c.id == local {
        if let Some(looks) = looks {
            let at = looked_at(snapshot, players, c.pos, looks);
            out.push(SnapItem { id, obj: SnapObj::SpectatorInfo(at) });
        }
    }
    if let Phase::Normal { hook, hooked, spectate: _ } = &c.phase {
        let more = extended(c, tick, index);
        out.push(SnapItem { id, obj: SnapObj::DdnetCharacter(more) });
        let obj = character_object(players, c, c.id == local, tick, *hook, *hooked);
        out.push(SnapItem { id, obj: SnapObj::Character(obj) });
    }
    assert(out@ =~= old(out)@ + shown_items(
        snapshot.stages@,
        players@,
        *c,
        local,
        tick,
        index as int,
    ));
}

/// Every character of the stage is mapped.
pub open spec fn all_mapped(players: Map<u64, u16>, stage: Stage) -> bool {
    forall|j: int|
        0 <= j < stage.characters@.len() ==> players.contains_key(
            (#[trigger] stage.characters@[j]).id,
        )
}

/// Adds the items of all characters.
pub(crate) fn characters(
    snapshot: &Snapshot,
    players: &HashMap<u64, u16>,
    local: u64,
    tick: i32,
    shown: Option<&Stage>,
    out: &mut Vec<SnapItem>,
)
    requires
        forall|i: int|
            0 <= i < snapshot.stages@.len() ==> all_mapped(
                players@,
                #[trigger] snapshot.stages@[i],
            ),
    ensures
        final(out)@ == old(out)@ + stage_items(
            snapshot.stages@,
            snapshot.stages@.len() as int,
            players@,
            local,
            tick,
            match shown {
                Some(s) => Some(*s),
                None => None,
            },
        ),
{
    let ghost visible = match shown {
        Some(s) => Some(*s),
        None => None,
    };
    let mut i: usize = 0;
    assert(out@ =~= old(out)@ + stage_items(snapshot.stages@, 0, players@, local, tick, visible));
    while i < snapshot.stages.len()
        invariant
            i <= snapshot.stages.len(),
            visible == match shown {
                Some(s) => Some(*s),
                None => None,
            },
            forall|i: int|
                0 <= i < snapshot.stages@.len() ==> all_mapped(
                    players@,
                    #[trigger] snapshot.stages@[i],
                ),
            out@ == old(out)@ + stage_items(
                snapshot.stages@,
                i as int,
                players@,
                local,
                tick,
                visible,
            ),
        decreases snapshot.stages.len() - i,
    {
        let stage = &snapshot.stages[i];
        let is_shown = match shown {
            Some(s) => s.id == stage.id,
            None => false,
        };
        let ghost start = out@;
        let mut j: usize = 0;
        assert(stage.characters@.take(0) =~= seq![]);
        assert(out@ =~= start + character_items(
            snapshot.stages@,
            players@,
            stage.characters@.take(0),
            local,
            tick,
            is_shown,
        ));
        assert(all_mapped(players@, snapshot.stages@[i as int]));
        while j < stage.characters.len()
            invariant
                j <= stage.characters.len(),
                all_mapped(players@, *stage),
                out@ == start + character_items(
                    snapshot.stages@,
                    players@,
                    stage.characters@.take(j as int),
                    local,
                    tick,
                    is_shown,
                ),
            decreases stage.characters.len() - j,
        {
            let c = &stage.characters[j];
            let ghost before = out@;
            let id: u16 = *players.get(&c.id).unwrap();
            let team = match c.side {
                Some(MatchSide::Blue) => Team::Blue,
                _ => Team::Red,
            };
            info(out, id, &c.look, c.id == local, team, c.score);
            if is_shown {
                show(snapshot, players, c, local, tick, j, out);
            }
            j += 1;
            assert(stage.characters@.take(j as int).drop_last() =~= stage.characters@.take(j - 1));
            assert(out@ =~= start + character_items(
                snapshot.stages@,
                players@,
                stage.characters@.take(j as int),
                local,
                tick,
                is_shown,
            ));
        }
        assert(stage.characters@.take(j as int) =~= stage.characters@);
        i += 1;
        assert(out@ =~= old(out)@ + stage_items(
            snapshot.stages@,
            i as int,
            players@,
            local,
            tick,
            visible,
        ));
    }
}

/// Adds the items of all players without a character.
pub(crate) fn spectators(
    snapshot: &Snapshot,
    players: &HashMap<u64, u16>,
    local: u64,
    out: &mut Vec<SnapItem>,
)
    requires
        forall|i: int|
            0 <= i < snapshot.spectators@.len() ==> players@.contains_key(
                (#[trigger] snapshot.spectators@[i]).id,
            ),
    ensures
        final(out)@ == old(out)@ + spectator_items(
            snapshot.stages@,
            players@,
            snapshot.spectators@,
            local,
        ),
{
    let list = &snapshot.spectators;
    let mut i: usize = 0;
    assert(list@.take(0) =~= seq![]);
    assert(out@ =~= old(out)@ + spectator_items(snapshot.stages@, players@, list@.take(0), local));
    while i < list.len()
        invariant
            i <= list.len(),
            forall|i: int| 0 <= i < list@.len() ==> players@.contains_key((#[trigger] list@[i]).id),
            out@ == old(out)@ + spectator_items(
                snapshot.stages@,
                players@,
                list@.take(i as int),
                local,
            ),
        decreases list.len() - i,
    {
        let p = &list[i];
        let id: u16 = *players.get(&p.id).unwrap();
        info(out, id, &p.look, p.id == local, Team::Spectators, 0);
        if p.id == local {
            let pos = spectator_pos(snapshot, p);
            let at = SpectatorInfo {
                spectator_id: first_slot(players, &p.follows),
                x: pos.x.rounded,
                y: pos.y.rounded,
            };
            out.push(SnapItem { id, obj: SnapObj::SpectatorInfo(at) });
        }
        i += 1;
        assert(list@.take(i as int).drop_last() =~= list@.take(i - 1));
        assert(out@ =~= old(out)@ + spectator_items(
            snapshot.stages@,
            players@,
            list@.take(i as int),
            local,
        ));
    }
    assert(list@.take(i as int) =~= list@);
}

} // verus!
