//! A native snapshot, as far as the translation reads it.
//!
//! Positions, velocities and angles are floating-point numbers in the game.
//! Here they stand as the integers that the old protocol takes of them.
use vstd::prelude::*;

verus! {

#[derive(Clone, Copy, Debug, PartialEq, Eq, Structural)]
pub enum WeaponType {
    Hammer,
    Gun,
    Shotgun,
    Grenade,
    Laser,
    Puller,
}

/// The weapons that fire projectiles.
#[derive(Clone, Copy, Debug, PartialEq, Eq, Structural)]
pub enum WeaponWithProjectile {
    Gun,
    Shotgun,
    Grenade,
}

#[derive(Clone, Copy, Debug, PartialEq, Eq, Structural)]
pub enum MatchSide {
    Red,
    Blue,
}

#[derive(Clone, Copy, Debug, PartialEq, Eq, Structural)]
pub enum TeeEye {
    Normal,
    Pain,
    Happy,
    Surprised,
    Angry,
    Blink,
    Other,
}

/// One coordinate: rounded to the nearest integer, and cut toward zero.
#[derive(Clone, Copy, Debug, PartialEq, Eq)]
pub struct Coordinate {
    pub rounded: i32,
    pub cut: i32,
}

/// A position in the world.
#[derive(Clone, Copy, Debug, PartialEq, Eq)]
pub struct Position {
    pub x: Coordinate,
    pub y: Coordinate,
}

/// The colours of a skin, in the old protocol's encoding.
#[derive(Clone, Copy, Debug, PartialEq, Eq)]
pub enum SkinInfo {
    Original,
    Custom { body_color: i32, feet_color: i32 },
}

/// What a player looks like to the others.
#[derive(Clone, Debug, PartialEq, Eq)]
pub struct CharacterLook {
    pub name: String,
    pub clan: String,
    pub skin: String,
    pub skin_info: SkinInfo,
}

/// The hook of a character. The direction is in 256ths.
#[derive(Clone, Copy, Debug, PartialEq, Eq)]
pub enum Hook {
    Idle,
    WaitsForRelease,
    Active { x: i32, y: i32, dir_x: i32, dir_y: i32, tick: i32, state: u8 },
}

/// Where a spectating player looks.
#[derive(Clone, Debug, PartialEq, Eq)]
pub enum Camera {
    Free(Position),
    Follows(Vec<u64>),
}

/// The phase of life that a character is in.
#[derive(Clone, Debug, PartialEq, Eq)]
pub enum Phase {
    Normal { hook: Hook, hooked: Option<u64>, spectate: Option<Camera> },
    Spectate(Camera),
    Dead,
}

/// A weapon that a character carries, with the ammunition left in it.
#[derive(Clone, Copy, Debug, PartialEq, Eq)]
pub struct CarriedWeapon {
    pub weapon: WeaponType,
    pub ammo: Option<u32>,
}

/// A freeze, with the ticks that it still lasts where they are known.
#[derive(Clone, Copy, Debug, PartialEq, Eq)]
pub struct Freeze {
    pub remaining: Option<u64>,
}

/// The movement of a character. Velocities are in 256ths, the cursor in
/// 32nds of a tile and the angle in 256ths of a radian.
#[derive(Clone, Copy, Debug, PartialEq, Eq)]
pub struct Motion {
    pub vel_x: i32,
    pub vel_y: i32,
    pub cursor_x: i32,
    pub cursor_y: i32,
    pub angle: i32,
    pub direction: i32,
}

/// The jumps of a character.
#[derive(Clone, Copy, Debug, PartialEq, Eq)]
pub struct Jumps {
    pub max: i32,
    pub count: i32,
    pub flag: i32,
    pub endless: bool,
}

/// The switches that change how a character interacts with others.
#[derive(Clone, Copy, Debug, PartialEq, Eq)]
pub struct Traits {
    pub solo: bool,
    pub collision_disabled: bool,
    pub hook_hit_disabled: bool,
    pub has_endless: bool,
    pub is_super: bool,
}

#[derive(Clone, Debug, PartialEq, Eq)]
pub struct Character {
    pub id: u64,
    pub look: CharacterLook,
    pub side: Option<MatchSide>,
    pub score: i64,
    pub pos: Position,
    pub phase: Phase,
    pub motion: Motion,
    pub jumps: Jumps,
    pub traits: Traits,
    pub tele_checkpoint: i32,
    pub health: u32,
    pub armor: u32,
    pub active_weapon: WeaponType,
    pub weapons: Vec<CarriedWeapon>,
    pub ninja: bool,
    pub freeze: Option<Freeze>,
    pub eye: TeeEye,
    /// Ticks since the last attack.
    pub attack_age: Option<u64>,
}

/// A projectile of the vanilla physics, already rebased one tick backwards.
#[derive(Clone, Copy, Debug, PartialEq, Eq)]
pub struct Projectile {
    pub id: u64,
    pub x: i32,
    pub y: i32,
    pub vel_x: i32,
    pub vel_y: i32,
    pub ty: WeaponWithProjectile,
}

/// A projectile of the race physics, which keeps its start position.
#[derive(Clone, Copy, Debug, PartialEq, Eq)]
pub struct RaceProjectile {
    pub id: u64,
    pub start: Position,
    pub vel_x: i32,
    pub vel_y: i32,
    pub ty: WeaponWithProjectile,
    /// The whole life span in ticks, where it is limited.
    pub life_span: Option<u64>,
    /// The ticks of it that are left.
    pub life_left: Option<u64>,
}

#[derive(Clone, Copy, Debug, PartialEq, Eq)]
pub enum PickupType {
    Health,
    Armor,
    Ninja,
    Weapon(WeaponType),
    WeaponShield(WeaponType),
    NinjaShield,
}

#[derive(Clone, Copy, Debug, PartialEq, Eq)]
pub struct Pickup {
    pub id: u64,
    pub pos: Position,
    pub ty: PickupType,
}

#[derive(Clone, Copy, Debug, PartialEq, Eq)]
pub struct Flag {
    pub pos: Position,
    pub carrier: Option<u64>,
    pub dropped: bool,
}

#[derive(Clone, Copy, Debug, PartialEq, Eq)]
pub struct Laser {
    pub id: u64,
    pub pos: Position,
    pub from: Position,
    /// Ticks since the laser was last evaluated.
    pub age: Option<u64>,
}

#[derive(Clone, Copy, Debug, PartialEq, Eq)]
pub enum MatchType {
    Solo,
    Sided { red: i64, blue: i64 },
}

#[derive(Clone, Copy, Debug, PartialEq, Eq)]
pub enum MatchPhase {
    Running,
    Paused,
    SuddenDeath,
    PausedSuddenDeath,
    GameOver,
}

#[derive(Clone, Copy, Debug, PartialEq, Eq)]
pub struct Match {
    pub ty: MatchType,
    pub phase: MatchPhase,
    pub passed_ticks: u64,
}

/// One world of the game.
#[derive(Clone, Debug, PartialEq, Eq)]
pub struct Stage {
    pub id: u64,
    pub characters: Vec<Character>,
    pub projectiles: Vec<Projectile>,
    pub race_projectiles: Vec<RaceProjectile>,
    pub pickups: Vec<Pickup>,
    pub red_flags: Vec<Flag>,
    pub blue_flags: Vec<Flag>,
    pub lasers: Vec<Laser>,
    pub game_match: Match,
}

/// A player without a character.
#[derive(Clone, Debug, PartialEq, Eq)]
pub struct Spectator {
    pub id: u64,
    pub look: CharacterLook,
    pub follows: Vec<u64>,
    /// Where the player looks while following nobody.
    pub cursor: Position,
}

#[derive(Clone, Debug, PartialEq, Eq)]
pub struct Snapshot {
    pub stages: Vec<Stage>,
    pub spectators: Vec<Spectator>,
}

/// The first character with the given id.
pub open spec fn character_of(characters: Seq<Character>, id: u64) -> Option<Character>
    decreases characters.len(),
{
    if characters.len() == 0 {
        None
    } else if characters[0].id == id {
        Some(characters[0])
    } else {
        character_of(characters.drop_first(), id)
    }
}

/// The first character with the given id in any stage.
pub open spec fn character_in(stages: Seq<Stage>, id: u64) -> Option<Character>
    decreases stages.len(),
{
    if stages.len() == 0 {
        None
    } else {
        match character_of(stages[0].characters@, id) {
            Some(c) => Some(c),
            None => character_in(stages.drop_first(), id),
        }
    }
}

impl Stage {
    /// Finds a character of this stage.
    pub fn character(&self, id: u64) -> (r: Option<&Character>)
        ensures
            match character_of(self.characters@, id) {
                Some(c) => r matches Some(x) && *x == c,
                None => r is None,
            },
    {
        let mut i: usize = 0;
        assert(self.characters@.skip(0) =~= self.characters@);
        while i < self.characters.len()
            invariant
                i <= self.characters.len(),
                character_of(self.characters@.skip(i as int), id) == character_of(
                    self.characters@,
                    id,
                ),
            decreases self.characters.len() - i,
        {
            assert(self.characters@.skip(i as int).drop_first() =~= self.characters@.skip(i + 1));
            if self.characters[i].id == id {
                return Some(&self.characters[i]);
            }
            i += 1;
        }
        None
    }
}

impl Snapshot {
    /// Finds a character in the first stage that has it.
    pub fn character(&self, id: u64) -> (r: Option<&Character>)
        ensures
            match character_in(self.stages@, id) {
                Some(c) => r matches Some(x) && *x == c,
                None => r is None,
            },
    {
        let mut i: usize = 0;
        assert(self.stages@.skip(0) =~= self.stages@);
        while i < self.stages.len()
            invariant
                i <= self.stages.len(),
                character_in(self.stages@.skip(i as int), id) == character_in(self.stages@, id),
            decreases self.stages.len() - i,
        {
            assert(self.stages@.skip(i as int).drop_first() =~= self.stages@.skip(i + 1));
            let found = self.stages[i].character(id);
            if found.is_some() {
                return found;
            }
            i += 1;
        }
        None
    }
}

} // verus!
