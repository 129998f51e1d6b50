//! The objects of a DDNet 0.6 snapshot.
use vstd::prelude::*;

verus! {

#[derive(Clone, Copy, Debug, PartialEq, Eq, Structural)]
pub enum Team {
    Spectators,
    Red,
    Blue,
}

#[derive(Clone, Copy, Debug, PartialEq, Eq, Structural)]
pub enum Emote {
    Normal,
    Pain,
    Happy,
    Surprise,
    Angry,
    Blink,
}

/// The weapons that a projectile can belong to.
#[derive(Clone, Copy, Debug, PartialEq, Eq, Structural)]
pub enum Weapon {
    Pistol,
    Shotgun,
    Grenade,
}

#[derive(Clone, Copy, Debug, PartialEq, Eq, Structural)]
pub enum Sound {
    GunFire,
    ShotgunFire,
    GrenadeFire,
    HammerFire,
    HammerHit,
    GrenadeExplode,
    RifleFire,
    RifleBounce,
    WeaponSwitch,
    PlayerPainShort,
    PlayerPainLong,
    PlayerAirjump,
    PlayerJump,
    PlayerDie,
    PlayerSpawn,
    PickupHealth,
    PickupArmor,
    PickupGrenade,
    PickupShotgun,
    WeaponSpawn,
    WeaponNoammo,
    Hit,
    CtfDrop,
    CtfReturn,
    CtfGrabPl,
    CtfCapture,
    HookAttachGround,
    HookAttachPlayer,
    HookNoattach,
}

#[derive(Clone, Copy, Debug, PartialEq, Eq)]
pub struct GameInfo {
    pub game_flags: i32,
    pub game_state_flags: i32,
    pub round_start_tick: i32,
    pub warmup_timer: i32,
    pub score_limit: i32,
    pub time_limit: i32,
    pub round_num: i32,
    pub round_current: i32,
}

/// The extended description of the game type. Each switch is one flag of the
/// protocol.
#[derive(Clone, Copy, Debug, PartialEq, Eq)]
pub struct GameInfoEx {
    pub gametype_ddrace: bool,
    pub gametype_ddnet: bool,
    pub gametype_vanilla: bool,
    pub predict_ddrace: bool,
    pub predict_ddrace_tiles: bool,
    pub predict_vanilla: bool,
    pub entities_ddnet: bool,
    pub version: i32,
    pub flags2: i32,
}

#[derive(Clone, Copy, Debug, PartialEq, Eq)]
pub struct GameData {
    pub teamscore_red: i32,
    pub teamscore_blue: i32,
    pub flag_carrier_red: i32,
    pub flag_carrier_blue: i32,
}

#[derive(Clone, Copy, Debug, PartialEq, Eq)]
pub struct ClientInfo {
    pub name: [i32; 4],
    pub clan: [i32; 3],
    pub country: i32,
    pub skin: [i32; 6],
    pub use_custom_color: i32,
    pub color_body: i32,
    pub color_feet: i32,
}

#[derive(Clone, Copy, Debug, PartialEq, Eq)]
pub struct PlayerInfo {
    pub local: bool,
    pub client_id: i32,
    pub team: Team,
    pub score: i32,
    pub latency: i32,
}

#[derive(Clone, Copy, Debug, PartialEq, Eq)]
pub struct DdnetPlayer {
    pub flags: i32,
    pub auth_level: i32,
}

#[derive(Clone, Copy, Debug, PartialEq, Eq)]
pub struct SpectatorInfo {
    pub spectator_id: i32,
    pub x: i32,
    pub y: i32,
}

/// The flags of a character. Each switch is one flag of the protocol;
/// `weapons` holds the bits of the carried weapons in place.
#[derive(Clone, Copy, Debug, PartialEq, Eq)]
pub struct CharacterFlags {
    pub solo: bool,
    pub collision_disabled: bool,
    pub hook_hit_disabled: bool,
    pub endless_hook: bool,
    pub endless_jump: bool,
    pub is_super: bool,
    pub in_freeze: bool,
    pub weapon_ninja: bool,
    pub weapons: i32,
}

#[derive(Clone, Copy, Debug, PartialEq, Eq)]
pub struct DdnetCharacter {
    pub flags: CharacterFlags,
    pub freeze_end: i32,
    pub jumps: i32,
    pub tele_checkpoint: i32,
    pub strong_weak_id: i32,
    pub jumped_total: i32,
    pub ninja_activation_tick: i32,
    pub freeze_start: i32,
    pub target_x: i32,
    pub target_y: i32,
    pub tune_zone_override: i32,
}

#[derive(Clone, Copy, Debug, PartialEq, Eq)]
pub struct CharacterCore {
    pub tick: i32,
    pub x: i32,
    pub y: i32,
    pub vel_x: i32,
    pub vel_y: i32,
    pub angle: i32,
    pub direction: i32,
    pub jumped: i32,
    pub hooked_player: i32,
    pub hook_state: i32,
    pub hook_tick: i32,
    pub hook_x: i32,
    pub hook_y: i32,
    pub hook_dx: i32,
    pub hook_dy: i32,
}

#[derive(Clone, Copy, Debug, PartialEq, Eq)]
pub struct CharacterObj {
    pub character_core: CharacterCore,
    pub player_flags: i32,
    pub health: i32,
    pub armor: i32,
    pub ammo_count: i32,
    pub weapon: i32,
    pub emote: Emote,
    pub attack_tick: i32,
}

#[derive(Clone, Copy, Debug, PartialEq, Eq)]
pub struct ProjectileObj {
    pub x: i32,
    pub y: i32,
    pub vel_x: i32,
    pub vel_y: i32,
    pub type_: Weapon,
    pub start_tick: i32,
}

#[derive(Clone, Copy, Debug, PartialEq, Eq)]
pub struct PickupObj {
    pub x: i32,
    pub y: i32,
    pub type_: i32,
    pub subtype: i32,
}

#[derive(Clone, Copy, Debug, PartialEq, Eq)]
pub struct FlagObj {
    pub x: i32,
    pub y: i32,
    pub team: i32,
}

#[derive(Clone, Copy, Debug, PartialEq, Eq)]
pub struct LaserObj {
    pub x: i32,
    pub y: i32,
    pub from_x: i32,
    pub from_y: i32,
    pub start_tick: i32,
}

/// The position that every event object has.
#[derive(Clone, Copy, Debug, PartialEq, Eq)]
pub struct Common {
    pub x: i32,
    pub y: i32,
}

/// One object of a snapshot.
#[derive(Clone, Copy, Debug, PartialEq, Eq)]
pub enum SnapObj {
    GameInfo(GameInfo),
    GameInfoEx(GameInfoEx),
    GameData(GameData),
    ClientInfo(ClientInfo),
    PlayerInfo(PlayerInfo),
    DdnetPlayer(DdnetPlayer),
    SpectatorInfo(SpectatorInfo),
    DdnetCharacter(DdnetCharacter),
    Character(CharacterObj),
    Projectile(ProjectileObj),
    Pickup(PickupObj),
    Flag(FlagObj),
    Laser(LaserObj),
    SoundWorld { common: Common, sound_id: Sound },
    Explosion { common: Common },
    Spawn { common: Common },
    Death { common: Common, client_id: i32 },
    HammerHit { common: Common },
    DamageInd { common: Common, angle: i32 },
}

/// An object together with its id.
#[derive(Clone, Copy, Debug, PartialEq, Eq)]
pub struct SnapItem {
    pub id: u16,
    pub obj: SnapObj,
}

} // verus!
