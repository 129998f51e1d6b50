//! Translating the events of the game world.
use crate::legacy::messages::{emit, shown, Action, Bytes, Text};
use crate::legacy::objects::{Common, SnapObj, Sound};
use crate::legacy::snapshot::{slot_number, slot_or, weapon, weapon_number};
use crate::legacy::world::WeaponType;
use crate::text::{append, bounded, equal, is_cut, lemma_is_cut, truncate};
use std::collections::HashMap;
use vstd::prelude::*;

verus! {

/// Event bursts are kept small: snapshots hold 64 KiB, other objects
/// included.
pub const MAX_PENDING_EFFECTS: usize = 256;

/// The most bytes of a chat message.
pub const MAX_CHAT: usize = 512;

#[derive(Clone, Copy, Debug, PartialEq, Eq)]
pub enum CharacterSound {
    WeaponSwitch,
    NoAmmo,
    HammerFire,
    GunFire,
    GrenadeFire,
    LaserFire,
    ShotgunFire,
    PullerFire,
    GroundJump,
    AirJump,
    HookHitPlayer,
    HookHitHookable,
    HookHitUnhookable,
    Spawn,
    Death,
    Pain { long: bool },
    Hit,
    HammerHit,
}

#[derive(Clone, Copy, Debug, PartialEq, Eq)]
pub enum GrenadeSound {
    Spawn,
    Collect,
    Explosion,
}

#[derive(Clone, Copy, Debug, PartialEq, Eq)]
pub enum LaserSound {
    Spawn,
    Collect,
    Bounce,
}

#[derive(Clone, Copy, Debug, PartialEq, Eq)]
pub enum ItemSound {
    Spawn,
    Collect,
}

#[derive(Clone, Copy, Debug, PartialEq, Eq)]
pub enum FlagSound {
    Capture,
    Drop,
    Return,
    Collect,
}

/// A sound of the native game.
#[derive(Clone, Copy, Debug, PartialEq, Eq)]
pub enum SoundEvent {
    Character(CharacterSound),
    Grenade(GrenadeSound),
    Laser(LaserSound),
    Shotgun(ItemSound),
    Puller(ItemSound),
    Flag(FlagSound),
    Heart(ItemSound),
    Armor(ItemSound),
    Other,
}

pub open spec fn character_sound(event: CharacterSound) -> Sound {
    match event {
        CharacterSound::WeaponSwitch => Sound::WeaponSwitch,
        CharacterSound::NoAmmo => Sound::WeaponNoammo,
        CharacterSound::HammerFire => Sound::HammerFire,
        CharacterSound::GunFire => Sound::GunFire,
        CharacterSound::GrenadeFire => Sound::GrenadeFire,
        CharacterSound::LaserFire => Sound::RifleFire,
        CharacterSound::ShotgunFire | CharacterSound::PullerFire => Sound::ShotgunFire,
        CharacterSound::GroundJump => Sound::PlayerJump,
        CharacterSound::AirJump => Sound::PlayerAirjump,
        CharacterSound::HookHitPlayer => Sound::HookAttachPlayer,
        CharacterSound::HookHitHookable => Sound::HookAttachGround,
        CharacterSound::HookHitUnhookable => Sound::HookNoattach,
        CharacterSound::Spawn => Sound::PlayerSpawn,
        CharacterSound::Death => Sound::PlayerDie,
        CharacterSound::Pain { long } => if long {
            Sound::PlayerPainLong
        } else {
            Sound::PlayerPainShort
        },
        CharacterSound::Hit => Sound::Hit,
        CharacterSound::HammerHit => Sound::HammerHit,
    }
}

/// The sound of an item that appears, or is collected.
pub open spec fn item_sound(event: ItemSound, collected: Sound) -> Sound {
    match event {
        ItemSound::Spawn => Sound::WeaponSpawn,
        ItemSound::Collect => collected,
    }
}

/// The sound that stands for a sound of the native game. Pullers and lasers
/// sound like shotguns where there is nothing closer.
pub open spec fn sound_of(event: SoundEvent) -> Option<Sound> {
    match event {
        SoundEvent::Character(event) => Some(character_sound(event)),
        SoundEvent::Grenade(event) => Some(
            match event {
                GrenadeSound::Spawn => Sound::WeaponSpawn,
                GrenadeSound::Collect => Sound::PickupGrenade,
                GrenadeSound::Explosion => Sound::GrenadeExplode,
            },
        ),
        SoundEvent::Laser(event) => Some(
            match event {
                LaserSound::Spawn => Sound::WeaponSpawn,
                LaserSound::Collect => Sound::PickupShotgun,
                LaserSound::Bounce => Sound::RifleBounce,
            },
        ),
        SoundEvent::Shotgun(event) => Some(item_sound(event, Sound::PickupShotgun)),
        SoundEvent::Puller(event) => Some(item_sound(event, Sound::PickupShotgun)),
        SoundEvent::Flag(event) => Some(
            match event {
                FlagSound::Capture => Sound::CtfCapture,
                FlagSound::Drop => Sound::CtfDrop,
                FlagSound::Return => Sound::CtfReturn,
                FlagSound::Collect => Sound::CtfGrabPl,
            },
        ),
        SoundEvent::Heart(event) => Some(item_sound(event, Sound::PickupHealth)),
        SoundEvent::Armor(event) => Some(item_sound(event, Sound::PickupArmor)),
        SoundEvent::Other => None,
    }
}

fn item(event: ItemSound, collected: Sound) -> (r: Sound)
    ensures
        r == item_sound(event, collected),
{
    match event {
        ItemSound::Spawn => Sound::WeaponSpawn,
        ItemSound::Collect => collected,
    }
}

/// The sound that stands for a sound of the native game.
pub fn sound(event: SoundEvent) -> (r: Option<Sound>)
    ensures
        r == sound_of(event),
{
    Some(
        match event {
            SoundEvent::Character(event) => match event {
                CharacterSound::WeaponSwitch => Sound::WeaponSwitch,
                CharacterSound::NoAmmo => Sound::WeaponNoammo,
                CharacterSound::HammerFire => Sound::HammerFire,
                CharacterSound::GunFire => Sound::GunFire,
                CharacterSound::GrenadeFire => Sound::GrenadeFire,
                CharacterSound::LaserFire => Sound::RifleFire,
                CharacterSound::ShotgunFire | CharacterSound::PullerFire => Sound::ShotgunFire,
                CharacterSound::GroundJump => Sound::PlayerJump,
                CharacterSound::AirJump => Sound::PlayerAirjump,
                CharacterSound::HookHitPlayer => Sound::HookAttachPlayer,
                CharacterSound::HookHitHookable => Sound::HookAttachGround,
                CharacterSound::HookHitUnhookable => Sound::HookNoattach,
                CharacterSound::Spawn => Sound::PlayerSpawn,
                CharacterSound::Death => Sound::PlayerDie,
                CharacterSound::Pain { long } => if long {
                    Sound::PlayerPainLong
                } else {
                    Sound::PlayerPainShort
                },
                CharacterSound::Hit => Sound::Hit,
                CharacterSound::HammerHit => Sound::HammerHit,
            },
            SoundEvent::Grenade(event) => match event {
                GrenadeSound::Spawn => Sound::WeaponSpawn,
                GrenadeSound::Collect => Sound::PickupGrenade,
                GrenadeSound::Explosion => Sound::GrenadeExplode,
            },
            SoundEvent::Laser(event) => match event {
                LaserSound::Spawn => Sound::WeaponSpawn,
                LaserSound::Collect => Sound::PickupShotgun,
                LaserSound::Bounce => Sound::RifleBounce,
            },
            SoundEvent::Shotgun(event) => item(event, Sound::PickupShotgun),
            SoundEvent::Puller(event) => item(event, Sound::PickupShotgun),
            SoundEvent::Flag(event) => match event {
                FlagSound::Capture => Sound::CtfCapture,
                FlagSound::Drop => Sound::CtfDrop,
                FlagSound::Return => Sound::CtfReturn,
                FlagSound::Collect => Sound::CtfGrabPl,
            },
            SoundEvent::Heart(event) => item(event, Sound::PickupHealth),
            SoundEvent::Armor(event) => item(event, Sound::PickupArmor),
            SoundEvent::Other => {
                return None;
            },
        },
    )
}

/// An effect of the native game. The angle of a damage indicator points
/// against the damage, in 256ths of a radian.
#[derive(Clone, Copy, Debug, PartialEq, Eq)]
pub enum EffectEvent {
    Explosion,
    Spawn,
    Death,
    HammerHit,
    DamageIndicator { angle: i32 },
    Other,
}

#[derive(Clone, Copy, Debug, PartialEq, Eq)]
pub enum KillWeapon {
    Weapon(WeaponType),
    Ninja,
    World,
}

/// An event of the native game. Positions are in pixels.
#[derive(Clone, Debug, PartialEq, Eq)]
pub enum WorldEvent {
    Sound { ev: SoundEvent, pos: Option<Common> },
    Effect { ev: EffectEvent, pos: Common, owner: Option<u64> },
    Motd { msg: String },
    Message { msg: String },
    PlayerJoined { name: String },
    PlayerLeft { name: String },
    CharacterInfoChanged { old_name: String, new_name: String },
    Kill { killer: Option<u64>, victims: Vec<u64>, weapon: KillWeapon },
    /// A finished race, with the time in seconds to two decimals.
    RaceFinish { seconds: String },
}

/// The object that stands for an effect. The death of an unknown player is
/// shown as that of player zero.
pub open spec fn effect_object(
    players: Map<u64, u16>,
    ev: EffectEvent,
    common: Common,
    owner: Option<u64>,
) -> Option<SnapObj> {
    match ev {
        EffectEvent::Explosion => Some(SnapObj::Explosion { common }),
        EffectEvent::Spawn => Some(SnapObj::Spawn { common }),
        EffectEvent::Death => Some(
            SnapObj::Death {
                common,
                client_id: match owner {
                    Some(id) => slot_or(players, id, 0),
                    None => 0,
                },
            },
        ),
        EffectEvent::HammerHit => Some(SnapObj::HammerHit { common }),
        EffectEvent::DamageIndicator { angle } => Some(SnapObj::DamageInd { common, angle }),
        EffectEvent::Other => None,
    }
}

/// The object that an event leaves for the next snapshot.
pub open spec fn pending_object(players: Map<u64, u16>, event: WorldEvent) -> Option<SnapObj> {
    match event {
        WorldEvent::Sound { ev, pos } => match (sound_of(ev), pos) {
            (Some(sound_id), Some(common)) => Some(SnapObj::SoundWorld { common, sound_id }),
            _ => None,
        },
        WorldEvent::Effect { ev, pos, owner } => effect_object(players, ev, pos, owner),
        _ => None,
    }
}

/// A chat message of the server.
pub open spec fn server_chat(text: Text) -> Action<Text, Bytes> {
    Action::Chat { team: 0, client_id: -1i32, message: bounded(text, MAX_CHAT as nat) }
}

pub open spec fn kill_weapon_number(weapon: KillWeapon) -> i32 {
    match weapon {
        KillWeapon::Weapon(w) => weapon_number(w),
        KillWeapon::Ninja => 5,
        KillWeapon::World => -1i32,
    }
}

/// The messages about a kill, one for each victim that has a slot. An unknown
/// killer shows as the victim.
pub open spec fn kill_messages(
    players: Map<u64, u16>,
    killer: Option<u64>,
    victims: Seq<u64>,
    weapon: KillWeapon,
) -> Seq<Action<Text, Bytes>>
    decreases victims.len(),
{
    if victims.len() == 0 {
        seq![]
    } else {
        let head = kill_messages(players, killer, victims.drop_last(), weapon);
        let id = victims.last();
        if players.contains_key(id) {
            let victim = players[id] as i32;
            head.push(
                Action::KillMsg {
                    killer: match killer {
                        Some(k) => slot_or(players, k, victim),
                        None => victim,
                    },
                    victim,
                    weapon: kill_weapon_number(weapon),
                },
            )
        } else {
            head
        }
    }
}

/// The messages that an event makes the client receive.
pub open spec fn event_messages(players: Map<u64, u16>, event: WorldEvent) -> Seq<
    Action<Text, Bytes>,
> {
    match event {
        WorldEvent::Sound { ev, pos } => match (sound_of(ev), pos) {
            (Some(sound_id), None) => seq![Action::SoundGlobal { sound_id }],
            _ => seq![],
        },
        WorldEvent::Effect { .. } => seq![],
        WorldEvent::Motd { msg } => seq![Action::Motd { message: msg@ }],
        WorldEvent::Message { msg } => seq![server_chat(msg@)],
        WorldEvent::PlayerJoined { name } => seq![server_chat(name@ + " entered the game"@)],
        WorldEvent::PlayerLeft { name } => seq![server_chat(name@ + " left the game"@)],
        WorldEvent::CharacterInfoChanged { old_name, new_name } => if old_name@ == new_name@ {
            seq![]
        } else {
            seq![server_chat(old_name@ + " is now known as "@ + new_name@)]
        },
        WorldEvent::Kill { killer, victims, weapon } => kill_messages(
            players,
            killer,
            victims@,
            weapon,
        ),
        WorldEvent::RaceFinish { seconds } => seq![
            server_chat("Finished in "@ + seconds@ + " seconds"@),
        ],
    }
}

/// The last `n` items.
pub open spec fn last_of<T>(list: Seq<T>, n: nat) -> Seq<T> {
    if list.len() > n {
        list.skip(list.len() - n)
    } else {
        list
    }
}

/// The pending objects after an event. The oldest ones give way.
pub open spec fn effects_after(
    players: Map<u64, u16>,
    effects: Seq<SnapObj>,
    event: WorldEvent,
) -> Seq<SnapObj> {
    last_of(
        match pending_object(players, event) {
            Some(obj) => effects.push(obj),
            None => effects,
        },
        MAX_PENDING_EFFECTS as nat,
    )
}

/// The pending objects and the messages after all events.
pub open spec fn translated_events(
    players: Map<u64, u16>,
    effects: Seq<SnapObj>,
    events: Seq<WorldEvent>,
) -> (Seq<SnapObj>, Seq<Action<Text, Bytes>>)
    decreases events.len(),
{
    if events.len() == 0 {
        (effects, seq![])
    } else {
        let (effects, messages) = translated_events(players, effects, events.drop_last());
        (
            effects_after(players, effects, events.last()),
            messages + event_messages(players, events.last()),
        )
    }
}

/// Adds a chat message of the server.
fn chat(message: &str, out: &mut Vec<Action<String, Vec<u8>>>)
    ensures
        shown(final(out)@) == shown(old(out)@).push(server_chat(message@)),
{
    emit(
        out,
        Action::Chat { team: 0, client_id: -1, message: truncate(message, MAX_CHAT) },
    );
}

fn chat_parts(a: &str, b: &str, c: &str, out: &mut Vec<Action<String, Vec<u8>>>)
    ensures
        shown(final(out)@) == shown(old(out)@).push(server_chat(a@ + b@ + c@)),
{
    let mut text = a.to_owned();
    append(&mut text, b);
    append(&mut text, c);
    chat(text.as_str(), out);
}

fn kill(
    players: &HashMap<u64, u16>,
    killer: Option<u64>,
    victims: &Vec<u64>,
    by: KillWeapon,
    out: &mut Vec<Action<String, Vec<u8>>>,
)
    ensures
        shown(final(out)@) == shown(old(out)@) + kill_messages(players@, killer, victims@, by),
{
    let mut i: usize = 0;
    assert(shown(out@) =~= shown(old(out)@) + kill_messages(players@, killer, victims@.take(0), by));
    while i < victims.len()
        invariant
            i <= victims.len(),
            shown(out@) == shown(old(out)@) + kill_messages(
                players@,
                killer,
                victims@.take(i as int),
                by,
            ),
        decreases victims.len() - i,
    {
        let ghost before = shown(out@);
        if let Some(slot) = players.get(&victims[i]) {
            let victim: i32 = *slot as i32;
            let killer: i32 = match killer {
                Some(id) => slot_number(players, id, victim),
                None => victim,
            };
            let weapon: i32 = match by {
                KillWeapon::Weapon(w) => weapon(w),
                KillWeapon::Ninja => 5,
                KillWeapon::World => -1,
            };
            emit(out, Action::KillMsg { killer, victim, weapon });
        }
        i += 1;
        assert(victims@.take(i as int).drop_last() =~= victims@.take(i - 1));
        assert(shown(out@) =~= shown(old(out)@) + kill_messages(
            players@,
            killer,
            victims@.take(i as int),
            by,
        ));
    }
    assert(victims@.take(i as int) =~= victims@);
}

fn translate_one(
    players: &HashMap<u64, u16>,
    effects: &mut Vec<SnapObj>,
    event: &WorldEvent,
    out: &mut Vec<Action<String, Vec<u8>>>,
)
    ensures
        final(effects)@ == effects_after(players@, old(effects)@, *event),
        shown(final(out)@) == shown(old(out)@) + event_messages(players@, *event),
{
    match event {
        WorldEvent::Sound { ev, pos } => {
            if let Some(sound_id) = sound(*ev) {
                match pos {
                    Some(common) => {
                        effects.push(SnapObj::SoundWorld { common: *common, sound_id });
                    },
                    None => {
                        emit(out, Action::SoundGlobal { sound_id });
                    },
                }
            }
        },
        WorldEvent::Effect { ev, pos, owner } => {
            let common = *pos;
            match ev {
                EffectEvent::Explosion => {
                    effects.push(SnapObj::Explosion { common });
                },
                EffectEvent::Spawn => {
                    effects.push(SnapObj::Spawn { common });
                },
                EffectEvent::Death => {
                    let client_id: i32 = match owner {
                        Some(id) => slot_number(players, *id, 0),
                        None => 0,
                    };
                    effects.push(SnapObj::Death { common, client_id });
                },
                EffectEvent::HammerHit => {
                    effects.push(SnapObj::HammerHit { common });
                },
                EffectEvent::DamageIndicator { angle } => {
                    effects.push(SnapObj::DamageInd { common, angle: *angle });
                },
                EffectEvent::Other => {},
            }
        },
        WorldEvent::Motd { msg } => {
            emit(out, Action::Motd { message: msg.clone() });
        },
        WorldEvent::Message { msg } => {
            chat(msg.as_str(), out);
        },
        WorldEvent::PlayerJoined { name } => {
            let mut text = name.clone();
            append(&mut text, " entered the game");
            chat(text.as_str(), out);
        },
        WorldEvent::PlayerLeft { name } => {
            let mut text = name.clone();
            append(&mut text, " left the game");
            chat(text.as_str(), out);
        },
        WorldEvent::CharacterInfoChanged { old_name, new_name } => {
            if !equal(old_name.as_str(), new_name.as_str()) {
                chat_parts(old_name.as_str(), " is now known as ", new_name.as_str(), out);
            }
        },
        WorldEvent::Kill { killer, victims, weapon } => {
            kill(players, *killer, victims, *weapon, out);
        },
        WorldEvent::RaceFinish { seconds } => {
            chat_parts("Finished in ", seconds.as_str(), " seconds", out);
        },
    }
    assert(shown(out@) =~= shown(old(out)@) + event_messages(players@, *event));
    if effects.len() > MAX_PENDING_EFFECTS {
        let first: usize = effects.len() - MAX_PENDING_EFFECTS;
        let ghost all = effects@;
        let kept = effects.split_off(first);
        assert(kept@ =~= all.skip(first as int));
        *effects = kept;
    }
}

/// Translates events in order: some become messages, others objects of the
/// next snapshot.
pub fn translate(
    players: &HashMap<u64, u16>,
    effects: &mut Vec<SnapObj>,
    events: &Vec<WorldEvent>,
    out: &mut Vec<Action<String, Vec<u8>>>,
)
    ensures
        ({
            let (after, messages) = translated_events(players@, old(effects)@, events@);
            final(effects)@ == after && shown(final(out)@) == shown(old(out)@) + messages
        }),
{
    let mut i: usize = 0;
    assert(shown(out@) =~= shown(old(out)@) + translated_events(
        players@,
        old(effects)@,
        events@.take(0),
    ).1);
    while i < events.len()
        invariant
            i <= events.len(),
            ({
                let (after, messages) = translated_events(
                    players@,
                    old(effects)@,
                    events@.take(i as int),
                );
                effects@ == after && shown(out@) == shown(old(out)@) + messages
            }),
        decreases events.len() - i,
    {
        translate_one(players, effects, &events[i], out);
        i += 1;
        assert(events@.take(i as int).drop_last() =~= events@.take(i - 1));
        assert(shown(out@) =~= shown(old(out)@) + translated_events(
            players@,
            old(effects)@,
            events@.take(i as int),
        ).1);
    }
    assert(events@.take(i as int) =~= events@);
}

/// At most 256 objects are pending, whatever happens.
pub proof fn pending_effects_stay_limited(
    players: Map<u64, u16>,
    effects: Seq<SnapObj>,
    events: Seq<WorldEvent>,
)
    requires
        effects.len() <= MAX_PENDING_EFFECTS,
    ensures
        translated_events(players, effects, events).0.len() <= MAX_PENDING_EFFECTS,
    decreases events.len(),
{
    if events.len() > 0 {
        pending_effects_stay_limited(players, effects, events.drop_last());
    }
}

/// On overflow the newest object stays and the oldest goes.
pub proof fn newest_effect_stays(
    players: Map<u64, u16>,
    effects: Seq<SnapObj>,
    event: WorldEvent,
)
    requires
        pending_object(players, event) is Some,
    ensures
        effects_after(players, effects, event).last() == pending_object(players, event)->0,
        effects.len() == MAX_PENDING_EFFECTS ==> effects_after(players, effects, event)
            == effects.drop_first().push(pending_object(players, event)->0),
{
    let all = effects.push(pending_object(players, event)->0);
    if effects.len() == MAX_PENDING_EFFECTS {
        assert(all.skip(1) =~= effects.drop_first().push(pending_object(players, event)->0));
    }
}

/// Each sound of the old protocol stands for its own sounds of the native
/// game: a sound that was chosen tells what was heard. Only the sounds that
/// are not known have none.
pub proof fn sounds_tell_what_was_heard(ev: SoundEvent, r: Option<Sound>)
    requires
        call_ensures(sound, (ev,), r),
    ensures
        r is None <==> ev == SoundEvent::Other,
        r == Some(Sound::GunFire) <==> ev == (SoundEvent::Character(CharacterSound::GunFire)),
        r == Some(Sound::ShotgunFire) <==> ev == (SoundEvent::Character(CharacterSound::ShotgunFire)) || ev == (SoundEvent::Character(CharacterSound::PullerFire)),
        r == Some(Sound::GrenadeFire) <==> ev == (SoundEvent::Character(CharacterSound::GrenadeFire)),
        r == Some(Sound::HammerFire) <==> ev == (SoundEvent::Character(CharacterSound::HammerFire)),
        r == Some(Sound::HammerHit) <==> ev == (SoundEvent::Character(CharacterSound::HammerHit)),
        r == Some(Sound::GrenadeExplode) <==> ev == (SoundEvent::Grenade(GrenadeSound::Explosion)),
        r == Some(Sound::RifleFire) <==> ev == (SoundEvent::Character(CharacterSound::LaserFire)),
        r == Some(Sound::RifleBounce) <==> ev == (SoundEvent::Laser(LaserSound::Bounce)),
        r == Some(Sound::WeaponSwitch) <==> ev == (SoundEvent::Character(CharacterSound::WeaponSwitch)),
        r == Some(Sound::PlayerPainShort) <==> ev == (SoundEvent::Character(CharacterSound::Pain { long: false })),
        r == Some(Sound::PlayerPainLong) <==> ev == (SoundEvent::Character(CharacterSound::Pain { long: true })),
        r == Some(Sound::PlayerAirjump) <==> ev == (SoundEvent::Character(CharacterSound::AirJump)),
        r == Some(Sound::PlayerJump) <==> ev == (SoundEvent::Character(CharacterSound::GroundJump)),
        r == Some(Sound::PlayerDie) <==> ev == (SoundEvent::Character(CharacterSound::Death)),
        r == Some(Sound::PlayerSpawn) <==> ev == (SoundEvent::Character(CharacterSound::Spawn)),
        r == Some(Sound::PickupHealth) <==> ev == (SoundEvent::Heart(ItemSound::Collect)),
        r == Some(Sound::PickupArmor) <==> ev == (SoundEvent::Armor(ItemSound::Collect)),
        r == Some(Sound::PickupGrenade) <==> ev == (SoundEvent::Grenade(GrenadeSound::Collect)),
        r == Some(Sound::PickupShotgun) <==> ev == (SoundEvent::Shotgun(ItemSound::Collect)) || ev == (SoundEvent::Puller(ItemSound::Collect)) || ev == (SoundEvent::Laser(LaserSound::Collect)),
        r == Some(Sound::WeaponSpawn) <==> ev == (SoundEvent::Grenade(GrenadeSound::Spawn)) || ev == (SoundEvent::Laser(LaserSound::Spawn)) || ev == (SoundEvent::Shotgun(ItemSound::Spawn)) || ev == (SoundEvent::Puller(ItemSound::Spawn)) || ev == (SoundEvent::Heart(ItemSound::Spawn)) || ev == (SoundEvent::Armor(ItemSound::Spawn)),
        r == Some(Sound::WeaponNoammo) <==> ev == (SoundEvent::Character(CharacterSound::NoAmmo)),
        r == Some(Sound::Hit) <==> ev == (SoundEvent::Character(CharacterSound::Hit)),
        r == Some(Sound::CtfDrop) <==> ev == (SoundEvent::Flag(FlagSound::Drop)),
        r == Some(Sound::CtfReturn) <==> ev == (SoundEvent::Flag(FlagSound::Return)),
        r == Some(Sound::CtfGrabPl) <==> ev == (SoundEvent::Flag(FlagSound::Collect)),
        r == Some(Sound::CtfCapture) <==> ev == (SoundEvent::Flag(FlagSound::Capture)),
        r == Some(Sound::HookAttachGround) <==> ev == (SoundEvent::Character(CharacterSound::HookHitHookable)),
        r == Some(Sound::HookAttachPlayer) <==> ev == (SoundEvent::Character(CharacterSound::HookHitPlayer)),
        r == Some(Sound::HookNoattach) <==> ev == (SoundEvent::Character(CharacterSound::HookHitUnhookable)),
{
}

/// Translating events one after the other is the same as translating them
/// together: nothing is lost, repeated or taken out of order.
pub proof fn events_are_translated_in_order(
    players: HashMap<u64, u16>,
    first: Vec<WorldEvent>,
    second: Vec<WorldEvent>,
    all: Vec<WorldEvent>,
    effects_a: &mut Vec<SnapObj>,
    out_a: &mut Vec<Action<String, Vec<u8>>>,
    effects_b: &mut Vec<SnapObj>,
    out_b: &mut Vec<Action<String, Vec<u8>>>,
    effects_c: &mut Vec<SnapObj>,
    out_c: &mut Vec<Action<String, Vec<u8>>>,
)
    requires
        all@ == first@ + second@,
        call_ensures(translate, (&players, effects_a, &first, out_a), ()),
        call_ensures(translate, (&players, effects_b, &second, out_b), ()),
        call_ensures(translate, (&players, effects_c, &all, out_c), ()),
        old(effects_b)@ == final(effects_a)@,
        old(out_b)@ == final(out_a)@,
        old(effects_c)@ == old(effects_a)@,
        old(out_c)@ == old(out_a)@,
    ensures
        final(effects_c)@ == final(effects_b)@,
        shown(final(out_c)@) == shown(final(out_b)@),
{
    lemma_events_join(players@, old(effects_a)@, first@, second@);
    assert(shown(final(out_c)@) =~= shown(final(out_b)@));
}

proof fn lemma_events_join(
    players: Map<u64, u16>,
    effects: Seq<SnapObj>,
    a: Seq<WorldEvent>,
    b: Seq<WorldEvent>,
)
    ensures
        ({
            let (middle, head) = translated_events(players, effects, a);
            let (last, tail) = translated_events(players, middle, b);
            translated_events(players, effects, a + b) == (last, head + tail)
        }),
    decreases b.len(),
{
    let (middle, head) = translated_events(players, effects, a);
    if b.len() == 0 {
        assert(a + b =~= a);
        assert(head + Seq::<Action<Text, Bytes>>::empty() =~= head);
    } else {
        lemma_events_join(players, effects, a, b.drop_last());
        assert((a + b).drop_last() =~= a + b.drop_last());
        let (_, tail) = translated_events(players, middle, b.drop_last());
        let more = event_messages(players, b.last());
        assert((head + tail) + more =~= head + (tail + more));
    }
}

/// What one event leads to: the objects that it leaves and the messages that
/// it sends, after those that were there.
proof fn lemma_one_event(
    players: Map<u64, u16>,
    effects: Seq<SnapObj>,
    event: WorldEvent,
    events: Seq<WorldEvent>,
    before: Seq<Action<String, Vec<u8>>>,
    after: Seq<Action<String, Vec<u8>>>,
)
    requires
        events == seq![event],
        shown(after) == shown(before) + translated_events(players, effects, events).1,
    ensures
        translated_events(players, effects, events) == (
            effects_after(players, effects, event),
            event_messages(players, event),
        ),
        after.len() == before.len() + event_messages(players, event).len(),
        forall|i: int|
            0 <= i < event_messages(players, event).len() ==> #[trigger] after[before.len() + i]@
                == event_messages(players, event)[i],
        forall|i: int| 0 <= i < before.len() ==> (#[trigger] after[i])@ == before[i]@,
{
    reveal_with_fuel(translated_events, 2);
    assert(events.drop_last() =~= seq![]);
    let messages = event_messages(players, event);
    assert(Seq::<Action<Text, Bytes>>::empty() + messages =~= messages);
    assert(shown(after).len() == after.len());
    assert(shown(before).len() == before.len());
    assert forall|i: int| 0 <= i < messages.len() implies #[trigger] after[before.len() + i]@
        == messages[i] by {
        assert(shown(after)[before.len() + i] == messages[i]);
    }
    assert forall|i: int| 0 <= i < before.len() implies (#[trigger] after[i])@ == before[i]@ by {
        assert(shown(after)[i] == shown(before)[i]);
    }
}

/// Those of the players that have a slot, in their order.
pub open spec fn with_slots(players: Map<u64, u16>, ids: Seq<u64>) -> Seq<u64> {
    ids.filter(|id: u64| players.contains_key(id))
}

proof fn lemma_kill_messages(
    players: Map<u64, u16>,
    killer: Option<u64>,
    victims: Seq<u64>,
    weapon: KillWeapon,
)
    ensures
        ({
            let known = with_slots(players, victims);
            let sent = kill_messages(players, killer, victims, weapon);
            &&& sent.len() == known.len()
            &&& forall|i: int|
                0 <= i < sent.len() ==> #[trigger] sent[i] == (Action::<Text, Bytes>::KillMsg {
                    killer: match killer {
                        Some(k) => slot_or(players, k, players[known[i]] as i32),
                        None => players[known[i]] as i32,
                    },
                    victim: players[known[i]] as i32,
                    weapon: kill_weapon_number(weapon),
                })
        }),
    decreases victims.len(),
{
    reveal(Seq::filter);
    if victims.len() > 0 {
        lemma_kill_messages(players, killer, victims.drop_last(), weapon);
    }
}

/// A kill is told once for each victim that has a slot, in their order. The
/// message names the slot of the victim, and as killer the slot of the one
/// who killed it. Only where the killer is absent or has no slot, the victim
/// stands in. The weapon is told by its number: ninja is 5, the world -1, and
/// the puller counts as a shotgun.
pub proof fn kills_name_killer_and_victims(
    players: HashMap<u64, u16>,
    killer: Option<u64>,
    victims: Vec<u64>,
    weapon: KillWeapon,
    events: Vec<WorldEvent>,
    effects: &mut Vec<SnapObj>,
    out: &mut Vec<Action<String, Vec<u8>>>,
)
    requires
        events@ == seq![WorldEvent::Kill { killer, victims, weapon }],
        old(effects)@.len() <= 256,
        call_ensures(translate, (&players, effects, &events, out), ()),
    ensures
        ({
            let known = with_slots(players@, victims@);
            let n = old(out)@.len();
            &&& final(effects)@ == old(effects)@
            &&& final(out)@.len() == n + known.len()
            &&& forall|i: int|
                0 <= i < known.len() ==> {
                    &&& #[trigger] final(out)@[n + i] is KillMsg
                    &&& final(out)@[n + i]->victim == players@[known[i]]
                    &&& (killer matches Some(k) && players@.contains_key(k)) ==> final(out)@[n
                        + i]->killer == players@[killer->0]
                    &&& !(killer matches Some(k) && players@.contains_key(k)) ==> final(out)@[n
                        + i]->killer == players@[known[i]]
                    &&& ({
                        let number = final(out)@[n + i]->KillMsg_weapon;
                        &&& number == 0 <==> weapon == KillWeapon::Weapon(WeaponType::Hammer)
                        &&& number == 1 <==> weapon == KillWeapon::Weapon(WeaponType::Gun)
                        &&& number == 2 <==> weapon == KillWeapon::Weapon(WeaponType::Shotgun)
                            || weapon == KillWeapon::Weapon(WeaponType::Puller)
                        &&& number == 3 <==> weapon == KillWeapon::Weapon(WeaponType::Grenade)
                        &&& number == 4 <==> weapon == KillWeapon::Weapon(WeaponType::Laser)
                        &&& number == 5 <==> weapon == KillWeapon::Ninja
                        &&& number == -1 <==> weapon == KillWeapon::World
                    })
                }
        }),
{
    let event = WorldEvent::Kill { killer, victims, weapon };
    lemma_one_event(players@, old(effects)@, event, events@, old(out)@, final(out)@);
    lemma_kill_messages(players@, killer, victims@, weapon);
    let known = with_slots(players@, victims@);
    let n = old(out)@.len();
    let sent = event_messages(players@, event);
    assert forall|i: int| 0 <= i < known.len() implies {
            &&& #[trigger] final(out)@[n + i] is KillMsg
            &&& final(out)@[n + i]->victim == players@[known[i]]
            &&& (killer matches Some(k) && players@.contains_key(k)) ==> final(out)@[n
                + i]->killer == players@[killer->0]
            &&& !(killer matches Some(k) && players@.contains_key(k)) ==> final(out)@[n
                + i]->killer == players@[known[i]]
            &&& ({
                let number = final(out)@[n + i]->KillMsg_weapon;
                &&& number == 0 <==> weapon == KillWeapon::Weapon(WeaponType::Hammer)
                &&& number == 1 <==> weapon == KillWeapon::Weapon(WeaponType::Gun)
                &&& number == 2 <==> weapon == KillWeapon::Weapon(WeaponType::Shotgun)
                    || weapon == KillWeapon::Weapon(WeaponType::Puller)
                &&& number == 3 <==> weapon == KillWeapon::Weapon(WeaponType::Grenade)
                &&& number == 4 <==> weapon == KillWeapon::Weapon(WeaponType::Laser)
                &&& number == 5 <==> weapon == KillWeapon::Ninja
                &&& number == -1 <==> weapon == KillWeapon::World
            })
    } by {
        assert(final(out)@[n + i]@ == sent[i]);
    }
}

/// A sound at a place becomes an object there for the next snapshot, and one
/// without a place a message. A sound that is not known becomes neither.
pub proof fn sounds_are_heard_where_they_are(
    players: HashMap<u64, u16>,
    ev: SoundEvent,
    pos: Option<Common>,
    heard: Option<Sound>,
    events: Vec<WorldEvent>,
    effects: &mut Vec<SnapObj>,
    out: &mut Vec<Action<String, Vec<u8>>>,
)
    requires
        events@ == seq![WorldEvent::Sound { ev, pos }],
        old(effects)@.len() < 256,
        call_ensures(sound, (ev,), heard),
        call_ensures(translate, (&players, effects, &events, out), ()),
    ensures
        match (heard, pos) {
            (None, _) => final(effects)@ == old(effects)@ && final(out)@.len() == old(out)@.len(),
            (Some(sound_id), Some(common)) => final(effects)@ == old(effects)@.push(
                SnapObj::SoundWorld { common, sound_id },
            ) && final(out)@.len() == old(out)@.len(),
            (Some(sound_id), None) => final(effects)@ == old(effects)@ && final(out)@.len()
                == old(out)@.len() + 1 && final(out)@.last() == (Action::<
                String,
                Vec<u8>,
            >::SoundGlobal { sound_id }),
        },
{
    let event = WorldEvent::Sound { ev, pos };
    lemma_one_event(players@, old(effects)@, event, events@, old(out)@, final(out)@);
    if heard is Some && pos is None {
        assert(final(out)@[old(out)@.len() + 0int]@ == event_messages(players@, event)[0]);
    }
}

/// An effect becomes the object of its kind at its place, and sends nothing.
/// A death is that of its owner if the owner has a slot.
pub proof fn effects_are_seen_where_they_are(
    players: HashMap<u64, u16>,
    ev: EffectEvent,
    pos: Common,
    owner: Option<u64>,
    events: Vec<WorldEvent>,
    effects: &mut Vec<SnapObj>,
    out: &mut Vec<Action<String, Vec<u8>>>,
)
    requires
        events@ == seq![WorldEvent::Effect { ev, pos, owner }],
        old(effects)@.len() < 256,
        call_ensures(translate, (&players, effects, &events, out), ()),
    ensures
        final(out)@.len() == old(out)@.len(),
        ev == EffectEvent::Other ==> final(effects)@ == old(effects)@,
        ev != EffectEvent::Other ==> {
            let obj = final(effects)@.last();
            &&& final(effects)@ == old(effects)@.push(obj)
            &&& obj is Explosion <==> ev is Explosion
            &&& obj is Spawn <==> ev is Spawn
            &&& obj is Death <==> ev is Death
            &&& obj is HammerHit <==> ev is HammerHit
            &&& obj is DamageInd <==> ev is DamageIndicator
            &&& obj matches SnapObj::Explosion { common } ==> common == pos
            &&& obj matches SnapObj::Spawn { common } ==> common == pos
            &&& obj matches SnapObj::HammerHit { common } ==> common == pos
            &&& obj matches SnapObj::DamageInd { common, angle } ==> common == pos && ev
                == (EffectEvent::DamageIndicator { angle })
            &&& obj matches SnapObj::Death { common, client_id } ==> {
                &&& common == pos
                &&& (owner matches Some(id) && players@.contains_key(id)) ==> client_id
                    == players@[owner->0]
                &&& !(owner matches Some(id) && players@.contains_key(id)) ==> client_id == 0
            }
        },
{
    let event = WorldEvent::Effect { ev, pos, owner };
    lemma_one_event(players@, old(effects)@, event, events@, old(out)@, final(out)@);
}

/// Where 256 objects wait already, the oldest one gives way to a new one.
pub proof fn oldest_effect_gives_way(
    players: HashMap<u64, u16>,
    events: Vec<WorldEvent>,
    fewer: &mut Vec<SnapObj>,
    fewer_out: &mut Vec<Action<String, Vec<u8>>>,
    full: &mut Vec<SnapObj>,
    full_out: &mut Vec<Action<String, Vec<u8>>>,
)
    requires
        events@.len() == 1,
        old(full)@.len() == 256,
        old(fewer)@ == old(full)@.drop_first(),
        call_ensures(translate, (&players, fewer, &events, fewer_out), ()),
        call_ensures(translate, (&players, full, &events, full_out), ()),
    ensures
        final(fewer)@.len() == 256 ==> final(full)@ == final(fewer)@,
        final(fewer)@.len() < 256 ==> final(full)@ == old(full)@,
{
    reveal_with_fuel(translated_events, 2);
    assert(events@.drop_last() =~= seq![]);
    if let Some(obj) = pending_object(players@, events@.last()) {
        assert(old(full)@.push(obj).skip(1) =~= old(fewer)@.push(obj));
    }
}

/// Lines of the server tell who joined, left or is called otherwise, how long
/// a race took, and what the server says. They come from nobody, go to
/// everybody, and are cut to 512 bytes. The message of the day is passed on
/// as it is. None of these leaves an object behind.
pub proof fn server_lines_tell_what_happened(
    players: HashMap<u64, u16>,
    event: WorldEvent,
    events: Vec<WorldEvent>,
    effects: &mut Vec<SnapObj>,
    out: &mut Vec<Action<String, Vec<u8>>>,
)
    requires
        events@ == seq![event],
        old(effects)@.len() <= 256,
        !(event is Sound || event is Effect || event is Kill),
        call_ensures(translate, (&players, effects, &events, out), ()),
    ensures
        final(effects)@ == old(effects)@,
        ({
            let n = old(out)@.len() as int;
            let line = match event {
                WorldEvent::Message { msg } => msg@,
                WorldEvent::PlayerJoined { name } => name@ + " entered the game"@,
                WorldEvent::PlayerLeft { name } => name@ + " left the game"@,
                WorldEvent::CharacterInfoChanged { old_name, new_name } => old_name@
                    + " is now known as "@ + new_name@,
                WorldEvent::RaceFinish { seconds } => "Finished in "@ + seconds@ + " seconds"@,
                _ => seq![],
            };
            match event {
                WorldEvent::Motd { msg } => final(out)@.len() == n + 1 && (
                final(out)@[n] matches Action::Motd { message } && message@ == msg@),
                WorldEvent::CharacterInfoChanged { old_name, new_name } if old_name@
                    == new_name@ => final(out)@.len() == n,
                _ => final(out)@.len() == n + 1 && (final(out)@[n] matches Action::Chat {
                    team,
                    client_id,
                    message,
                } && team == 0 && client_id == -1 && is_cut(line, 512, message@)),
            }
        }),
{
    lemma_one_event(players@, old(effects)@, event, events@, old(out)@, final(out)@);
    let n = old(out)@.len();
    let sent = event_messages(players@, event);
    if sent.len() > 0 {
        assert(final(out)@[n + 0int]@ == sent[0]);
    }
    match event {
        WorldEvent::Message { msg } => lemma_is_cut(msg@, 512),
        WorldEvent::PlayerJoined { name } => lemma_is_cut(name@ + " entered the game"@, 512),
        WorldEvent::PlayerLeft { name } => lemma_is_cut(name@ + " left the game"@, 512),
        WorldEvent::CharacterInfoChanged { old_name, new_name } => lemma_is_cut(
            old_name@ + " is now known as "@ + new_name@,
            512,
        ),
        WorldEvent::RaceFinish { seconds } => lemma_is_cut(
            "Finished in "@ + seconds@ + " seconds"@,
            512,
        ),
        _ => {},
    }
}

} // verus!
