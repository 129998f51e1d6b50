//! Building DDNet 0.6 snapshots out of native ones.
use crate::legacy::character::{
    all_mapped, characters, spectator_items, spectators, stage_items,
};
use crate::legacy::objects::{
    ClientInfo, FlagObj, GameData, GameInfo, GameInfoEx, LaserObj, PickupObj, PlayerInfo,
    ProjectileObj, SnapItem, SnapObj, Team, Weapon,
};
use crate::legacy::world::{
    character_of, CarriedWeapon, Character, CharacterLook, Flag, Laser, MatchPhase, MatchType,
    Pickup, PickupType, Projectile, RaceProjectile, SkinInfo, Snapshot, Spectator, Stage,
    WeaponType, WeaponWithProjectile,
};
use crate::tables::{entries, holds_value, lists};
use std::collections::{BTreeMap, HashMap};
use vstd::prelude::*;

verus! {

/// The slot number of a weapon in the old protocol, which has no puller.
pub open spec fn weapon_number(w: WeaponType) -> i32 {
    match w {
        WeaponType::Hammer => 0,
        WeaponType::Gun => 1,
        WeaponType::Shotgun | WeaponType::Puller => 2,
        WeaponType::Grenade => 3,
        WeaponType::Laser => 4,
    }
}

/// The slot number of a weapon.
pub fn weapon(w: WeaponType) -> (r: i32)
    ensures
        r == weapon_number(w),
{
    match w {
        WeaponType::Hammer => 0,
        WeaponType::Gun => 1,
        WeaponType::Shotgun | WeaponType::Puller => 2,
        WeaponType::Grenade => 3,
        WeaponType::Laser => 4,
    }
}

/// The flag bit of a carried weapon: bit 14 plus the slot number.
pub open spec fn weapon_bit(w: WeaponType) -> i32 {
    match w {
        WeaponType::Hammer => 0x4000,
        WeaponType::Gun => 0x8000,
        WeaponType::Shotgun | WeaponType::Puller => 0x1_0000,
        WeaponType::Grenade => 0x2_0000,
        WeaponType::Laser => 0x4_0000,
    }
}

/// The flag bits of all carried weapons.
pub open spec fn weapon_bits(weapons: Seq<CarriedWeapon>) -> i32
    decreases weapons.len(),
{
    if weapons.len() == 0 {
        0
    } else {
        weapon_bits(weapons.drop_last()) | weapon_bit(weapons.last().weapon)
    }
}

pub(crate) fn weapon_flags(weapons: &Vec<CarriedWeapon>) -> (r: i32)
    ensures
        r == weapon_bits(weapons@),
{
    let mut bits: i32 = 0;
    let mut i: usize = 0;
    while i < weapons.len()
        invariant
            i <= weapons.len(),
            bits == weapon_bits(weapons@.take(i as int)),
        decreases weapons.len() - i,
    {
        assert(weapons@.take(i + 1).drop_last() =~= weapons@.take(i as int));
        let bit: i32 = match weapons[i].weapon {
            WeaponType::Hammer => 0x4000,
            WeaponType::Gun => 0x8000,
            WeaponType::Shotgun | WeaponType::Puller => 0x1_0000,
            WeaponType::Grenade => 0x2_0000,
            WeaponType::Laser => 0x4_0000,
        };
        bits = bits | bit;
        i += 1;
    }
    assert(weapons@.take(weapons.len() as int) =~= weapons@);
    bits
}

/// Byte `i` of a text field of `size` bytes. The text is cut so that a
/// terminating zero remains, and every byte is shifted by 128.
pub open spec fn field_byte(text: Seq<u8>, size: int, i: int) -> int {
    let b = if i < text.len() && i < size - 1 {
        text[i] as int
    } else {
        0
    };
    (b + 128) % 256
}

/// Word `k` of a text field of `size` bytes, big-endian.
pub open spec fn field_word(text: Seq<u8>, size: int, k: int) -> i32 {
    let v = field_byte(text, size, 4 * k) * 0x100_0000 + field_byte(text, size, 4 * k + 1) * 0x1_0000
        + field_byte(text, size, 4 * k + 2) * 0x100 + field_byte(text, size, 4 * k + 3);
    (if v >= 0x8000_0000 {
        v - 0x1_0000_0000
    } else {
        v
    }) as i32
}

/// A text field of `n` words.
pub open spec fn field_words(text: Seq<u8>, n: nat) -> Seq<i32> {
    Seq::new(n, |k: int| field_word(text, 4 * n as int, k))
}

/// A text field as an array.
pub open spec fn text_field<const N: usize>(text: Seq<char>) -> [i32; N] {
    choose|a: [i32; N]| a@ == field_words(vstd::utf8::encode_utf8(text), N as nat)
}

fn shifted_byte(bytes: &[u8], size: usize, i: usize) -> (r: u32)
    requires
        size > 0,
    ensures
        r == field_byte(bytes@, size as int, i as int),
        r < 256,
{
    let b: u32 = if i < bytes.len() && i < size - 1 {
        bytes[i] as u32
    } else {
        0
    };
    (b + 128) % 256
}

/// Packs a text into a field of `N` words.
pub fn string<const N: usize>(text: &str) -> (r: [i32; N])
    requires
        0 < N <= 0x1000_0000,
    ensures
        r@ == field_words(vstd::utf8::encode_utf8(text@), N as nat),
        r == text_field::<N>(text@),
{
    let bytes = text.as_bytes();
    let size: usize = 4 * N;
    let mut r = [0i32;N];
    let mut k: usize = 0;
    while k < N
        invariant
            k <= N <= 0x1000_0000,
            N > 0,
            size == 4 * N,
            bytes@ == vstd::utf8::encode_utf8(text@),
            forall|j: int|
                0 <= j < k ==> #[trigger] r@[j] == field_word(bytes@, size as int, j),
        decreases N - k,
    {
        let v: u32 = shifted_byte(bytes, size, 4 * k) * 0x100_0000 + shifted_byte(
            bytes,
            size,
            4 * k + 1,
        ) * 0x1_0000 + shifted_byte(bytes, size, 4 * k + 2) * 0x100 + shifted_byte(
            bytes,
            size,
            4 * k + 3,
        );
        let word: i32 = if v >= 0x8000_0000 {
            (v as i64 - 0x1_0000_0000) as i32
        } else {
            v as i32
        };
        r[k] = word;
        k += 1;
    }
    assert(r@ =~= field_words(vstd::utf8::encode_utf8(text@), N as nat));
    proof {
        let f = text_field::<N>(text@);
        assert(f@ == r@);
        assert(f =~= r) by {
            assert forall|i: int| 0 <= i < N implies f[i] == r[i] by {
                assert(f@[i] == r@[i]);
            }
        }
    }
    r
}

/// A text field ends with a zero, whatever the text, and holds the text's
/// bytes before it.
pub proof fn text_fields_are_terminated(text: Seq<u8>, n: nat, i: int)
    requires
        n > 0,
        0 <= i < 4 * n - 1,
        i < text.len(),
    ensures
        field_byte(text, 4 * n as int, 4 * n - 1) == 128,
        (field_byte(text, 4 * n as int, i) + 128) % 256 == text[i],
{
}

/// `n`, limited to the range of 32 bits.
pub open spec fn clamp_i32(n: int) -> i32 {
    if n < i32::MIN {
        i32::MIN
    } else if n > i32::MAX {
        i32::MAX
    } else {
        n as i32
    }
}

/// `n`, limited to the range of 32 bits.
pub fn clamp(n: i64) -> (r: i32)
    ensures
        r == clamp_i32(n as int),
{
    if n < -0x8000_0000 {
        i32::MIN
    } else if n > 0x7fff_ffff {
        i32::MAX
    } else {
        n as i32
    }
}

/// The low 32 bits of `n` as a signed number.
pub open spec fn low_i32(n: int) -> i32 {
    let low = n % 0x1_0000_0000;
    (if low >= 0x8000_0000 {
        low - 0x1_0000_0000
    } else {
        low
    }) as i32
}

/// The low 32 bits of `n` as a signed number.
pub(crate) fn low(n: usize) -> (r: i32)
    ensures
        r == low_i32(n as int),
{
    let low: i64 = (n as u64 % 0x1_0000_0000) as i64;
    if low >= 0x8000_0000 {
        (low - 0x1_0000_0000) as i32
    } else {
        low as i32
    }
}

/// `n`, at most the largest number of 32 bits.
pub open spec fn cap_i32(n: int) -> int {
    if n > i32::MAX {
        i32::MAX as int
    } else {
        n
    }
}

pub(crate) fn cap(n: u64) -> (r: i32)
    ensures
        r == cap_i32(n as int),
{
    if n > 0x7fff_ffff {
        i32::MAX
    } else {
        n as i32
    }
}

/// The tick `age` ticks before `tick`.
pub open spec fn ticks_ago(tick: i32, age: u64) -> i32 {
    clamp_i32(tick - cap_i32(age as int))
}

pub(crate) fn ago(tick: i32, age: u64) -> (r: i32)
    ensures
        r == ticks_ago(tick, age),
{
    clamp(tick as i64 - cap(age) as i64)
}

/// The colours of a skin as the flag and the two values of the protocol.
pub open spec fn skin_colors(s: SkinInfo) -> (i32, i32, i32) {
    match s {
        SkinInfo::Original => (0, 0, 0),
        SkinInfo::Custom { body_color, feet_color } => (1, body_color, feet_color),
    }
}

/// The two objects that describe a player.
pub open spec fn info_items(id: u16, look: CharacterLook, local: bool, team: Team, score: int) -> Seq<
    SnapItem,
> {
    let (custom, body, feet) = skin_colors(look.skin_info);
    seq![
        SnapItem {
            id,
            obj: SnapObj::ClientInfo(
                ClientInfo {
                    name: text_field::<4>(look.name@),
                    clan: text_field::<3>(look.clan@),
                    country: -1i32,
                    skin: text_field::<6>(look.skin@),
                    use_custom_color: custom,
                    color_body: body,
                    color_feet: feet,
                },
            ),
        },
        SnapItem {
            id,
            obj: SnapObj::PlayerInfo(
                PlayerInfo { local, client_id: id as i32, team, score: clamp_i32(score), latency: 0 },
            ),
        },
    ]
}

/// Adds the two objects that describe a player.
pub(crate) fn info(
    out: &mut Vec<SnapItem>,
    id: u16,
    look: &CharacterLook,
    local: bool,
    team: Team,
    score: i64,
)
    ensures
        final(out)@ == old(out)@ + info_items(id, *look, local, team, score as int),
{
    let (custom, body, feet) = match look.skin_info {
        SkinInfo::Original => (0i32, 0i32, 0i32),
        SkinInfo::Custom { body_color, feet_color } => (1i32, body_color, feet_color),
    };
    let client = ClientInfo {
        name: string::<4>(look.name.as_str()),
        clan: string::<3>(look.clan.as_str()),
        country: -1i32,
        skin: string::<6>(look.skin.as_str()),
        use_custom_color: custom,
        color_body: body,
        color_feet: feet,
    };
    let player = PlayerInfo { local, client_id: id as i32, team, score: clamp(score), latency: 0 };
    out.push(SnapItem { id, obj: SnapObj::ClientInfo(client) });
    out.push(SnapItem { id, obj: SnapObj::PlayerInfo(player) });
    assert(out@ =~= old(out)@ + info_items(id, *look, local, team, score as int));
}

/// Why a snapshot could not be read or built.
#[derive(Clone, Copy, Debug, PartialEq, Eq, Structural)]
pub enum SnapshotError {
    /// The id of a difference lies beyond the id space.
    IdOverflow,
    /// The tick of a difference lies beyond the tick space.
    TickOverflow,
    /// The difference does not decompress.
    Compression,
    /// The snapshot is larger than 4 MiB.
    TooLarge,
    /// The bytes are no snapshot.
    Encoding,
    /// Bytes follow the snapshot.
    TrailingBytes,
    /// More than 64 player ids are in use.
    TooManyPlayers,
    /// No entity id is free.
    EntityIdsExhausted,
    /// The translation is larger than a snapshot of the old protocol may be.
    DoesNotFit,
}

/// The number of player ids that the old protocol has.
pub const MAX_PLAYERS: u16 = 64;

/// For how many ticks an id stays reserved after its owner was last seen.
pub const RETAIN_TICKS: u64 = 150;

/// An entity of the world with the id that the old protocol knows it by.
#[derive(Clone, Copy, Debug, PartialEq, Eq)]
pub struct ObjectSlot {
    pub kind: u8,
    pub id: u64,
    pub slot: u16,
    pub seen: u64,
}

/// The limits of the match.
#[derive(Clone, Copy, Debug, PartialEq, Eq)]
pub struct GameConfig {
    pub score_limit: u64,
    pub time_limit_secs: u64,
}

/// Translates the snapshots of one client. Ids of players and entities stay
/// stable from one snapshot to the next.
pub struct Snapshots {
    pub race: bool,
    pub game_config: GameConfig,
    pub bases: BTreeMap<u64, (u64, Vec<u8>)>,
    pub players: HashMap<u64, u16>,
    pub objects: Vec<ObjectSlot>,
    pub player_seen: HashMap<u64, u64>,
    pub latest_tick: u64,
    pub latest_id: Option<u64>,
}

/// Nothing was sent or received yet.
pub open spec fn is_fresh(s: Snapshots) -> bool {
    &&& s.bases@ == Map::<u64, (u64, Vec<u8>)>::empty()
    &&& s.players@ == Map::<u64, u16>::empty()
    &&& s.objects@ == Seq::<ObjectSlot>::empty()
    &&& s.player_seen@ == Map::<u64, u64>::empty()
    &&& s.latest_tick == 0
    &&& s.latest_id is None
}

impl Snapshots {
    /// The state before the first snapshot.
    pub fn new(race: bool, game_config: GameConfig) -> (r: Self)
        ensures
            is_fresh(r),
            r.race == race,
            r.game_config == game_config,
    {
        Snapshots {
            race,
            game_config,
            bases: BTreeMap::new(),
            players: HashMap::new(),
            objects: Vec::new(),
            player_seen: HashMap::new(),
            latest_tick: 0,
            latest_id: None,
        }
    }
}

/// `seen` is recent enough at `tick` for the id to stay reserved.
pub open spec fn is_recent(tick: u64, seen: u64) -> bool {
    tick - seen < RETAIN_TICKS
}

fn recent(tick: u64, seen: u64) -> (r: bool)
    ensures
        r == is_recent(tick, seen),
{
    tick < seen || tick - seen < RETAIN_TICKS
}

/// The player stays mapped: it is the local one or was seen recently.
pub open spec fn keeps_player(seen: Map<u64, u64>, local: u64, tick: u64, id: u64) -> bool {
    id == local || (seen.contains_key(id) && is_recent(tick, seen[id]))
}

/// The players that stay mapped.
pub open spec fn kept_players(
    players: Map<u64, u16>,
    seen: Map<u64, u64>,
    local: u64,
    tick: u64,
) -> Map<u64, u16> {
    Map::new(
        |id: u64| players.contains_key(id) && keeps_player(seen, local, tick, id),
        |id: u64| players[id],
    )
}

/// The part of `seen` that belongs to mapped players.
pub open spec fn kept_seen(seen: Map<u64, u64>, players: Map<u64, u16>) -> Map<u64, u64> {
    Map::new(|id: u64| seen.contains_key(id) && players.contains_key(id), |id: u64| seen[id])
}

/// The lowest slot from `from` on, below `limit`, that no player has.
pub open spec fn free_player_slot(players: Map<u64, u16>, from: int, limit: int) -> Option<u16>
    decreases limit - from,
{
    if from >= limit {
        None
    } else if !players.contains_value(from as u16) {
        Some(from as u16)
    } else {
        free_player_slot(players, from + 1, limit)
    }
}

/// Maps the players of `ids` in turn and notes that they were seen. Stops at
/// the first one for which no slot is free; the flag tells whether all fit.
pub open spec fn assigned(
    players: Map<u64, u16>,
    seen: Map<u64, u64>,
    tick: u64,
    ids: Seq<u64>,
) -> (Map<u64, u16>, Map<u64, u64>, bool)
    decreases ids.len(),
{
    if ids.len() == 0 {
        (players, seen, true)
    } else {
        let id = ids[0];
        let seen2 = seen.insert(id, tick);
        if players.contains_key(id) {
            assigned(players, seen2, tick, ids.drop_first())
        } else {
            match free_player_slot(players, 0, MAX_PLAYERS as int) {
                Some(slot) => assigned(players.insert(id, slot), seen2, tick, ids.drop_first()),
                None => (players, seen2, false),
            }
        }
    }
}

/// The ids of a run of characters.
pub open spec fn character_ids(characters: Seq<Character>) -> Seq<u64> {
    characters.map_values(|c: Character| c.id)
}

/// The ids of all characters, stage by stage.
pub open spec fn stage_ids(stages: Seq<Stage>) -> Seq<u64>
    decreases stages.len(),
{
    if stages.len() == 0 {
        seq![]
    } else {
        stage_ids(stages.drop_last()) + character_ids(stages.last().characters@)
    }
}

/// All player ids of a snapshot: the characters, then the spectators.
pub open spec fn roster_of(snapshot: Snapshot) -> Seq<u64> {
    stage_ids(snapshot.stages@) + snapshot.spectators@.map_values(|s: Spectator| s.id)
}

fn roster(snapshot: &Snapshot) -> (ids: Vec<u64>)
    ensures
        ids@ == roster_of(*snapshot),
{
    let mut ids: Vec<u64> = Vec::new();
    let mut i: usize = 0;
    while i < snapshot.stages.len()
        invariant
            i <= snapshot.stages.len(),
            ids@ == stage_ids(snapshot.stages@.take(i as int)),
        decreases snapshot.stages.len() - i,
    {
        let stage = &snapshot.stages[i];
        let ghost before = ids@;
        let mut j: usize = 0;
        while j < stage.characters.len()
            invariant
                j <= stage.characters.len(),
                ids@ == before + character_ids(stage.characters@.take(j as int)),
            decreases stage.characters.len() - j,
        {
            ids.push(stage.characters[j].id);
            j += 1;
            assert(ids@ =~= before + character_ids(stage.characters@.take(j as int)));
        }
        assert(stage.characters@.take(j as int) =~= stage.characters@);
        assert(snapshot.stages@.take(i + 1).drop_last() =~= snapshot.stages@.take(i as int));
        i += 1;
    }
    assert(snapshot.stages@.take(i as int) =~= snapshot.stages@);
    let ghost before = ids@;
    let mut j: usize = 0;
    while j < snapshot.spectators.len()
        invariant
            j <= snapshot.spectators.len(),
            ids@ == before + snapshot.spectators@.take(j as int).map_values(|s: Spectator| s.id),
        decreases snapshot.spectators.len() - j,
    {
        ids.push(snapshot.spectators[j].id);
        j += 1;
        assert(ids@ =~= before + snapshot.spectators@.take(j as int).map_values(
            |s: Spectator| s.id,
        ));
    }
    assert(snapshot.spectators@.take(j as int) =~= snapshot.spectators@);
    ids
}

fn find_player_slot(players: &HashMap<u64, u16>) -> (r: Option<u16>)
    ensures
        r == free_player_slot(players@, 0, MAX_PLAYERS as int),
{
    let mut slot: u16 = 0;
    while slot < MAX_PLAYERS
        invariant
            slot <= MAX_PLAYERS,
            free_player_slot(players@, slot as int, MAX_PLAYERS as int) == free_player_slot(
                players@,
                0,
                MAX_PLAYERS as int,
            ),
        decreases MAX_PLAYERS - slot,
    {
        if !holds_value(players, slot) {
            return Some(slot);
        }
        slot += 1;
    }
    None
}

impl Snapshots {
    /// Forgets the players that left, and the times at which they were seen.
    fn retain_players(&mut self, local: u64)
        ensures
            final(self).players@ == kept_players(
                old(self).players@,
                old(self).player_seen@,
                local,
                old(self).latest_tick,
            ),
            final(self).player_seen@ == kept_seen(old(self).player_seen@, final(self).players@),
            *final(self) == (Snapshots {
                players: final(self).players,
                player_seen: final(self).player_seen,
                ..*old(self)
            }),
    {
        let list = entries(&self.players);
        let ghost players = self.players@;
        let ghost seen = self.player_seen@;
        let ghost tick = self.latest_tick;
        let mut i: usize = 0;
        while i < list.len()
            invariant
                i <= list.len(),
                lists(list@, players),
                self.player_seen@ == seen,
                self.latest_tick == tick,
                *self == (Snapshots { players: self.players, ..*old(self) }),
                forall|k: u64| #[trigger]
                    self.players@.contains_key(k) ==> players.contains_key(k) && self.players@[k]
                        == players[k],
                forall|j: int|
                    0 <= j < i ==> self.players@.contains_key((#[trigger] list@[j]).0)
                        == keeps_player(seen, local, tick, list@[j].0),
                forall|j: int|
                    i <= j < list@.len() ==> self.players@.contains_key((#[trigger] list@[j]).0),
            decreases list.len() - i,
        {
            let id = list[i].0;
            let keep = id == local || match self.player_seen.get(&id) {
                Some(seen) => recent(self.latest_tick, *seen),
                None => false,
            };
            if !keep {
                self.players.remove(&id);
            }
            i += 1;
        }
        assert(self.players@ =~= kept_players(players, seen, local, tick)) by {
            assert forall|k: u64| #[trigger] self.players@.contains_key(k) == kept_players(
                players,
                seen,
                local,
                tick,
            ).contains_key(k) by {
                if players.contains_key(k) {
                    let j = choose|j: int| 0 <= j < list@.len() && (#[trigger] list@[j]).0 == k;
                    assert(self.players@.contains_key(list@[j].0) == keeps_player(
                        seen,
                        local,
                        tick,
                        list@[j].0,
                    ));
                }
            }
        }
        let list = entries(&self.player_seen);
        let mut i: usize = 0;
        while i < list.len()
            invariant
                i <= list.len(),
                lists(list@, seen),
                *self == (Snapshots {
                    players: self.players,
                    player_seen: self.player_seen,
                    ..*old(self)
                }),
                self.players@ == kept_players(players, seen, local, tick),
                forall|k: u64| #[trigger]
                    self.player_seen@.contains_key(k) ==> seen.contains_key(k)
                        && self.player_seen@[k] == seen[k],
                forall|j: int|
                    0 <= j < i ==> self.player_seen@.contains_key((#[trigger] list@[j]).0)
                        == self.players@.contains_key(list@[j].0),
                forall|j: int|
                    i <= j < list@.len() ==> self.player_seen@.contains_key(
                        (#[trigger] list@[j]).0,
                    ),
            decreases list.len() - i,
        {
            let id = list[i].0;
            if !self.players.contains_key(&id) {
                self.player_seen.remove(&id);
            }
            i += 1;
        }
        assert(self.player_seen@ =~= kept_seen(seen, self.players@)) by {
            assert forall|k: u64| #[trigger] self.player_seen@.contains_key(k) == kept_seen(
                seen,
                self.players@,
            ).contains_key(k) by {
                if seen.contains_key(k) {
                    let j = choose|j: int| 0 <= j < list@.len() && (#[trigger] list@[j]).0 == k;
                    assert(self.player_seen@.contains_key(list@[j].0) == self.players@.contains_key(
                        list@[j].0,
                    ));
                }
            }
        }
    }

    /// Maps the given players and notes that they were seen.
    fn assign(&mut self, ids: &Vec<u64>) -> (fit: bool)
        ensures
            ({
                let (players, seen, ok) = assigned(
                    old(self).players@,
                    old(self).player_seen@,
                    old(self).latest_tick,
                    ids@,
                );
                &&& final(self).players@ == players
                &&& final(self).player_seen@ == seen
                &&& fit == ok
            }),
            *final(self) == (Snapshots {
                players: final(self).players,
                player_seen: final(self).player_seen,
                ..*old(self)
            }),
    {
        let ghost goal = assigned(self.players@, self.player_seen@, self.latest_tick, ids@);
        let mut i: usize = 0;
        assert(ids@.skip(0) =~= ids@);
        while i < ids.len()
            invariant
                i <= ids.len(),
                *self == (Snapshots {
                    players: self.players,
                    player_seen: self.player_seen,
                    ..*old(self)
                }),
                goal == assigned(
                    old(self).players@,
                    old(self).player_seen@,
                    old(self).latest_tick,
                    ids@,
                ),
                assigned(
                    self.players@,
                    self.player_seen@,
                    self.latest_tick,
                    ids@.skip(i as int),
                ) == goal,
            decreases ids.len() - i,
        {
            let id = ids[i];
            assert(ids@.skip(i as int).drop_first() =~= ids@.skip(i + 1));
            self.player_seen.insert(id, self.latest_tick);
            if !self.players.contains_key(&id) {
                match find_player_slot(&self.players) {
                    Some(slot) => {
                        self.players.insert(id, slot);
                    },
                    None => {
                        return false;
                    },
                }
            }
            i += 1;
        }
        true
    }
}

/// `slot` is the id of some entity.
pub open spec fn object_slot_used(objects: Seq<ObjectSlot>, slot: u16) -> bool {
    exists|i: int| 0 <= i < objects.len() && (#[trigger] objects[i]).slot == slot
}

/// The lowest entity id from `from` on that is free.
pub open spec fn free_object_slot(objects: Seq<ObjectSlot>, from: int) -> Option<u16>
    decreases u16::MAX - from,
{
    if from >= u16::MAX {
        None
    } else if !object_slot_used(objects, from as u16) {
        Some(from as u16)
    } else {
        free_object_slot(objects, from + 1)
    }
}

/// The place of an entity in the table, or the table's length.
pub open spec fn object_index(objects: Seq<ObjectSlot>, kind: u8, id: u64) -> int
    decreases objects.len(),
{
    if objects.len() == 0 || (objects[0].kind == kind && objects[0].id == id) {
        0
    } else {
        1 + object_index(objects.drop_first(), kind, id)
    }
}

/// The table after an entity was seen, and the entity's id. A new entity gets
/// the lowest free id; there is none when all are in use.
pub open spec fn object_seen(objects: Seq<ObjectSlot>, tick: u64, kind: u8, id: u64) -> Option<
    (Seq<ObjectSlot>, u16),
> {
    let i = object_index(objects, kind, id);
    if i < objects.len() {
        Some((objects.update(i, ObjectSlot { seen: tick, ..objects[i] }), objects[i].slot))
    } else {
        match free_object_slot(objects, 0) {
            Some(slot) => Some((objects.push(ObjectSlot { kind, id, slot, seen: tick }), slot)),
            None => None,
        }
    }
}

/// An entity that is to be placed into a snapshot.
#[derive(Clone, Copy, Debug, PartialEq, Eq)]
pub struct Entity {
    pub kind: u8,
    pub id: u64,
    pub obj: SnapObj,
}

/// The table after all entities were seen in turn, and their items. Stops at
/// the first entity for which no id is free.
pub open spec fn placed(objects: Seq<ObjectSlot>, tick: u64, todo: Seq<Entity>) -> (
    Seq<ObjectSlot>,
    Option<Seq<SnapItem>>,
)
    decreases todo.len(),
{
    if todo.len() == 0 {
        (objects, Some(seq![]))
    } else {
        match object_seen(objects, tick, todo[0].kind, todo[0].id) {
            None => (objects, None),
            Some((next, id)) => {
                let (last, rest) = placed(next, tick, todo.drop_first());
                (
                    last,
                    match rest {
                        Some(items) => Some(seq![SnapItem { id, obj: todo[0].obj }] + items),
                        None => None,
                    },
                )
            },
        }
    }
}

/// The entities that stay in the table at `tick`.
pub open spec fn kept_objects(objects: Seq<ObjectSlot>, tick: u64) -> Seq<ObjectSlot> {
    objects.filter(|o: ObjectSlot| is_recent(tick, o.seen))
}

fn object_slot_taken(objects: &Vec<ObjectSlot>, slot: u16) -> (r: bool)
    ensures
        r == object_slot_used(objects@, slot),
{
    let mut i: usize = 0;
    while i < objects.len()
        invariant
            i <= objects.len(),
            forall|j: int| 0 <= j < i ==> (#[trigger] objects@[j]).slot != slot,
        decreases objects.len() - i,
    {
        if objects[i].slot == slot {
            return true;
        }
        i += 1;
    }
    false
}

impl Snapshots {
    /// Forgets the entities that were not seen recently.
    fn retain_objects(&mut self)
        ensures
            final(self).objects@ == kept_objects(old(self).objects@, old(self).latest_tick),
            *final(self) == (Snapshots { objects: final(self).objects, ..*old(self) }),
    {
        let ghost keep = |o: ObjectSlot| is_recent(old(self).latest_tick, o.seen);
        let mut kept: Vec<ObjectSlot> = Vec::new();
        let mut i: usize = 0;
        assert(self.objects@.take(0).filter(keep) =~= seq![]) by {
            reveal(Seq::filter);
        }
        while i < self.objects.len()
            invariant
                i <= self.objects.len(),
                *self == *old(self),
                keep == (|o: ObjectSlot| is_recent(old(self).latest_tick, o.seen)),
                kept@ == self.objects@.take(i as int).filter(keep),
            decreases self.objects.len() - i,
        {
            let o = self.objects[i];
            proof {
                reveal(Seq::filter);
                assert(self.objects@.take(i + 1).drop_last() =~= self.objects@.take(i as int));
            }
            if recent(self.latest_tick, o.seen) {
                kept.push(o);
            }
            i += 1;
        }
        assert(self.objects@.take(i as int) =~= self.objects@);
        self.objects = kept;
    }

    /// The id of an entity, which stays the same while the entity is around.
    pub fn object(&mut self, kind: u8, id: u64) -> (r: Result<u16, SnapshotError>)
        ensures
            match object_seen(old(self).objects@, old(self).latest_tick, kind, id) {
                Some((objects, slot)) => r == Ok::<u16, SnapshotError>(slot)
                    && final(self).objects@ == objects,
                None => r == Err::<u16, SnapshotError>(SnapshotError::EntityIdsExhausted)
                    && final(self).objects@ == old(self).objects@,
            },
            *final(self) == (Snapshots { objects: final(self).objects, ..*old(self) }),
    {
        let mut i: usize = 0;
        assert(self.objects@.skip(0) =~= self.objects@);
        while i < self.objects.len()
            invariant
                i <= self.objects.len(),
                *self == *old(self),
                object_index(self.objects@, kind, id) == i + object_index(
                    self.objects@.skip(i as int),
                    kind,
                    id,
                ),
            decreases self.objects.len() - i,
        {
            assert(self.objects@.skip(i as int).drop_first() =~= self.objects@.skip(i + 1));
            let o = self.objects[i];
            if o.kind == kind && o.id == id {
                self.objects.set(i, ObjectSlot { seen: self.latest_tick, ..o });
                return Ok(o.slot);
            }
            i += 1;
        }
        let mut slot: u16 = 0;
        while slot < u16::MAX
            invariant
                *self == *old(self),
                object_index(self.objects@, kind, id) == self.objects@.len(),
                free_object_slot(self.objects@, slot as int) == free_object_slot(self.objects@, 0),
            decreases u16::MAX - slot,
        {
            if !object_slot_taken(&self.objects, slot) {
                self.objects.push(ObjectSlot { kind, id, slot, seen: self.latest_tick });
                return Ok(slot);
            }
            slot += 1;
        }
        Err(SnapshotError::EntityIdsExhausted)
    }
}

/// The first spectator with the given id.
pub open spec fn spectator_of(spectators: Seq<Spectator>, id: u64) -> Option<Spectator>
    decreases spectators.len(),
{
    if spectators.len() == 0 {
        None
    } else if spectators[0].id == id {
        Some(spectators[0])
    } else {
        spectator_of(spectators.drop_first(), id)
    }
}

/// One of `ids` is a character of the stage.
pub open spec fn holds_any(stage: Stage, ids: Seq<u64>) -> bool {
    exists|i: int|
        0 <= i < ids.len() && character_of(stage.characters@, #[trigger] ids[i]) is Some
}

/// The player looks at this stage: it has a character there, or follows one.
pub open spec fn looks_at(snapshot: Snapshot, local: u64, stage: Stage) -> bool {
    character_of(stage.characters@, local) is Some || (spectator_of(
        snapshot.spectators@,
        local,
    ) matches Some(p) && holds_any(stage, p.follows@))
}

/// The first stage from `i` on that the player looks at.
pub open spec fn first_stage(snapshot: Snapshot, local: u64, i: int) -> Option<Stage>
    decreases snapshot.stages@.len() - i,
{
    if i < 0 || i >= snapshot.stages@.len() {
        None
    } else if looks_at(snapshot, local, snapshot.stages@[i]) {
        Some(snapshot.stages@[i])
    } else {
        first_stage(snapshot, local, i + 1)
    }
}

/// The stage that the player is shown: one that it looks at, else the first.
pub open spec fn stage_shown(snapshot: Snapshot, local: u64) -> Option<Stage> {
    match first_stage(snapshot, local, 0) {
        Some(stage) => Some(stage),
        None => if snapshot.stages@.len() > 0 {
            Some(snapshot.stages@[0])
        } else {
            None
        },
    }
}

fn spectator<'a>(snapshot: &'a Snapshot, id: u64) -> (r: Option<&'a Spectator>)
    ensures
        match spectator_of(snapshot.spectators@, id) {
            Some(p) => r matches Some(x) && *x == p,
            None => r is None,
        },
{
    let list = &snapshot.spectators;
    let mut i: usize = 0;
    assert(list@.skip(0) =~= list@);
    while i < list.len()
        invariant
            i <= list.len(),
            *list == snapshot.spectators,
            spectator_of(list@.skip(i as int), id) == spectator_of(list@, id),
        decreases list.len() - i,
    {
        assert(list@.skip(i as int).drop_first() =~= list@.skip(i + 1));
        if list[i].id == id {
            return Some(&snapshot.spectators[i]);
        }
        i += 1;
    }
    None
}

fn has_any(stage: &Stage, ids: &Vec<u64>) -> (r: bool)
    ensures
        r == holds_any(*stage, ids@),
{
    let mut i: usize = 0;
    while i < ids.len()
        invariant
            i <= ids.len(),
            forall|j: int|
                0 <= j < i ==> character_of(stage.characters@, #[trigger] ids@[j]) is None,
        decreases ids.len() - i,
    {
        if stage.character(ids[i]).is_some() {
            assert(character_of(stage.characters@, ids@[i as int]) is Some);
            return true;
        }
        i += 1;
    }
    false
}

fn own_stage<'a>(snapshot: &'a Snapshot, local: u64) -> (r: Option<&'a Stage>)
    ensures
        match stage_shown(*snapshot, local) {
            Some(stage) => r matches Some(x) && *x == stage,
            None => r is None,
        },
{
    let me = spectator(snapshot, local);
    let mut i: usize = 0;
    while i < snapshot.stages.len()
        invariant
            i <= snapshot.stages.len(),
            match spectator_of(snapshot.spectators@, local) {
                Some(p) => me matches Some(x) && *x == p,
                None => me is None,
            },
            first_stage(*snapshot, local, i as int) == first_stage(*snapshot, local, 0),
        decreases snapshot.stages.len() - i,
    {
        let stage = &snapshot.stages[i];
        let shown = stage.character(local).is_some() || match me {
            Some(p) => has_any(stage, &p.follows),
            None => false,
        };
        if shown {
            return Some(&snapshot.stages[i]);
        }
        i += 1;
    }
    if snapshot.stages.len() > 0 {
        Some(&snapshot.stages[0])
    } else {
        None
    }
}

/// The flags of a match phase: game over, sudden death and pause.
pub open spec fn phase_flags(phase: MatchPhase) -> i32 {
    match phase {
        MatchPhase::Running => 0,
        MatchPhase::Paused => 4,
        MatchPhase::SuddenDeath => 2,
        MatchPhase::PausedSuddenDeath => 6,
        MatchPhase::GameOver => 1,
    }
}

/// The flags of a match type: sides, and flags to capture.
pub open spec fn type_flags(stage: Option<Stage>) -> i32 {
    match stage {
        Some(s) => (if s.game_match.ty is Sided {
            1int
        } else {
            0
        } + if s.red_flags@.len() > 0 || s.blue_flags@.len() > 0 {
            2int
        } else {
            0
        }) as i32,
        None => 0,
    }
}

/// The description of the match. A time limit is given in whole minutes.
pub open spec fn game_info(config: GameConfig, stage: Option<Stage>, tick: i32) -> GameInfo {
    GameInfo {
        game_flags: type_flags(stage),
        game_state_flags: match stage {
            Some(s) => phase_flags(s.game_match.phase),
            None => 0,
        },
        round_start_tick: match stage {
            Some(s) => ticks_ago(tick, s.game_match.passed_ticks),
            None => 0,
        },
        warmup_timer: 0,
        score_limit: cap_i32(config.score_limit as int) as i32,
        time_limit: cap_i32((config.time_limit_secs + 59) / 60) as i32,
        round_num: 0,
        round_current: 1,
    }
}

/// The extended description of the game type.
pub open spec fn game_info_ex(race: bool) -> GameInfoEx {
    GameInfoEx {
        gametype_ddrace: race,
        gametype_ddnet: race,
        gametype_vanilla: !race,
        predict_ddrace: race,
        predict_ddrace_tiles: race,
        predict_vanilla: !race,
        entities_ddnet: race,
        version: 6,
        flags2: 0,
    }
}

/// The slot of a player, or `missing`.
pub open spec fn slot_or(players: Map<u64, u16>, id: u64, missing: i32) -> i32 {
    if players.contains_key(id) {
        players[id] as i32
    } else {
        missing
    }
}

/// Who carries the first flag: a slot, or that it was dropped, stands at its
/// place or does not exist.
pub open spec fn flag_carrier(players: Map<u64, u16>, flags: Seq<Flag>) -> i32 {
    if flags.len() == 0 {
        -3i32
    } else {
        let free = if flags[0].dropped {
            -1i32
        } else {
            -2i32
        };
        match flags[0].carrier {
            Some(id) => slot_or(players, id, free),
            None => free,
        }
    }
}

/// The scores and the flags of a stage.
pub open spec fn game_data(players: Map<u64, u16>, stage: Stage) -> GameData {
    let (red, blue) = match stage.game_match.ty {
        MatchType::Sided { red, blue } => (red, blue),
        MatchType::Solo => (0i64, 0i64),
    };
    GameData {
        teamscore_red: clamp_i32(red as int),
        teamscore_blue: clamp_i32(blue as int),
        flag_carrier_red: flag_carrier(players, stage.red_flags@),
        flag_carrier_blue: flag_carrier(players, stage.blue_flags@),
    }
}

/// The items that describe the game as a whole.
pub open spec fn game_items(
    config: GameConfig,
    race: bool,
    players: Map<u64, u16>,
    stage: Option<Stage>,
    tick: i32,
) -> Seq<SnapItem> {
    seq![
        SnapItem { id: 0, obj: SnapObj::GameInfo(game_info(config, stage, tick)) },
        SnapItem { id: 0, obj: SnapObj::GameInfoEx(game_info_ex(race)) },
    ] + match stage {
        Some(s) => seq![SnapItem { id: 0, obj: SnapObj::GameData(game_data(players, s)) }],
        None => seq![],
    }
}

pub(crate) fn slot_number(players: &HashMap<u64, u16>, id: u64, missing: i32) -> (r: i32)
    ensures
        r == slot_or(players@, id, missing),
{
    match players.get(&id) {
        Some(slot) => *slot as i32,
        None => missing,
    }
}

fn carrier(players: &HashMap<u64, u16>, flags: &Vec<Flag>) -> (r: i32)
    ensures
        r == flag_carrier(players@, flags@),
{
    if flags.len() == 0 {
        return -3;
    }
    let free: i32 = if flags[0].dropped {
        -1
    } else {
        -2
    };
    match flags[0].carrier {
        Some(id) => slot_number(players, id, free),
        None => free,
    }
}

impl Snapshots {
    /// Adds the items that describe the game as a whole.
    fn game(&self, stage: Option<&Stage>, tick: i32, out: &mut Vec<SnapItem>)
        ensures
            final(out)@ == old(out)@ + game_items(
                self.game_config,
                self.race,
                self.players@,
                match stage {
                    Some(s) => Some(*s),
                    None => None,
                },
                tick,
            ),
    {
        let ghost shown = match stage {
            Some(s) => Some(*s),
            None => None,
        };
        let mut game_flags: i32 = 0;
        let mut game_state_flags: i32 = 0;
        let mut round_start_tick: i32 = 0;
        if let Some(s) = stage {
            if let MatchType::Sided { .. } = s.game_match.ty {
                game_flags += 1;
            }
            if s.red_flags.len() > 0 || s.blue_flags.len() > 0 {
                game_flags += 2;
            }
            game_state_flags = match s.game_match.phase {
                MatchPhase::Running => 0,
                MatchPhase::Paused => 4,
                MatchPhase::SuddenDeath => 2,
                MatchPhase::PausedSuddenDeath => 6,
                MatchPhase::GameOver => 1,
            };
            round_start_tick = ago(tick, s.game_match.passed_ticks);
        }
        let secs: u64 = self.game_config.time_limit_secs;
        let minutes: u64 = secs / 60 + if secs % 60 > 0 {
            1
        } else {
            0
        };
        let info = GameInfo {
            game_flags,
            game_state_flags,
            round_start_tick,
            warmup_timer: 0,
            score_limit: cap(self.game_config.score_limit),
            time_limit: cap(minutes),
            round_num: 0,
            round_current: 1,
        };
        assert(info == game_info(self.game_config, shown, tick));
        out.push(SnapItem { id: 0, obj: SnapObj::GameInfo(info) });
        let race = self.race;
        let ex = GameInfoEx {
            gametype_ddrace: race,
            gametype_ddnet: race,
            gametype_vanilla: !race,
            predict_ddrace: race,
            predict_ddrace_tiles: race,
            predict_vanilla: !race,
            entities_ddnet: race,
            version: 6,
            flags2: 0,
        };
        out.push(SnapItem { id: 0, obj: SnapObj::GameInfoEx(ex) });
        if let Some(s) = stage {
            let (red, blue) = match s.game_match.ty {
                MatchType::Sided { red, blue } => (red, blue),
                MatchType::Solo => (0i64, 0i64),
            };
            let data = GameData {
                teamscore_red: clamp(red),
                teamscore_blue: clamp(blue),
                flag_carrier_red: carrier(&self.players, &s.red_flags),
                flag_carrier_blue: carrier(&self.players, &s.blue_flags),
            };
            out.push(SnapItem { id: 0, obj: SnapObj::GameData(data) });
        }
        assert(out@ =~= old(out)@ + game_items(
            self.game_config,
            self.race,
            self.players@,
            shown,
            tick,
        ));
    }
}

pub open spec fn weapon_of(w: WeaponWithProjectile) -> Weapon {
    match w {
        WeaponWithProjectile::Gun => Weapon::Pistol,
        WeaponWithProjectile::Shotgun => Weapon::Shotgun,
        WeaponWithProjectile::Grenade => Weapon::Grenade,
    }
}

/// The weapon that a projectile belongs to.
pub fn projectile_weapon(w: WeaponWithProjectile) -> (r: Weapon)
    ensures
        r == weapon_of(w),
{
    match w {
        WeaponWithProjectile::Gun => Weapon::Pistol,
        WeaponWithProjectile::Shotgun => Weapon::Shotgun,
        WeaponWithProjectile::Grenade => Weapon::Grenade,
    }
}

/// A projectile. It starts one tick ago, so that short-lived ones are seen.
pub open spec fn projectile_entity(p: Projectile, tick: i32) -> Entity {
    Entity {
        kind: 1,
        id: p.id,
        obj: SnapObj::Projectile(
            ProjectileObj {
                x: p.x,
                y: p.y,
                vel_x: p.vel_x,
                vel_y: p.vel_y,
                type_: weapon_of(p.ty),
                start_tick: clamp_i32(tick - 1),
            },
        ),
    }
}

/// The ticks that a projectile has lived. One of unlimited life is new.
pub open spec fn projectile_age(p: RaceProjectile) -> u64 {
    let left = match p.life_left {
        Some(left) => left,
        None => 0,
    };
    match p.life_span {
        Some(span) => if span > left {
            (span - left) as u64
        } else {
            0
        },
        None => 0,
    }
}

pub open spec fn race_projectile_entity(p: RaceProjectile, tick: i32) -> Entity {
    Entity {
        kind: 3,
        id: p.id,
        obj: SnapObj::Projectile(
            ProjectileObj {
                x: p.start.x.cut,
                y: p.start.y.cut,
                vel_x: p.vel_x,
                vel_y: p.vel_y,
                type_: weapon_of(p.ty),
                start_tick: ticks_ago(tick, projectile_age(p)),
            },
        ),
    }
}

/// The type and the subtype of a pickup. Shields show as armor.
pub open spec fn pickup_type(ty: PickupType) -> (i32, i32) {
    match ty {
        PickupType::Health => (0i32, 0i32),
        PickupType::Armor => (1i32, 0i32),
        PickupType::Ninja => (3i32, 0i32),
        PickupType::Weapon(w) => (2i32, weapon_number(w)),
        PickupType::WeaponShield(_) | PickupType::NinjaShield => (1i32, 0i32),
    }
}

pub open spec fn pickup_entity(p: Pickup) -> Entity {
    Entity {
        kind: 4,
        id: p.id,
        obj: SnapObj::Pickup(
            PickupObj {
                x: p.pos.x.cut,
                y: p.pos.y.cut,
                type_: pickup_type(p.ty).0,
                subtype: pickup_type(p.ty).1,
            },
        ),
    }
}

pub open spec fn laser_entity(l: Laser, tick: i32) -> Entity {
    Entity {
        kind: 2,
        id: l.id,
        obj: SnapObj::Laser(
            LaserObj {
                x: l.pos.x.cut,
                y: l.pos.y.cut,
                from_x: l.from.x.cut,
                from_y: l.from.y.cut,
                start_tick: match l.age {
                    Some(age) => ticks_ago(tick, age),
                    None => tick,
                },
            },
        ),
    }
}

/// The projectiles and pickups of a stage.
pub open spec fn flying_entities(stage: Stage, tick: i32) -> Seq<Entity> {
    stage.projectiles@.map_values(|p: Projectile| projectile_entity(p, tick))
        + stage.race_projectiles@.map_values(|p: RaceProjectile| race_projectile_entity(p, tick))
        + stage.pickups@.map_values(|p: Pickup| pickup_entity(p))
}

pub open spec fn laser_entities(stage: Stage, tick: i32) -> Seq<Entity> {
    stage.lasers@.map_values(|l: Laser| laser_entity(l, tick))
}

/// The first flag of a side. Its id is the number of the side.
pub open spec fn flag_item(flags: Seq<Flag>, team: u16) -> Seq<SnapItem> {
    if flags.len() == 0 {
        seq![]
    } else {
        seq![
            SnapItem {
                id: team,
                obj: SnapObj::Flag(
                    FlagObj {
                        x: flags[0].pos.x.cut,
                        y: flags[0].pos.y.cut,
                        team: team as i32,
                    },
                ),
            },
        ]
    }
}

/// The entity table after a stage was shown, and the items of the stage's
/// entities, unless the entity ids ran out.
pub open spec fn entity_items(
    objects: Seq<ObjectSlot>,
    seen: u64,
    stage: Stage,
    tick: i32,
) -> (Seq<ObjectSlot>, Option<Seq<SnapItem>>) {
    match placed(objects, seen, flying_entities(stage, tick)) {
        (next, None) => (next, None),
        (next, Some(flying)) => match placed(next, seen, laser_entities(stage, tick)) {
            (last, None) => (last, None),
            (last, Some(lasers)) => (
                last,
                Some(
                    flying + flag_item(stage.red_flags@, 0) + flag_item(stage.blue_flags@, 1)
                        + lasers,
                ),
            ),
        },
    }
}

fn push_flag(flags: &Vec<Flag>, team: u16, out: &mut Vec<SnapItem>)
    ensures
        final(out)@ == old(out)@ + flag_item(flags@, team),
{
    if flags.len() > 0 {
        let pos = flags[0].pos;
        let obj = FlagObj { x: pos.x.cut, y: pos.y.cut, team: team as i32 };
        out.push(SnapItem { id: team, obj: SnapObj::Flag(obj) });
    }
    assert(out@ =~= old(out)@ + flag_item(flags@, team));
}

fn flying(stage: &Stage, tick: i32) -> (r: Vec<Entity>)
    ensures
        r@ == flying_entities(*stage, tick),
{
    let mut list: Vec<Entity> = Vec::new();
    let ghost first = stage.projectiles@.map_values(|p: Projectile| projectile_entity(p, tick));
    let ghost second = stage.race_projectiles@.map_values(
        |p: RaceProjectile| race_projectile_entity(p, tick),
    );
    let ghost third = stage.pickups@.map_values(|p: Pickup| pickup_entity(p));
    let mut i: usize = 0;
    while i < stage.projectiles.len()
        invariant
            i <= stage.projectiles.len(),
            first == stage.projectiles@.map_values(|p: Projectile| projectile_entity(p, tick)),
            list@ =~= first.take(i as int),
        decreases stage.projectiles.len() - i,
    {
        let p = stage.projectiles[i];
        let obj = ProjectileObj {
            x: p.x,
            y: p.y,
            vel_x: p.vel_x,
            vel_y: p.vel_y,
            type_: projectile_weapon(p.ty),
            start_tick: clamp(tick as i64 - 1),
        };
        list.push(Entity { kind: 1, id: p.id, obj: SnapObj::Projectile(obj) });
        i += 1;
    }
    let mut i: usize = 0;
    while i < stage.race_projectiles.len()
        invariant
            i <= stage.race_projectiles.len(),
            second == stage.race_projectiles@.map_values(
                |p: RaceProjectile| race_projectile_entity(p, tick),
            ),
            list@ =~= first + second.take(i as int),
        decreases stage.race_projectiles.len() - i,
    {
        let p = stage.race_projectiles[i];
        let left: u64 = match p.life_left {
            Some(left) => left,
            None => 0,
        };
        let age: u64 = match p.life_span {
            Some(span) => if span > left {
                span - left
            } else {
                0
            },
            None => 0,
        };
        let obj = ProjectileObj {
            x: p.start.x.cut,
            y: p.start.y.cut,
            vel_x: p.vel_x,
            vel_y: p.vel_y,
            type_: projectile_weapon(p.ty),
            start_tick: ago(tick, age),
        };
        list.push(Entity { kind: 3, id: p.id, obj: SnapObj::Projectile(obj) });
        i += 1;
    }
    let mut i: usize = 0;
    while i < stage.pickups.len()
        invariant
            i <= stage.pickups.len(),
            third == stage.pickups@.map_values(|p: Pickup| pickup_entity(p)),
            list@ =~= first + second + third.take(i as int),
        decreases stage.pickups.len() - i,
    {
        let p = stage.pickups[i];
        let (type_, subtype) = match p.ty {
            PickupType::Health => (0i32, 0i32),
            PickupType::Armor => (1i32, 0i32),
            PickupType::Ninja => (3i32, 0i32),
            PickupType::Weapon(w) => (2i32, weapon(w)),
            PickupType::WeaponShield(_) | PickupType::NinjaShield => (1i32, 0i32),
        };
        let obj = PickupObj { x: p.pos.x.cut, y: p.pos.y.cut, type_, subtype };
        list.push(Entity { kind: 4, id: p.id, obj: SnapObj::Pickup(obj) });
        i += 1;
    }
    list
}

fn laser_list(stage: &Stage, tick: i32) -> (r: Vec<Entity>)
    ensures
        r@ == laser_entities(*stage, tick),
{
    let mut list: Vec<Entity> = Vec::new();
    let mut i: usize = 0;
    while i < stage.lasers.len()
        invariant
            i <= stage.lasers.len(),
            list@ =~= laser_entities(*stage, tick).take(i as int),
        decreases stage.lasers.len() - i,
    {
        let l = stage.lasers[i];
        let obj = LaserObj {
            x: l.pos.x.cut,
            y: l.pos.y.cut,
            from_x: l.from.x.cut,
            from_y: l.from.y.cut,
            start_tick: match l.age {
                Some(age) => ago(tick, age),
                None => tick,
            },
        };
        list.push(Entity { kind: 2, id: l.id, obj: SnapObj::Laser(obj) });
        i += 1;
    }
    list
}

/// Events are numbered in order.
pub open spec fn effect_items(effects: Seq<SnapObj>) -> Seq<SnapItem> {
    effects.map(|i: int, obj: SnapObj| SnapItem { id: (i % 0x1_0000) as u16, obj })
}

/// The mapped players before the snapshot's own are added: those that stay,
/// and the local one with slot zero when none do.
pub open spec fn players_kept(
    players: Map<u64, u16>,
    seen: Map<u64, u64>,
    local: u64,
    tick: u64,
) -> Map<u64, u16> {
    let kept = kept_players(players, seen, local, tick);
    if kept.len() == 0 {
        kept.insert(local, 0)
    } else {
        kept
    }
}

/// The player tables after a snapshot, and whether all its players fit.
pub open spec fn players_after(
    players: Map<u64, u16>,
    seen: Map<u64, u64>,
    tick: u64,
    snapshot: Snapshot,
    local: u64,
) -> (Map<u64, u16>, Map<u64, u64>, bool) {
    assigned(
        players_kept(players, seen, local, tick),
        kept_seen(seen, kept_players(players, seen, local, tick)),
        tick,
        roster_of(snapshot),
    )
}

/// The items of a snapshot up to its entities.
pub open spec fn player_items(
    config: GameConfig,
    race: bool,
    players: Map<u64, u16>,
    snapshot: Snapshot,
    local: u64,
    tick: i32,
) -> Seq<SnapItem> {
    let shown = stage_shown(snapshot, local);
    game_items(config, race, players, shown, tick) + stage_items(
        snapshot.stages@,
        snapshot.stages@.len() as int,
        players,
        local,
        tick,
        shown,
    ) + spectator_items(snapshot.stages@, players, snapshot.spectators@, local)
}

/// The entity table after a snapshot, and the items of the entities.
pub open spec fn objects_after(
    objects: Seq<ObjectSlot>,
    seen: u64,
    snapshot: Snapshot,
    local: u64,
    tick: i32,
) -> (Seq<ObjectSlot>, Option<Seq<SnapItem>>) {
    match stage_shown(snapshot, local) {
        Some(stage) => entity_items(kept_objects(objects, seen), seen, stage, tick),
        None => (kept_objects(objects, seen), Some(seq![])),
    }
}

/// A step of building a snapshot.
#[derive(Clone, Copy, Debug, PartialEq, Eq)]
pub enum Step {
    /// An item is added.
    Item(SnapItem),
    /// An entity is added under the id that the table has for it.
    Place(Entity),
}

/// The steps that add items.
pub open spec fn item_steps(items: Seq<SnapItem>) -> Seq<Step> {
    items.map_values(|item: SnapItem| Step::Item(item))
}

/// The steps that add entities.
pub open spec fn entity_steps(list: Seq<Entity>) -> Seq<Step> {
    list.map_values(|e: Entity| Step::Place(e))
}

/// The steps that add the entities of the stage that is shown.
pub open spec fn stage_steps(stage: Option<Stage>, tick: i32) -> Seq<Step> {
    match stage {
        Some(stage) => entity_steps(flying_entities(stage, tick)) + item_steps(
            flag_item(stage.red_flags@, 0) + flag_item(stage.blue_flags@, 1),
        ) + entity_steps(laser_entities(stage, tick)),
        None => seq![],
    }
}

/// The steps that a snapshot is built in: the game, all players, and the
/// entities and events of the stage that the player looks at.
pub open spec fn steps_of(
    config: GameConfig,
    race: bool,
    players: Map<u64, u16>,
    snapshot: Snapshot,
    local: u64,
    tick: i32,
    effects: Seq<SnapObj>,
) -> Seq<Step> {
    item_steps(player_items(config, race, players, snapshot, local, tick)) + stage_steps(
        stage_shown(snapshot, local),
        tick,
    ) + item_steps(effect_items(effects))
}

/// The entity table and the items after all steps were taken. Stops at the
/// first entity for which no id is free.
pub open spec fn steps_taken(objects: Seq<ObjectSlot>, seen: u64, steps: Seq<Step>) -> (
    Seq<ObjectSlot>,
    Option<Seq<SnapItem>>,
)
    decreases steps.len(),
{
    if steps.len() == 0 {
        (objects, Some(seq![]))
    } else {
        match steps_taken(objects, seen, steps.drop_last()) {
            (table, None) => (table, None),
            (table, Some(items)) => match steps.last() {
                Step::Item(item) => (table, Some(items.push(item))),
                Step::Place(e) => match object_seen(table, seen, e.kind, e.id) {
                    None => (table, None),
                    Some((next, id)) => (next, Some(items.push(SnapItem { id, obj: e.obj }))),
                },
            },
        }
    }
}

/// `pack` may answer whether the items, of which all but the last fit, fit
/// into a snapshot of the old protocol.
pub open spec fn answers<P: Fn(&Vec<SnapItem>) -> bool>(
    pack: P,
    items: Seq<SnapItem>,
    fits: bool,
) -> bool {
    exists|list: Vec<SnapItem>| list@ == items && #[trigger] pack.ensures((&list,), fits)
}

/// The first `n` steps can be taken, and the items fit after each of them.
pub open spec fn steps_fit<P: Fn(&Vec<SnapItem>) -> bool>(
    pack: P,
    objects: Seq<ObjectSlot>,
    seen: u64,
    steps: Seq<Step>,
    n: int,
) -> bool {
    forall|k: int|
        0 < k <= n ==> (steps_taken(objects, seen, #[trigger] steps.take(k)).1 matches Some(items)
            && answers(pack, items, true))
}

/// `r` and `after` are the outcome of taking the steps until one fails:
/// because an entity finds no id, or because an item does not fit any more.
pub open spec fn packs<P: Fn(&Vec<SnapItem>) -> bool>(
    pack: P,
    objects: Seq<ObjectSlot>,
    seen: u64,
    steps: Seq<Step>,
    r: Result<Vec<SnapItem>, SnapshotError>,
    after: Seq<ObjectSlot>,
) -> bool {
    exists|n: int|
        {
            &&& 0 <= n <= steps.len()
            &&& #[trigger] steps_fit(pack, objects, seen, steps, n)
            &&& if n == steps.len() {
                r matches Ok(out) && steps_taken(objects, seen, steps) == (after, Some(out@))
            } else {
                let (table, items) = steps_taken(objects, seen, steps.take(n + 1));
                &&& after == table
                &&& match items {
                    None => r == Err::<Vec<SnapItem>, SnapshotError>(
                        SnapshotError::EntityIdsExhausted,
                    ),
                    Some(items) => r == Err::<Vec<SnapItem>, SnapshotError>(
                        SnapshotError::DoesNotFit,
                    ) && answers(pack, items, false),
                }
            }
        }
}

/// `r` and `after` are the outcome of building a snapshot for player `local`
/// at `tick`, where `pack` tells whether items fit.
pub open spec fn builds<P: Fn(&Vec<SnapItem>) -> bool>(
    before: Snapshots,
    snapshot: Snapshot,
    local: u64,
    tick: i32,
    effects: Seq<SnapObj>,
    pack: P,
    r: Result<Vec<SnapItem>, SnapshotError>,
    after: Snapshots,
) -> bool {
    let seen = before.latest_tick;
    let (players, player_seen, fit) = players_after(
        before.players@,
        before.player_seen@,
        seen,
        snapshot,
        local,
    );
    let kept = kept_objects(before.objects@, seen);
    &&& after.players@ == players
    &&& after.player_seen@ == player_seen
    &&& if fit {
        packs(
            pack,
            kept,
            seen,
            steps_of(before.game_config, before.race, players, snapshot, local, tick, effects),
            r,
            after.objects@,
        )
    } else {
        &&& r == Err::<Vec<SnapItem>, SnapshotError>(SnapshotError::TooManyPlayers)
        &&& after.objects@ == kept
    }
    &&& after == (Snapshots {
        players: after.players,
        player_seen: after.player_seen,
        objects: after.objects,
        ..before
    })
}

proof fn lemma_more_steps(objects: Seq<ObjectSlot>, seen: u64, a: Seq<Step>, b: Seq<Step>)
    ensures
        steps_taken(objects, seen, a + b) == match steps_taken(objects, seen, a) {
            (table, None) => (table, None),
            (table, Some(items)) => match steps_taken(table, seen, b) {
                (last, None) => (last, None),
                (last, Some(more)) => (last, Some(items + more)),
            },
        },
    decreases b.len(),
{
    let (table, items) = steps_taken(objects, seen, a);
    if b.len() == 0 {
        assert(a + b =~= a);
        if items is Some {
            assert(items->0 + Seq::<SnapItem>::empty() =~= items->0);
        }
    } else {
        lemma_more_steps(objects, seen, a, b.drop_last());
        assert((a + b).drop_last() =~= a + b.drop_last());
        assert((a + b).last() == b.last());
        if items is Some {
            let (last, more) = steps_taken(table, seen, b);
            let (_, head) = steps_taken(table, seen, b.drop_last());
            if more is Some {
                assert(items->0 + more->0 =~= (items->0 + head->0).push(more->0.last()));
            }
        }
    }
}

proof fn lemma_item_steps(objects: Seq<ObjectSlot>, seen: u64, items: Seq<SnapItem>)
    ensures
        steps_taken(objects, seen, item_steps(items)) == (objects, Some(items)),
    decreases items.len(),
{
    if items.len() == 0 {
        assert(items =~= seq![]);
    } else {
        lemma_item_steps(objects, seen, items.drop_last());
        assert(item_steps(items).drop_last() =~= item_steps(items.drop_last()));
        assert(items =~= items.drop_last().push(items.last()));
    }
}

proof fn lemma_entity_steps(objects: Seq<ObjectSlot>, seen: u64, list: Seq<Entity>)
    ensures
        steps_taken(objects, seen, entity_steps(list)) == placed(objects, seen, list),
    decreases list.len(),
{
    if list.len() > 0 {
        let first = entity_steps(seq![list[0]]);
        let rest = entity_steps(list.drop_first());
        assert(entity_steps(list) =~= first + rest);
        lemma_more_steps(objects, seen, first, rest);
        reveal_with_fuel(steps_taken, 2);
        assert(first.drop_last() =~= seq![]);
        if let Some((next, id)) = object_seen(objects, seen, list[0].kind, list[0].id) {
            let item = SnapItem { id, obj: list[0].obj };
            assert(Seq::<SnapItem>::empty().push(item) =~= seq![item]);
            lemma_entity_steps(next, seen, list.drop_first());
        }
    }
}

/// Where no step fails, a snapshot holds the items of the game and the
/// players, then those of the entities, then the events.
pub proof fn steps_make_up_the_snapshot(
    config: GameConfig,
    race: bool,
    players: Map<u64, u16>,
    objects: Seq<ObjectSlot>,
    seen: u64,
    snapshot: Snapshot,
    local: u64,
    tick: i32,
    effects: Seq<SnapObj>,
)
    ensures
        steps_taken(
            kept_objects(objects, seen),
            seen,
            steps_of(config, race, players, snapshot, local, tick, effects),
        ) == match objects_after(objects, seen, snapshot, local, tick) {
            (table, None) => (table, None),
            (table, Some(items)) => (
                table,
                Some(
                    player_items(config, race, players, snapshot, local, tick) + items
                        + effect_items(effects),
                ),
            ),
        },
{
    let kept = kept_objects(objects, seen);
    let head = player_items(config, race, players, snapshot, local, tick);
    let middle = stage_steps(stage_shown(snapshot, local), tick);
    let tail = effect_items(effects);
    lemma_item_steps(kept, seen, head);
    lemma_more_steps(kept, seen, item_steps(head), middle);
    lemma_more_steps(kept, seen, item_steps(head) + middle, item_steps(tail));
    if let Some(stage) = stage_shown(snapshot, local) {
        let flying = entity_steps(flying_entities(stage, tick));
        let flags = flag_item(stage.red_flags@, 0) + flag_item(stage.blue_flags@, 1);
        let lasers = entity_steps(laser_entities(stage, tick));
        lemma_entity_steps(kept, seen, flying_entities(stage, tick));
        let (next, first) = placed(kept, seen, flying_entities(stage, tick));
        lemma_more_steps(kept, seen, flying, item_steps(flags));
        lemma_item_steps(next, seen, flags);
        lemma_more_steps(kept, seen, flying + item_steps(flags), lasers);
        lemma_entity_steps(next, seen, laser_entities(stage, tick));
        let (last, second) = placed(next, seen, laser_entities(stage, tick));
        if first is Some && second is Some {
            assert(first->0 + flags + second->0 =~= entity_items(kept, seen, stage, tick).1->0);
        }
    }
    let (table, items) = objects_after(objects, seen, snapshot, local, tick);
    lemma_item_steps(table, seen, tail);
}

/// Once all ids fit, every one of them is mapped, and nobody lost a slot.
pub(crate) proof fn lemma_assigned_maps(
    players: Map<u64, u16>,
    seen: Map<u64, u64>,
    tick: u64,
    ids: Seq<u64>,
)
    ensures
        ({
            let (after, _, fit) = assigned(players, seen, tick, ids);
            &&& forall|k: u64| #[trigger]
                players.contains_key(k) ==> after.contains_key(k) && after[k] == players[k]
            &&& fit ==> forall|i: int| 0 <= i < ids.len() ==> after.contains_key(#[trigger] ids[i])
        }),
    decreases ids.len(),
{
    if ids.len() > 0 {
        let id = ids[0];
        let seen2 = seen.insert(id, tick);
        let (after, _, fit) = assigned(players, seen, tick, ids);
        if players.contains_key(id) {
            lemma_assigned_maps(players, seen2, tick, ids.drop_first());
        } else if let Some(slot) = free_player_slot(players, 0, MAX_PLAYERS as int) {
            lemma_assigned_maps(players.insert(id, slot), seen2, tick, ids.drop_first());
            assert(players.insert(id, slot).contains_key(id));
            assert forall|k: u64| #[trigger] players.contains_key(k) implies after.contains_key(k)
                && after[k] == players[k] by {
                assert(players.insert(id, slot).contains_key(k));
            }
        }
        if fit {
            assert forall|i: int| 0 <= i < ids.len() implies after.contains_key(
                #[trigger] ids[i],
            ) by {
                if i > 0 {
                    assert(ids.drop_first()[i - 1] == ids[i]);
                }
            }
        }
    }
}

/// Every character of a stage is in the list of ids.
proof fn lemma_stage_ids(stages: Seq<Stage>, i: int, j: int)
    requires
        0 <= i < stages.len(),
        0 <= j < stages[i].characters@.len(),
    ensures
        stage_ids(stages).contains(stages[i].characters@[j].id),
    decreases stages.len(),
{
    let ids = stage_ids(stages);
    let head = stage_ids(stages.drop_last());
    if i == stages.len() - 1 {
        assert(ids[head.len() + j] == stages[i].characters@[j].id);
    } else {
        assert(stages.drop_last()[i] == stages[i]);
        lemma_stage_ids(stages.drop_last(), i, j);
        let k = choose|k: int| 0 <= k < head.len() && head[k] == stages[i].characters@[j].id;
        assert(ids[k] == head[k]);
    }
}

/// All players of a snapshot are mapped when its list of ids is.
pub(crate) proof fn lemma_roster_mapped(snapshot: Snapshot, players: Map<u64, u16>)
    requires
        forall|i: int|
            0 <= i < roster_of(snapshot).len() ==> players.contains_key(
                #[trigger] roster_of(snapshot)[i],
            ),
    ensures
        forall|i: int|
            0 <= i < snapshot.stages@.len() ==> all_mapped(
                players,
                #[trigger] snapshot.stages@[i],
            ),
        forall|i: int|
            0 <= i < snapshot.spectators@.len() ==> players.contains_key(
                (#[trigger] snapshot.spectators@[i]).id,
            ),
{
    let ids = roster_of(snapshot);
    let head = stage_ids(snapshot.stages@);
    assert forall|i: int| 0 <= i < snapshot.stages@.len() implies all_mapped(
        players,
        #[trigger] snapshot.stages@[i],
    ) by {
        let characters = snapshot.stages@[i].characters@;
        assert forall|j: int| 0 <= j < characters.len() implies players.contains_key(
            (#[trigger] characters[j]).id,
        ) by {
            lemma_stage_ids(snapshot.stages@, i, j);
            let k = choose|k: int| 0 <= k < head.len() && head[k] == characters[j].id;
            assert(ids[k] == head[k]);
        }
    }
    assert forall|i: int| 0 <= i < snapshot.spectators@.len() implies players.contains_key(
        (#[trigger] snapshot.spectators@[i]).id,
    ) by {
        assert(ids[head.len() + i] == snapshot.spectators@[i].id);
    }
}

fn add_items(items: &Vec<SnapItem>, steps: &mut Vec<Step>)
    ensures
        final(steps)@ == old(steps)@ + item_steps(items@),
{
    let mut i: usize = 0;
    while i < items.len()
        invariant
            i <= items.len(),
            steps@ =~= old(steps)@ + item_steps(items@).take(i as int),
        decreases items.len() - i,
    {
        steps.push(Step::Item(items[i]));
        i += 1;
    }
    assert(steps@ =~= old(steps)@ + item_steps(items@));
}

fn add_entities(list: &Vec<Entity>, steps: &mut Vec<Step>)
    ensures
        final(steps)@ == old(steps)@ + entity_steps(list@),
{
    let mut i: usize = 0;
    while i < list.len()
        invariant
            i <= list.len(),
            steps@ =~= old(steps)@ + entity_steps(list@).take(i as int),
        decreases list.len() - i,
    {
        steps.push(Step::Place(list[i]));
        i += 1;
    }
    assert(steps@ =~= old(steps)@ + entity_steps(list@));
}

fn add_stage(stage: &Stage, tick: i32, steps: &mut Vec<Step>)
    ensures
        final(steps)@ == old(steps)@ + stage_steps(Some(*stage), tick),
{
    add_entities(&flying(stage, tick), steps);
    let mut flags: Vec<SnapItem> = Vec::new();
    push_flag(&stage.red_flags, 0, &mut flags);
    push_flag(&stage.blue_flags, 1, &mut flags);
    assert(flags@ =~= flag_item(stage.red_flags@, 0) + flag_item(stage.blue_flags@, 1));
    add_items(&flags, steps);
    add_entities(&laser_list(stage, tick), steps);
    assert(steps@ =~= old(steps)@ + stage_steps(Some(*stage), tick));
}

fn add_effects(effects: &Vec<SnapObj>, steps: &mut Vec<Step>)
    ensures
        final(steps)@ == old(steps)@ + item_steps(effect_items(effects@)),
{
    let ghost all = item_steps(effect_items(effects@));
    let mut i: usize = 0;
    while i < effects.len()
        invariant
            i <= effects.len(),
            all == item_steps(effect_items(effects@)),
            steps@ =~= old(steps)@ + all.take(i as int),
        decreases effects.len() - i,
    {
        let id: u16 = (i % 0x1_0000) as u16;
        steps.push(Step::Item(SnapItem { id, obj: effects[i] }));
        assert(all[i as int] == Step::Item(SnapItem { id, obj: effects@[i as int] }));
        i += 1;
    }
    assert(steps@ =~= old(steps)@ + all);
}

impl Snapshots {
    /// Takes the steps until one fails.
    fn pack<P: Fn(&Vec<SnapItem>) -> bool>(&mut self, steps: &Vec<Step>, pack: P) -> (r: Result<
        Vec<SnapItem>,
        SnapshotError,
    >)
        requires
            forall|items: &Vec<SnapItem>| pack.requires((items,)),
        ensures
            packs(
                pack,
                old(self).objects@,
                old(self).latest_tick,
                steps@,
                r,
                final(self).objects@,
            ),
            *final(self) == (Snapshots { objects: final(self).objects, ..*old(self) }),
    {
        let ghost objects = self.objects@;
        let ghost seen = self.latest_tick;
        let mut out: Vec<SnapItem> = Vec::new();
        let mut i: usize = 0;
        while i < steps.len()
            invariant
                i <= steps.len(),
                forall|items: &Vec<SnapItem>| pack.requires((items,)),
                objects == old(self).objects@,
                seen == old(self).latest_tick,
                *self == (Snapshots { objects: self.objects, ..*old(self) }),
                steps_taken(objects, seen, steps@.take(i as int)) == (self.objects@, Some(out@)),
                steps_fit(pack, objects, seen, steps@, i as int),
            decreases steps.len() - i,
        {
            let step = steps[i];
            assert(steps@.take(i + 1).drop_last() =~= steps@.take(i as int));
            assert(steps@.take(i + 1).last() == step);
            let item = match step {
                Step::Item(item) => item,
                Step::Place(e) => match self.object(e.kind, e.id) {
                    Ok(id) => SnapItem { id, obj: e.obj },
                    Err(error) => {
                        return Err(error);
                    },
                },
            };
            out.push(item);
            assert(steps_taken(objects, seen, steps@.take(i + 1)) == (self.objects@, Some(out@)));
            if !pack(&out) {
                assert(answers(pack, out@, false));
                return Err(SnapshotError::DoesNotFit);
            }
            assert(answers(pack, out@, true));
            i += 1;
        }
        assert(steps@.take(i as int) =~= steps@);
        Ok(out)
    }

    /// Builds the snapshot that the client of player `local` is sent at
    /// `tick`: the game, all players, and the entities and events of the
    /// stage that the player looks at. `pack` is asked after each item
    /// whether the items so far, of which all but the last fit, fit into a
    /// snapshot of the old protocol.
    pub fn build<P: Fn(&Vec<SnapItem>) -> bool>(
        &mut self,
        snapshot: &Snapshot,
        local: u64,
        tick: i32,
        effects: &Vec<SnapObj>,
        pack: P,
    ) -> (r: Result<Vec<SnapItem>, SnapshotError>)
        requires
            forall|items: &Vec<SnapItem>| pack.requires((items,)),
        ensures
            builds(*old(self), *snapshot, local, tick, effects@, pack, r, *final(self)),
            r matches Ok(items) ==> {
                let (objects, placed_items) = objects_after(
                    old(self).objects@,
                    old(self).latest_tick,
                    *snapshot,
                    local,
                    tick,
                );
                &&& final(self).objects@ == objects
                &&& placed_items is Some
                &&& items@ == player_items(
                    old(self).game_config,
                    old(self).race,
                    final(self).players@,
                    *snapshot,
                    local,
                    tick,
                ) + placed_items->0 + effect_items(effects@)
            },
    {
        self.retain_objects();
        self.retain_players(local);
        if self.players.len() == 0 {
            self.players.insert(local, 0);
        }
        let ids = roster(snapshot);
        let ghost players = self.players@;
        let ghost seen = self.player_seen@;
        if !self.assign(&ids) {
            return Err(SnapshotError::TooManyPlayers);
        }
        proof {
            lemma_assigned_maps(players, seen, self.latest_tick, ids@);
            lemma_roster_mapped(*snapshot, self.players@);
            steps_make_up_the_snapshot(
                self.game_config,
                self.race,
                self.players@,
                old(self).objects@,
                self.latest_tick,
                *snapshot,
                local,
                tick,
                effects@,
            );
        }
        let shown = own_stage(snapshot, local);
        let mut items: Vec<SnapItem> = Vec::new();
        self.game(shown, tick, &mut items);
        characters(snapshot, &self.players, local, tick, shown, &mut items);
        spectators(snapshot, &self.players, local, &mut items);
        assert(items@ =~= player_items(
            self.game_config,
            self.race,
            self.players@,
            *snapshot,
            local,
            tick,
        ));
        let mut steps: Vec<Step> = Vec::new();
        add_items(&items, &mut steps);
        if let Some(stage) = shown {
            add_stage(stage, tick, &mut steps);
        }
        add_effects(effects, &mut steps);
        assert(steps@ =~= steps_of(
            self.game_config,
            self.race,
            self.players@,
            *snapshot,
            local,
            tick,
            effects@,
        ));
        self.pack(&steps, pack)
    }
}

} // verus!
