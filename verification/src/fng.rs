//! The rules of the freeze mod: lasers freeze, spikes kill, and whoever froze
//! a player scores for the spike that it falls into.
use crate::legacy::world::{MatchSide, WeaponType};
use vstd::prelude::*;

verus! {

/// The ticks of a second.
pub const TICKS_PER_SECOND: u64 = 50;

/// For how long a laser freezes.
pub const LASER_FREEZE_SECONDS: u64 = 10;

/// For how long a spike of the other side freezes the one who scored.
pub const SPIKE_FREEZE_SECONDS: u64 = 5;

/// The game types that can be configured.
#[derive(Debug, Clone, Copy, PartialEq, Eq, PartialOrd, Ord, Structural)]
pub enum ConfigGameType {
    Dm,
    Ctf,
    Fng,
}

impl Default for ConfigGameType {
    fn default() -> (r: Self)
        ensures
            r == ConfigGameType::Dm,
    {
        ConfigGameType::Dm
    }
}

/// Whether a game is played by everyone alone or in teams.
#[derive(Debug, Clone, Copy, PartialEq, Eq, Structural)]
pub enum GameType {
    Solo,
    Team,
}

/// The state of the game.
pub struct GameState {}

/// The game type of a configured one.
pub open spec fn game_type_of(conf: ConfigGameType) -> GameType {
    match conf {
        ConfigGameType::Ctf => GameType::Team,
        ConfigGameType::Dm => GameType::Solo,
        ConfigGameType::Fng => GameType::Team,
    }
}

/// The name of a configured game type.
pub open spec fn mod_name_of(conf: ConfigGameType) -> Seq<char> {
    match conf {
        ConfigGameType::Dm => "dm"@,
        ConfigGameType::Ctf => "ctf"@,
        ConfigGameType::Fng => "fng"@,
    }
}

impl GameState {
    /// The game type of a configured one.
    pub fn get_game_type_from_conf(conf: ConfigGameType) -> (r: GameType)
        ensures
            r == game_type_of(conf),
    {
        match conf {
            ConfigGameType::Ctf => GameType::Team,
            ConfigGameType::Dm => GameType::Solo,
            ConfigGameType::Fng => GameType::Team,
        }
    }

    /// The name of a configured game type.
    pub fn get_mod_name_from_conf(conf: ConfigGameType) -> (r: String)
        ensures
            r@ == mod_name_of(conf),
    {
        match conf {
            ConfigGameType::Dm => "dm".to_owned(),
            ConfigGameType::Ctf => "ctf".to_owned(),
            ConfigGameType::Fng => "fng".to_owned(),
        }
    }
}

/// The spikes of a map.
#[derive(Debug, Clone, Copy, PartialEq, Eq, PartialOrd, Ord, Structural)]
pub enum FngSpikeTiles {
    Golden,
    Normal,
    Red,
    Blue,
    Green,
    Purple,
}

/// The index of a spike among the tiles.
pub open spec fn spike_index(spike: FngSpikeTiles) -> u8 {
    match spike {
        FngSpikeTiles::Golden => 7,
        FngSpikeTiles::Normal => 8,
        FngSpikeTiles::Red => 9,
        FngSpikeTiles::Blue => 10,
        FngSpikeTiles::Green => 14,
        FngSpikeTiles::Purple => 15,
    }
}

/// The spike with the given index.
pub open spec fn spike_at(index: u8) -> Option<FngSpikeTiles> {
    if index == 7 {
        Some(FngSpikeTiles::Golden)
    } else if index == 8 {
        Some(FngSpikeTiles::Normal)
    } else if index == 9 {
        Some(FngSpikeTiles::Red)
    } else if index == 10 {
        Some(FngSpikeTiles::Blue)
    } else if index == 14 {
        Some(FngSpikeTiles::Green)
    } else if index == 15 {
        Some(FngSpikeTiles::Purple)
    } else {
        None
    }
}

/// Spikes and their indices determine each other.
pub proof fn spike_indices_are_unique(spike: FngSpikeTiles, index: u8)
    ensures
        spike_at(spike_index(spike)) == Some(spike),
        spike_at(index) matches Some(found) ==> spike_index(found) == index,
{
}

impl FngSpikeTiles {
    /// The index of a spike among the tiles.
    pub fn index(self) -> (r: u8)
        ensures
            r == spike_index(self),
    {
        match self {
            FngSpikeTiles::Golden => 7,
            FngSpikeTiles::Normal => 8,
            FngSpikeTiles::Red => 9,
            FngSpikeTiles::Blue => 10,
            FngSpikeTiles::Green => 14,
            FngSpikeTiles::Purple => 15,
        }
    }

    /// The spike with the given index.
    pub fn from_index(index: u8) -> (r: Option<Self>)
        ensures
            r == spike_at(index),
    {
        match index {
            7 => Some(FngSpikeTiles::Golden),
            8 => Some(FngSpikeTiles::Normal),
            9 => Some(FngSpikeTiles::Red),
            10 => Some(FngSpikeTiles::Blue),
            14 => Some(FngSpikeTiles::Green),
            15 => Some(FngSpikeTiles::Purple),
            _ => None,
        }
    }
}

/// The events that the mod adds to characters.
#[derive(Debug, Clone, Copy, PartialEq, Eq, Structural)]
pub enum CharacterEventMod {
    DespawnBySpike { id: u64, killer_id: Option<u64>, spike: FngSpikeTiles },
}

/// A weapon that a character carries.
#[derive(Debug, Clone, Copy, PartialEq, Eq, Structural)]
pub struct CarriedWeapon {
    pub weapon: WeaponType,
    pub cur_ammo: Option<u32>,
}

/// A character, as far as the mod changes it. `freeze` holds the ticks that a
/// freeze still lasts.
#[derive(Debug, Clone, PartialEq, Eq)]
pub struct Character {
    pub id: u64,
    pub score: i64,
    pub side: Option<MatchSide>,
    pub freeze: Option<u64>,
    pub frozen_by: Option<u64>,
    pub weapons: Vec<CarriedWeapon>,
}

/// The controls of a player.
#[derive(Debug, Clone, Copy, PartialEq, Eq, Structural)]
pub struct Controls {
    pub dir: i32,
    pub hook: bool,
    pub fire: bool,
    pub jump: bool,
}

/// How a character died.
#[derive(Debug, Clone, Copy, PartialEq, Eq, Structural)]
pub enum DeathBy {
    /// By the world.
    World,
    /// By a spike, for which the one who froze it counts as killer.
    Spike { killer: Option<u64> },
}

/// What a tile does to a character.
#[derive(Debug, Clone, Copy, PartialEq, Eq, Structural)]
pub enum TileResult {
    Unharmed,
    Dies { by: DeathBy, event: Option<CharacterEventMod> },
}

/// What damage does to a character.
#[derive(Debug, Clone, Copy, PartialEq, Eq, Structural)]
pub enum DamageResult {
    Unharmed,
    Damage,
}

/// Whether damage counts between players of one side.
#[derive(Debug, Clone, Copy, PartialEq, Eq, Structural)]
pub enum FriendlyFire {
    Dmg,
    Spared,
}

/// What follows an input.
#[derive(Debug, Clone, Copy, PartialEq, Eq, Structural)]
pub enum InputHandling {
    /// Only the weapon may change.
    WeaponSwitchOnly,
    /// All of the input counts.
    Full,
}

impl Character {
    /// The weapons after a respawn: hammer and laser, with unlimited
    /// ammunition.
    pub fn respawn_weapons(&mut self)
        ensures
            final(self).weapons@ == seq![
                CarriedWeapon { weapon: WeaponType::Hammer, cur_ammo: None },
                CarriedWeapon { weapon: WeaponType::Laser, cur_ammo: None },
            ],
            *final(self) == (Character { weapons: final(self).weapons, ..*old(self) }),
    {
        let mut weapons: Vec<CarriedWeapon> = Vec::new();
        weapons.push(CarriedWeapon { weapon: WeaponType::Hammer, cur_ammo: None });
        weapons.push(CarriedWeapon { weapon: WeaponType::Laser, cur_ammo: None });
        assert(weapons@ =~= seq![
            CarriedWeapon { weapon: WeaponType::Hammer, cur_ammo: None },
            CarriedWeapon { weapon: WeaponType::Laser, cur_ammo: None },
        ]);
        self.weapons = weapons;
    }

    /// The weapon that a character starts with.
    pub fn default_active_weapon() -> (r: WeaponType)
        ensures
            r == WeaponType::Laser,
    {
        WeaponType::Laser
    }

    /// What follows a change of input: a frozen character can only switch
    /// weapons.
    pub fn handle_input_change(&self) -> (r: InputHandling)
        ensures
            r == if self.freeze is Some {
                InputHandling::WeaponSwitchOnly
            } else {
                InputHandling::Full
            },
    {
        if self.freeze.is_some() {
            InputHandling::WeaponSwitchOnly
        } else {
            InputHandling::Full
        }
    }

    /// The controls that move the character: those of a frozen one rest.
    pub fn effective_controls(&self, input: Controls) -> (r: Controls)
        ensures
            r == if self.freeze is Some {
                Controls { dir: 0, hook: false, fire: false, jump: false }
            } else {
                input
            },
    {
        if self.freeze.is_some() {
            Controls { dir: 0, hook: false, fire: false, jump: false }
        } else {
            input
        }
    }

    /// What a tile of the game layer does to the character. `death_tile` is
    /// the index of the tile that kills.
    pub fn handle_game_layer_tiles(&self, index: u8, death_tile: u8) -> (r: TileResult)
        ensures
            r == tile_result(*self, index, death_tile),
    {
        if index == death_tile {
            return TileResult::Dies { by: DeathBy::World, event: None };
        }
        match FngSpikeTiles::from_index(index) {
            Some(spike) => TileResult::Dies {
                by: DeathBy::Spike { killer: self.frozen_by },
                event: Some(
                    CharacterEventMod::DespawnBySpike {
                        id: self.id,
                        killer_id: self.frozen_by,
                        spike,
                    },
                ),
            },
            None => TileResult::Unharmed,
        }
    }

    /// What a hit does to the character: a laser freezes it, unless it is
    /// frozen already.
    pub fn take_damage_from(
        &mut self,
        killer_id: u64,
        friendly_fire: FriendlyFire,
        weapon: Option<WeaponType>,
    ) -> (r: DamageResult)
        ensures
            if friendly_fire == FriendlyFire::Dmg && weapon == Some(WeaponType::Laser) && old(
                self,
            ).freeze is None {
                &&& r == DamageResult::Damage
                &&& *final(self) == (Character {
                    freeze: Some((TICKS_PER_SECOND * LASER_FREEZE_SECONDS) as u64),
                    frozen_by: Some(killer_id),
                    ..*old(self)
                })
            } else {
                r == DamageResult::Unharmed && *final(self) == *old(self)
            },
    {
        let by_laser = match weapon {
            Some(weapon) => weapon == WeaponType::Laser,
            None => false,
        };
        if friendly_fire == FriendlyFire::Dmg && by_laser && self.freeze.is_none() {
            self.freeze = Some(TICKS_PER_SECOND * LASER_FREEZE_SECONDS);
            self.frozen_by = Some(killer_id);
            DamageResult::Damage
        } else {
            DamageResult::Unharmed
        }
    }
}

/// What a tile does to a character: the death tile kills it, and a spike
/// kills it for the one who froze it.
pub open spec fn tile_result(c: Character, index: u8, death_tile: u8) -> TileResult {
    if index == death_tile {
        TileResult::Dies { by: DeathBy::World, event: None }
    } else {
        match spike_at(index) {
            Some(spike) => TileResult::Dies {
                by: DeathBy::Spike { killer: c.frozen_by },
                event: Some(
                    CharacterEventMod::DespawnBySpike {
                        id: c.id,
                        killer_id: c.frozen_by,
                        spike,
                    },
                ),
            },
            None => TileResult::Unharmed,
        }
    }
}

/// The points that the one who scored gets for a spike. A spike of the other
/// side costs points.
pub open spec fn spike_points(spike: FngSpikeTiles, side: Option<MatchSide>) -> int {
    match spike {
        FngSpikeTiles::Golden => 7,
        FngSpikeTiles::Normal => 3,
        FngSpikeTiles::Red => if side == Some(MatchSide::Blue) {
            -5
        } else {
            5
        },
        FngSpikeTiles::Blue => if side == Some(MatchSide::Red) {
            -5
        } else {
            5
        },
        FngSpikeTiles::Green => 6,
        FngSpikeTiles::Purple => 5,
    }
}

/// The points that the side of the one who scored gets.
pub open spec fn team_points(spike: FngSpikeTiles) -> int {
    match spike {
        FngSpikeTiles::Normal => 5,
        _ => 10,
    }
}

/// The one who scored after the points were given.
pub open spec fn scored(c: Character, spike: FngSpikeTiles) -> Character {
    let points = spike_points(spike, c.side);
    Character {
        score: (c.score + points) as i64,
        freeze: if points < 0 {
            Some((TICKS_PER_SECOND * SPIKE_FREEZE_SECONDS) as u64)
        } else {
            c.freeze
        },
        ..c
    }
}

/// The scores of the two sides.
#[derive(Debug, Clone, Copy, PartialEq, Eq, Structural)]
pub struct SideScores {
    pub red: i64,
    pub blue: i64,
}

/// The scores after a side got points.
pub open spec fn side_scored(scores: SideScores, side: MatchSide, points: int) -> SideScores {
    match side {
        MatchSide::Red => SideScores { red: (scores.red + points) as i64, ..scores },
        MatchSide::Blue => SideScores { blue: (scores.blue + points) as i64, ..scores },
    }
}

/// The place of a character, or the number of characters.
pub open spec fn character_index(characters: Seq<Character>, id: u64) -> int
    decreases characters.len(),
{
    if characters.len() == 0 || characters[0].id == id {
        0
    } else {
        1 + character_index(characters.drop_first(), id)
    }
}

/// The place of the character that scores for an event, or the number of
/// characters.
pub open spec fn scorer(characters: Seq<Character>, ev: CharacterEventMod) -> int {
    match ev {
        CharacterEventMod::DespawnBySpike { id, killer_id, spike } => match killer_id {
            Some(killer) => character_index(characters, killer),
            None => characters.len() as int,
        },
    }
}

/// The points of an event can be added without leaving the range of scores.
pub open spec fn scores_fit(
    characters: Seq<Character>,
    scores: Option<SideScores>,
    ev: CharacterEventMod,
) -> bool {
    let i = scorer(characters, ev);
    match ev {
        CharacterEventMod::DespawnBySpike { id, killer_id, spike } => i < characters.len() ==> {
            let c = characters[i];
            &&& i64::MIN <= c.score + spike_points(spike, c.side) <= i64::MAX
            &&& match (scores, c.side) {
                (Some(s), Some(MatchSide::Red)) => s.red + team_points(spike) <= i64::MAX,
                (Some(s), Some(MatchSide::Blue)) => s.blue + team_points(spike) <= i64::MAX,
                _ => true,
            }
        },
    }
}

fn points(spike: FngSpikeTiles, side: Option<MatchSide>) -> (r: i64)
    ensures
        r == spike_points(spike, side),
{
    match spike {
        FngSpikeTiles::Golden => 7,
        FngSpikeTiles::Normal => 3,
        FngSpikeTiles::Red => match side {
            Some(MatchSide::Blue) => -5,
            _ => 5,
        },
        FngSpikeTiles::Blue => match side {
            Some(MatchSide::Red) => -5,
            _ => 5,
        },
        FngSpikeTiles::Green => 6,
        FngSpikeTiles::Purple => 5,
    }
}

/// Gives the points for a character that fell into a spike. `scores` holds
/// the scores of the sides, where there are any. Returns whether the match
/// may have been won.
pub fn mod_event(
    characters: &mut Vec<Character>,
    scores: &mut Option<SideScores>,
    ev: &CharacterEventMod,
) -> (check_win: bool)
    requires
        scores_fit(old(characters)@, *old(scores), *ev),
    ensures
        match ev {
            CharacterEventMod::DespawnBySpike { id, killer_id, spike } => {
                let list = old(characters)@;
                let i = scorer(list, *ev);
                &&& check_win == (i < list.len())
                &&& if i < list.len() {
                    &&& final(characters)@ == list.update(i, scored(list[i], *spike))
                    &&& *final(scores) == match (*old(scores), list[i].side) {
                        (Some(s), Some(side)) => Some(side_scored(s, side, team_points(*spike))),
                        _ => *old(scores),
                    }
                } else {
                    final(characters)@ == list && *final(scores) == *old(scores)
                }
            },
        },
{
    let CharacterEventMod::DespawnBySpike { id: _, killer_id, spike } = *ev;
    let killer: u64 = match killer_id {
        Some(killer) => killer,
        None => {
            return false;
        },
    };
    let ghost list = characters@;
    let mut i: usize = 0;
    assert(list.skip(0) =~= list);
    while i < characters.len() && characters[i].id != killer
        invariant
            i <= characters.len(),
            characters@ == list,
            character_index(list, killer) == i + character_index(list.skip(i as int), killer),
        decreases characters.len() - i,
    {
        assert(list.skip(i as int).drop_first() =~= list.skip(i + 1));
        i += 1;
    }
    if i >= characters.len() {
        return false;
    }
    assert(character_index(list, killer) == i);
    let c = &characters[i];
    let side = c.side;
    let gained: i64 = points(spike, side);
    let freeze = if gained < 0 {
        Some(TICKS_PER_SECOND * SPIKE_FREEZE_SECONDS)
    } else {
        c.freeze
    };
    let score: i64 = c.score + gained;
    characters[i].score = score;
    characters[i].freeze = freeze;
    let team: i64 = match spike {
        FngSpikeTiles::Normal => 5,
        _ => 10,
    };
    if let (Some(s), Some(side)) = (*scores, side) {
        *scores = Some(
            match side {
                MatchSide::Red => SideScores { red: s.red + team, ..s },
                MatchSide::Blue => SideScores { blue: s.blue + team, ..s },
            },
        );
    }
    assert(characters@ =~= list.update(i as int, scored(list[i as int], spike)));
    true
}

/// Who falls into a spike without having been frozen scores for nobody.
pub proof fn unfrozen_death_scores_for_nobody(c: Character, index: u8, death_tile: u8)
    requires
        c.frozen_by is None,
    ensures
        tile_result(c, index, death_tile) matches TileResult::Dies {
            by: _,
            event: Some(CharacterEventMod::DespawnBySpike { id, killer_id, spike }),
        } ==> killer_id is None,
{
}

/// A spike of the other side costs the player points and freezes it, but its
/// side scores all the same.
pub proof fn wrong_spike_is_punished(c: Character, spike: FngSpikeTiles, scores: SideScores)
    requires
        (c.side == Some(MatchSide::Red) && spike == FngSpikeTiles::Blue) || (c.side == Some(
            MatchSide::Blue,
        ) && spike == FngSpikeTiles::Red),
        c.score >= i64::MIN + 5,
        scores.red <= i64::MAX - 10,
        scores.blue <= i64::MAX - 10,
    ensures
        scored(c, spike).score == c.score - 5,
        scored(c, spike).freeze == Some((TICKS_PER_SECOND * SPIKE_FREEZE_SECONDS) as u64),
        ({
            let after = side_scored(scores, c.side->0, team_points(spike));
            after.red + after.blue == scores.red + scores.blue + 10
        }),
{
}

/// Only `dm` is played alone. The name of a game type is its own, and the
/// game type that is chosen without a choice is `dm`.
pub proof fn game_types_are_told_by_name(
    conf: ConfigGameType,
    ty: GameType,
    name: String,
    first: ConfigGameType,
)
    requires
        call_ensures(GameState::get_game_type_from_conf, (conf,), ty),
        call_ensures(GameState::get_mod_name_from_conf, (conf,), name),
        call_ensures(ConfigGameType::default, (), first),
    ensures
        ty == GameType::Solo <==> conf == ConfigGameType::Dm,
        ty == GameType::Team <==> conf != ConfigGameType::Dm,
        name@ == "dm"@ <==> conf == ConfigGameType::Dm,
        name@ == "ctf"@ <==> conf == ConfigGameType::Ctf,
        name@ == "fng"@ <==> conf == ConfigGameType::Fng,
        first == ConfigGameType::Dm,
{
    reveal_strlit("dm");
    reveal_strlit("ctf");
    reveal_strlit("fng");
    assert("ctf"@[0] != "fng"@[0]);
    assert("dm"@.len() != "ctf"@.len());
}

/// The indices of the spikes among the tiles, read and written.
pub proof fn spikes_have_their_tiles(
    spike: FngSpikeTiles,
    index: u8,
    back: Option<FngSpikeTiles>,
    any: u8,
    found: Option<FngSpikeTiles>,
)
    requires
        call_ensures(FngSpikeTiles::index, (spike,), index),
        call_ensures(FngSpikeTiles::from_index, (index,), back),
        call_ensures(FngSpikeTiles::from_index, (any,), found),
    ensures
        back == Some(spike),
        index == 7 <==> spike == FngSpikeTiles::Golden,
        index == 8 <==> spike == FngSpikeTiles::Normal,
        index == 9 <==> spike == FngSpikeTiles::Red,
        index == 10 <==> spike == FngSpikeTiles::Blue,
        index == 14 <==> spike == FngSpikeTiles::Green,
        index == 15 <==> spike == FngSpikeTiles::Purple,
        found is Some <==> 7 <= any <= 10 || any == 14 || any == 15,
        found == Some(spike) <==> any == index,
{
}

/// A character comes back with hammer and laser, both without end, and holds
/// the laser. Nothing else of it changes.
pub proof fn characters_come_back_with_hammer_and_laser(
    c: &mut Character,
    active: WeaponType,
    w: CarriedWeapon,
)
    requires
        call_ensures(Character::respawn_weapons, (c,), ()),
        call_ensures(Character::default_active_weapon, (), active),
    ensures
        final(c).weapons@.contains(w) <==> w.cur_ammo is None && (w.weapon == WeaponType::Hammer
            || w.weapon == WeaponType::Laser),
        final(c).weapons@.len() == 2,
        active == WeaponType::Laser,
        final(c).id == old(c).id,
        final(c).score == old(c).score,
        final(c).side == old(c).side,
        final(c).freeze == old(c).freeze,
        final(c).frozen_by == old(c).frozen_by,
{
    let list = final(c).weapons@;
    assert(list.contains(list[0]) && list.contains(list[1]));
    if list.contains(w) {
        let k = choose|k: int| 0 <= k < list.len() && list[k] == w;
        assert(k == 0 || k == 1);
    }
}

/// A frozen character does not move, and can only switch weapons. All other
/// controls are taken as they are.
pub proof fn frozen_characters_rest(
    c: &Character,
    input: Controls,
    r: Controls,
    handling: InputHandling,
)
    requires
        call_ensures(Character::effective_controls, (c, input), r),
        call_ensures(Character::handle_input_change, (c,), handling),
    ensures
        c.freeze is None ==> r == input && handling == InputHandling::Full,
        c.freeze is Some ==> r.dir == 0 && !r.hook && !r.fire && !r.jump && handling
            == InputHandling::WeaponSwitchOnly,
{
}

/// The death tile kills for nobody. A spike kills for the one who froze the
/// character, and tells whose death it is and by which spike. No other tile
/// does anything.
pub proof fn spikes_kill_for_the_one_who_froze(
    c: &Character,
    index: u8,
    death: u8,
    r: TileResult,
    spike: Option<FngSpikeTiles>,
)
    requires
        call_ensures(Character::handle_game_layer_tiles, (c, index, death), r),
        call_ensures(FngSpikeTiles::from_index, (index,), spike),
    ensures
        r is Unharmed <==> index != death && spike is None,
        index == death ==> (r matches TileResult::Dies { by, event } && by == DeathBy::World
            && event is None),
        index != death && spike is Some ==> {
            &&& r matches TileResult::Dies { by, event }
            &&& by matches DeathBy::Spike { killer }
            &&& killer == c.frozen_by
            &&& event matches Some(CharacterEventMod::DespawnBySpike { id, killer_id, spike: fell })
            &&& id == c.id
            &&& killer_id == c.frozen_by
            &&& fell == spike->0
        },
{
}

/// A laser freezes for ten seconds of 50 ticks, for the one who fired it,
/// unless the character is spared or frozen already. Nothing else does.
pub proof fn lasers_freeze_for_the_shooter(
    c: &mut Character,
    killer: u64,
    fire: FriendlyFire,
    weapon: Option<WeaponType>,
    r: DamageResult,
)
    requires
        call_ensures(Character::take_damage_from, (c, killer, fire, weapon), r),
    ensures
        r == DamageResult::Damage <==> fire == FriendlyFire::Dmg && weapon == Some(
            WeaponType::Laser,
        ) && old(c).freeze is None,
        r == DamageResult::Damage ==> final(c).freeze == Some(500u64) && final(c).frozen_by == Some(
            killer,
        ),
        r == DamageResult::Unharmed ==> final(c).freeze == old(c).freeze && final(c).frozen_by
            == old(c).frozen_by,
        final(c).id == old(c).id,
        final(c).score == old(c).score,
        final(c).side == old(c).side,
        final(c).weapons@ == old(c).weapons@,
{
}

proof fn lemma_character_index(characters: Seq<Character>, id: u64, i: int)
    ensures
        0 <= i < characters.len() && characters[i].id == id && (forall|k: int|
            0 <= k < i ==> (#[trigger] characters[k]).id != id) ==> character_index(characters, id)
            == i,
        (forall|k: int| 0 <= k < characters.len() ==> (#[trigger] characters[k]).id != id)
            ==> character_index(characters, id) == characters.len(),
    decreases characters.len(),
{
    if characters.len() > 0 && characters[0].id != id {
        let rest = characters.drop_first();
        lemma_character_index(rest, id, i - 1);
        if 0 <= i < characters.len() && characters[i].id == id && (forall|k: int|
            0 <= k < i ==> (#[trigger] characters[k]).id != id) {
            assert(rest[i - 1] == characters[i]);
            assert forall|k: int| 0 <= k < i - 1 implies (#[trigger] rest[k]).id != id by {
                assert(rest[k] == characters[k + 1]);
            }
        }
        if forall|k: int| 0 <= k < characters.len() ==> (#[trigger] characters[k]).id != id {
            assert forall|k: int| 0 <= k < rest.len() implies (#[trigger] rest[k]).id != id by {
                assert(rest[k] == characters[k + 1]);
            }
        }
    } else if characters.len() > 0 {
        if 0 < i && (forall|k: int| 0 <= k < i ==> (#[trigger] characters[k]).id != id) {
            assert(characters[0].id != id);
        }
    }
}

/// The killer, and nobody else, gets the points of the spike: seven for a
/// golden one, three for a normal one, six for a green one, five for the
/// others. A spike of the other side costs five, and freezes the killer for
/// five seconds. The killer's side gets five points for a normal spike, else
/// ten, whatever the killer got.
pub proof fn killers_get_the_points_of_the_spike(
    characters: &mut Vec<Character>,
    scores: &mut Option<SideScores>,
    id: u64,
    killer: u64,
    spike: FngSpikeTiles,
    r: bool,
    i: int,
    other: int,
)
    requires
        call_ensures(
            mod_event,
            (
                characters,
                scores,
                &CharacterEventMod::DespawnBySpike { id, killer_id: Some(killer), spike },
            ),
            r,
        ),
        scores_fit(
            old(characters)@,
            *old(scores),
            CharacterEventMod::DespawnBySpike { id, killer_id: Some(killer), spike },
        ),
        0 <= i < old(characters)@.len(),
        old(characters)@[i].id == killer,
        forall|k: int| 0 <= k < i ==> (#[trigger] old(characters)@[k]).id != killer,
    ensures
        ({
            let c = old(characters)@[i];
            let d = final(characters)@[i];
            let wrong = (spike == FngSpikeTiles::Red && c.side == Some(MatchSide::Blue)) || (spike
                == FngSpikeTiles::Blue && c.side == Some(MatchSide::Red));
            let gain: int = if spike == FngSpikeTiles::Normal {
                5
            } else {
                10
            };
            &&& r
            &&& final(characters)@.len() == old(characters)@.len()
            &&& 0 <= other < old(characters)@.len() && other != i ==> final(characters)@[other]
                == old(characters)@[other]
            &&& wrong ==> d.score == c.score - 5 && d.freeze == Some(250u64)
            &&& !wrong ==> d.freeze == c.freeze
            &&& spike == FngSpikeTiles::Golden ==> d.score == c.score + 7
            &&& spike == FngSpikeTiles::Normal ==> d.score == c.score + 3
            &&& spike == FngSpikeTiles::Green ==> d.score == c.score + 6
            &&& spike == FngSpikeTiles::Purple ==> d.score == c.score + 5
            &&& !wrong && (spike == FngSpikeTiles::Red || spike == FngSpikeTiles::Blue) ==> d.score
                == c.score + 5
            &&& d.id == c.id && d.side == c.side && d.frozen_by == c.frozen_by && d.weapons@
                == c.weapons@
            &&& (*old(scores)) is None ==> *final(scores) == *old(scores)
            &&& *old(scores) matches Some(before) ==> {
                &&& *final(scores) matches Some(after)
                &&& after.red == before.red + if c.side == Some(MatchSide::Red) {
                    gain
                } else {
                    0
                }
                &&& after.blue == before.blue + if c.side == Some(MatchSide::Blue) {
                    gain
                } else {
                    0
                }
            }
        }),
{
    lemma_character_index(old(characters)@, killer, i);
}

/// Without a killer that is there, nobody scores.
pub proof fn nobody_scores_without_a_killer(
    characters: &mut Vec<Character>,
    scores: &mut Option<SideScores>,
    id: u64,
    killer: Option<u64>,
    spike: FngSpikeTiles,
    r: bool,
)
    requires
        call_ensures(
            mod_event,
            (
                characters,
                scores,
                &CharacterEventMod::DespawnBySpike { id, killer_id: killer, spike },
            ),
            r,
        ),
        killer matches Some(k) ==> forall|j: int|
            0 <= j < old(characters)@.len() ==> (#[trigger] old(characters)@[j]).id != k,
    ensures
        !r,
        final(characters)@ == old(characters)@,
        *final(scores) == *old(scores),
{
    if let Some(k) = killer {
        lemma_character_index(old(characters)@, k, -1);
    }
}

} // verus!
