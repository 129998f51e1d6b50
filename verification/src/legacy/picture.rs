//! What a snapshot that was built says about the world.
use crate::legacy::character::{
    camera_info, carried, character_items, character_obj, ddnet_character, followed, followed_slot,
    shown_items, spectator_item, spectator_items, stage_items, team_of,
};
use crate::legacy::objects::{
    CharacterObj, ClientInfo, DdnetCharacter, DdnetPlayer, Emote, PlayerInfo, SnapItem, SnapObj,
    SpectatorInfo, Team,
};
use crate::legacy::slots::{
    objects_valid, players_fit_up_to_limit, slots_stay_distinct, slots_valid,
};
use crate::legacy::snapshot::{
    effect_items, field_byte, field_word, field_words, first_stage, flag_item, flying_entities,
    game_items, holds_any, info_items, kept_objects, laser_entities, looks_at, object_seen,
    objects_after, placed, player_items, players_after, roster_of, spectator_of, stage_ids,
    stage_shown, string, text_field, weapon_bit, weapon_bits, Entity, ObjectSlot, SnapshotError,
    Snapshots,
};
use crate::legacy::unique::snapshot_valid;
use crate::legacy::world::{
    character_in, character_of, Camera, CarriedWeapon, Character, CharacterLook, Flag, Hook, Laser,
    MatchSide, Phase, Pickup, Projectile, SkinInfo, Snapshot, Spectator, Stage, TeeEye, WeaponType,
};
use vstd::prelude::*;
use vstd::utf8::encode_utf8;

verus! {

/// The stage has a character of this player.
pub open spec fn has_character(stage: Stage, id: u64) -> bool {
    exists|j: int|
        0 <= j < stage.characters@.len() && (#[trigger] stage.characters@[j]).id == id
}

/// The player watches the stage without a character of its own: it follows
/// somebody there.
pub open spec fn follows_into(snapshot: Snapshot, local: u64, stage: Stage) -> bool {
    exists|k: int, f: int|
        #![trigger snapshot.spectators@[k].follows@[f]]
        {
            &&& 0 <= k < snapshot.spectators@.len()
            &&& snapshot.spectators@[k].id == local
            &&& forall|m: int| 0 <= m < k ==> (#[trigger] snapshot.spectators@[m]).id != local
            &&& 0 <= f < snapshot.spectators@[k].follows@.len()
            &&& has_character(stage, snapshot.spectators@[k].follows@[f])
        }
}

/// The stage with this index is the one that the player is shown: the first
/// one in which it has a character or follows somebody. If there is none, it
/// is the first of all.
pub open spec fn is_shown(snapshot: Snapshot, local: u64, i: int) -> bool {
    let stages = snapshot.stages@;
    &&& 0 <= i < stages.len()
    &&& ({
        ||| {
            &&& has_character(stages[i], local) || follows_into(snapshot, local, stages[i])
            &&& forall|k: int|
                0 <= k < i ==> !has_character(#[trigger] stages[k], local) && !follows_into(
                    snapshot,
                    local,
                    stages[k],
                )
        }
        ||| {
            &&& i == 0
            &&& forall|k: int|
                0 <= k < stages.len() ==> !has_character(#[trigger] stages[k], local)
                    && !follows_into(snapshot, local, stages[k])
        }
    })
}

pub(crate) proof fn lemma_character_of(characters: Seq<Character>, id: u64)
    ensures
        match character_of(characters, id) {
            Some(c) => exists|j: int|
                {
                    &&& 0 <= j < characters.len()
                    &&& #[trigger] characters[j] == c
                    &&& c.id == id
                    &&& forall|k: int| 0 <= k < j ==> (#[trigger] characters[k]).id != id
                },
            None => forall|j: int| 0 <= j < characters.len() ==> (#[trigger] characters[j]).id != id,
        },
    decreases characters.len(),
{
    if characters.len() > 0 {
        if characters[0].id == id {
            assert(characters[0] == character_of(characters, id)->0);
        } else {
            let rest = characters.drop_first();
            lemma_character_of(rest, id);
            match character_of(rest, id) {
                Some(c) => {
                    let j = choose|j: int|
                        {
                            &&& 0 <= j < rest.len()
                            &&& #[trigger] rest[j] == c
                            &&& c.id == id
                            &&& forall|k: int| 0 <= k < j ==> (#[trigger] rest[k]).id != id
                        };
                    assert(characters[j + 1] == c);
                    assert forall|k: int| 0 <= k < j + 1 implies (#[trigger] characters[k]).id
                        != id by {
                        if k > 0 {
                            assert(rest[k - 1] == characters[k]);
                        }
                    }
                },
                None => {
                    assert forall|j: int| 0 <= j < characters.len() implies (
                    #[trigger] characters[j]).id != id by {
                        if j > 0 {
                            assert(rest[j - 1] == characters[j]);
                        }
                    }
                },
            }
        }
    }
}

pub(crate) proof fn lemma_has_character(stage: Stage, id: u64)
    ensures
        character_of(stage.characters@, id) is Some <==> has_character(stage, id),
{
    lemma_character_of(stage.characters@, id);
}

proof fn lemma_spectator_of(spectators: Seq<Spectator>, id: u64)
    ensures
        match spectator_of(spectators, id) {
            Some(p) => exists|k: int|
                {
                    &&& 0 <= k < spectators.len()
                    &&& #[trigger] spectators[k] == p
                    &&& p.id == id
                    &&& forall|m: int| 0 <= m < k ==> (#[trigger] spectators[m]).id != id
                },
            None => forall|k: int| 0 <= k < spectators.len() ==> (#[trigger] spectators[k]).id != id,
        },
    decreases spectators.len(),
{
    if spectators.len() > 0 {
        if spectators[0].id == id {
            assert(spectators[0] == spectator_of(spectators, id)->0);
        } else {
            let rest = spectators.drop_first();
            lemma_spectator_of(rest, id);
            match spectator_of(rest, id) {
                Some(p) => {
                    let k = choose|k: int|
                        {
                            &&& 0 <= k < rest.len()
                            &&& #[trigger] rest[k] == p
                            &&& p.id == id
                            &&& forall|m: int| 0 <= m < k ==> (#[trigger] rest[m]).id != id
                        };
                    assert(spectators[k + 1] == p);
                    assert forall|m: int| 0 <= m < k + 1 implies (#[trigger] spectators[m]).id
                        != id by {
                        if m > 0 {
                            assert(rest[m - 1] == spectators[m]);
                        }
                    }
                },
                None => {
                    assert forall|k: int| 0 <= k < spectators.len() implies (
                    #[trigger] spectators[k]).id != id by {
                        if k > 0 {
                            assert(rest[k - 1] == spectators[k]);
                        }
                    }
                },
            }
        }
    }
}

proof fn lemma_looks_at(snapshot: Snapshot, local: u64, stage: Stage)
    ensures
        looks_at(snapshot, local, stage) <==> has_character(stage, local) || follows_into(
            snapshot,
            local,
            stage,
        ),
{
    lemma_has_character(stage, local);
    let list = snapshot.spectators@;
    lemma_spectator_of(list, local);
    match spectator_of(list, local) {
        Some(p) => {
            let k = choose|k: int|
                {
                    &&& 0 <= k < list.len()
                    &&& #[trigger] list[k] == p
                    &&& p.id == local
                    &&& forall|m: int| 0 <= m < k ==> (#[trigger] list[m]).id != local
                };
            if holds_any(stage, p.follows@) {
                let f = choose|f: int|
                    0 <= f < p.follows@.len() && character_of(
                        stage.characters@,
                        #[trigger] p.follows@[f],
                    ) is Some;
                lemma_has_character(stage, p.follows@[f]);
                assert(list[k].follows@[f] == p.follows@[f]);
            }
            if follows_into(snapshot, local, stage) {
                let (k2, f) = choose|k2: int, f: int|
                    #![trigger snapshot.spectators@[k2].follows@[f]]
                    {
                        &&& 0 <= k2 < snapshot.spectators@.len()
                        &&& snapshot.spectators@[k2].id == local
                        &&& forall|m: int|
                            0 <= m < k2 ==> (#[trigger] snapshot.spectators@[m]).id != local
                        &&& 0 <= f < snapshot.spectators@[k2].follows@.len()
                        &&& has_character(stage, snapshot.spectators@[k2].follows@[f])
                    };
                assert(k2 == k) by {
                    if k2 < k {
                        assert(list[k2].id != local);
                    } else if k < k2 {
                        assert(list[k].id != local);
                    }
                }
                lemma_has_character(stage, p.follows@[f]);
                assert(holds_any(stage, p.follows@));
            }
        },
        None => {},
    }
}

proof fn lemma_first_stage(snapshot: Snapshot, local: u64, i: int)
    requires
        0 <= i,
    ensures
        match first_stage(snapshot, local, i) {
            Some(stage) => exists|k: int|
                {
                    &&& i <= k < snapshot.stages@.len()
                    &&& #[trigger] snapshot.stages@[k] == stage
                    &&& looks_at(snapshot, local, stage)
                    &&& forall|m: int|
                        i <= m < k ==> !looks_at(snapshot, local, #[trigger] snapshot.stages@[m])
                },
            None => forall|m: int|
                i <= m < snapshot.stages@.len() ==> !looks_at(
                    snapshot,
                    local,
                    #[trigger] snapshot.stages@[m],
                ),
        },
    decreases snapshot.stages@.len() - i,
{
    let stages = snapshot.stages@;
    if i < stages.len() {
        if looks_at(snapshot, local, stages[i]) {
            assert(stages[i] == first_stage(snapshot, local, i)->0);
        } else {
            lemma_first_stage(snapshot, local, i + 1);
        }
    }
}

/// The stage that a snapshot is built from is the one that is shown.
pub(crate) proof fn lemma_shown(snapshot: Snapshot, local: u64, i: int)
    requires
        is_shown(snapshot, local, i),
    ensures
        stage_shown(snapshot, local) == Some(snapshot.stages@[i]),
{
    let stages = snapshot.stages@;
    assert forall|k: int| 0 <= k < stages.len() implies looks_at(
        snapshot,
        local,
        #[trigger] stages[k],
    ) == (has_character(stages[k], local) || follows_into(snapshot, local, stages[k])) by {
        lemma_looks_at(snapshot, local, stages[k]);
    }
    lemma_first_stage(snapshot, local, 0);
    match first_stage(snapshot, local, 0) {
        Some(stage) => {
            let k = choose|k: int|
                {
                    &&& 0 <= k < stages.len()
                    &&& #[trigger] stages[k] == stage
                    &&& looks_at(snapshot, local, stage)
                    &&& forall|m: int|
                        0 <= m < k ==> !looks_at(snapshot, local, #[trigger] stages[m])
                };
            assert(looks_at(snapshot, local, stages[k]));
            if k < i {
                assert(!looks_at(snapshot, local, stages[k]));
            } else if i < k {
                assert(!looks_at(snapshot, local, stages[i]));
            }
        },
        None => {
            assert(!looks_at(snapshot, local, stages[i]));
        },
    }
}

/// Where there are stages, one of them is shown.
pub proof fn some_stage_is_shown(snapshot: Snapshot, local: u64) -> (i: int)
    requires
        snapshot.stages@.len() > 0,
    ensures
        is_shown(snapshot, local, i),
{
    let stages = snapshot.stages@;
    assert forall|k: int| 0 <= k < stages.len() implies looks_at(
        snapshot,
        local,
        #[trigger] stages[k],
    ) == (has_character(stages[k], local) || follows_into(snapshot, local, stages[k])) by {
        lemma_looks_at(snapshot, local, stages[k]);
    }
    lemma_first_stage(snapshot, local, 0);
    match first_stage(snapshot, local, 0) {
        Some(stage) => {
            let k = choose|k: int|
                {
                    &&& 0 <= k < stages.len()
                    &&& #[trigger] stages[k] == stage
                    &&& looks_at(snapshot, local, stage)
                    &&& forall|m: int|
                        0 <= m < k ==> !looks_at(snapshot, local, #[trigger] stages[m])
                };
            assert(looks_at(snapshot, local, stages[k]));
            assert forall|m: int| 0 <= m < k implies !has_character(#[trigger] stages[m], local)
                && !follows_into(snapshot, local, stages[m]) by {
                assert(!looks_at(snapshot, local, stages[m]));
            }
            k
        },
        None => {
            assert forall|m: int| 0 <= m < stages.len() implies !has_character(
                #[trigger] stages[m],
                local,
            ) && !follows_into(snapshot, local, stages[m]) by {
                assert(!looks_at(snapshot, local, stages[m]));
            }
            0
        },
    }
}

/// The items of one character.
pub(crate) open spec fn block(
    stages: Seq<Stage>,
    players: Map<u64, u16>,
    c: Character,
    local: u64,
    tick: i32,
    shown: bool,
    index: int,
) -> Seq<SnapItem> {
    info_items(players[c.id], c.look, c.id == local, team_of(c.side), c.score as int) + if shown {
        shown_items(stages, players, c, local, tick, index)
    } else {
        seq![]
    }
}

proof fn lemma_concat(a: Seq<SnapItem>, b: Seq<SnapItem>, x: SnapItem)
    ensures
        (a + b).contains(x) <==> a.contains(x) || b.contains(x),
{
    vstd::seq_lib::lemma_seq_concat_contains_all_elements(a, b, x);
}

proof fn lemma_in_characters(
    stages: Seq<Stage>,
    players: Map<u64, u16>,
    characters: Seq<Character>,
    local: u64,
    tick: i32,
    shown: bool,
    x: SnapItem,
)
    ensures
        character_items(stages, players, characters, local, tick, shown).contains(x) <==> exists|
            j: int,
        |
            0 <= j < characters.len() && block(
                stages,
                players,
                #[trigger] characters[j],
                local,
                tick,
                shown,
                j,
            ).contains(x),
    decreases characters.len(),
{
    if characters.len() > 0 {
        let head = characters.drop_last();
        let n = characters.len() - 1;
        let c = characters.last();
        lemma_in_characters(stages, players, head, local, tick, shown, x);
        let a = character_items(stages, players, head, local, tick, shown);
        let b = block(stages, players, c, local, tick, shown, n);
        let all = character_items(stages, players, characters, local, tick, shown);
        assert(all =~= a + b);
        lemma_concat(a, b, x);
        assert(characters[n] == c);
        if a.contains(x) {
            let j = choose|j: int|
                0 <= j < head.len() && block(
                    stages,
                    players,
                    #[trigger] head[j],
                    local,
                    tick,
                    shown,
                    j,
                ).contains(x);
            assert(characters[j] == head[j]);
        }
        if exists|j: int|
            0 <= j < characters.len() && block(
                stages,
                players,
                #[trigger] characters[j],
                local,
                tick,
                shown,
                j,
            ).contains(x) {
            let j = choose|j: int|
                0 <= j < characters.len() && block(
                    stages,
                    players,
                    #[trigger] characters[j],
                    local,
                    tick,
                    shown,
                    j,
                ).contains(x);
            if j < n {
                assert(head[j] == characters[j]);
            }
        }
    }
}

/// The item is one of those of a character of the first `n` stages.
pub(crate) open spec fn in_blocks(
    stages: Seq<Stage>,
    n: int,
    players: Map<u64, u16>,
    local: u64,
    tick: i32,
    shown: Option<Stage>,
    x: SnapItem,
) -> bool {
    exists|i: int, j: int|
        #![trigger stages[i].characters@[j]]
        {
            &&& 0 <= i < n
            &&& 0 <= j < stages[i].characters@.len()
            &&& block(
                stages,
                players,
                stages[i].characters@[j],
                local,
                tick,
                shown matches Some(s) && s.id == stages[i].id,
                j,
            ).contains(x)
        }
}

proof fn lemma_in_stages(
    stages: Seq<Stage>,
    n: int,
    players: Map<u64, u16>,
    local: u64,
    tick: i32,
    shown: Option<Stage>,
    x: SnapItem,
)
    requires
        0 <= n <= stages.len(),
    ensures
        stage_items(stages, n, players, local, tick, shown).contains(x) <==> in_blocks(
            stages,
            n,
            players,
            local,
            tick,
            shown,
            x,
        ),
    decreases n,
{
    if n > 0 {
        let stage = stages[n - 1];
        let visible = shown matches Some(s) && s.id == stage.id;
        lemma_in_stages(stages, n - 1, players, local, tick, shown, x);
        lemma_in_characters(stages, players, stage.characters@, local, tick, visible, x);
        let a = stage_items(stages, n - 1, players, local, tick, shown);
        let b = character_items(stages, players, stage.characters@, local, tick, visible);
        lemma_concat(a, b, x);
        if b.contains(x) {
            let j = choose|j: int|
                0 <= j < stage.characters@.len() && block(
                    stages,
                    players,
                    #[trigger] stage.characters@[j],
                    local,
                    tick,
                    visible,
                    j,
                ).contains(x);
            assert(stages[n - 1].characters@[j] == stage.characters@[j]);
            assert(in_blocks(stages, n, players, local, tick, shown, x));
        }
        if in_blocks(stages, n - 1, players, local, tick, shown, x) {
            assert(in_blocks(stages, n, players, local, tick, shown, x));
        }
        if in_blocks(stages, n, players, local, tick, shown, x) {
            let (i, j) = choose|i: int, j: int|
                #![trigger stages[i].characters@[j]]
                {
                    &&& 0 <= i < n
                    &&& 0 <= j < stages[i].characters@.len()
                    &&& block(
                        stages,
                        players,
                        stages[i].characters@[j],
                        local,
                        tick,
                        shown matches Some(s) && s.id == stages[i].id,
                        j,
                    ).contains(x)
                };
            if i < n - 1 {
                assert(in_blocks(stages, n - 1, players, local, tick, shown, x));
            } else {
                assert(stage.characters@[j] == stages[i].characters@[j]);
            }
        }
    }
}

proof fn lemma_in_spectators(
    stages: Seq<Stage>,
    players: Map<u64, u16>,
    spectators: Seq<Spectator>,
    local: u64,
    x: SnapItem,
)
    ensures
        spectator_items(stages, players, spectators, local).contains(x) <==> exists|k: int|
            0 <= k < spectators.len() && spectator_item(
                stages,
                players,
                #[trigger] spectators[k],
                local,
            ).contains(x),
    decreases spectators.len(),
{
    if spectators.len() > 0 {
        let head = spectators.drop_last();
        let n = spectators.len() - 1;
        lemma_in_spectators(stages, players, head, local, x);
        let a = spectator_items(stages, players, head, local);
        let b = spectator_item(stages, players, spectators.last(), local);
        lemma_concat(a, b, x);
        assert(spectators[n] == spectators.last());
        if a.contains(x) {
            let k = choose|k: int|
                0 <= k < head.len() && spectator_item(
                    stages,
                    players,
                    #[trigger] head[k],
                    local,
                ).contains(x);
            assert(spectators[k] == head[k]);
        }
        if exists|k: int|
            0 <= k < spectators.len() && spectator_item(
                stages,
                players,
                #[trigger] spectators[k],
                local,
            ).contains(x) {
            let k = choose|k: int|
                0 <= k < spectators.len() && spectator_item(
                    stages,
                    players,
                    #[trigger] spectators[k],
                    local,
                ).contains(x);
            if k < n {
                assert(head[k] == spectators[k]);
            }
        }
    }
}

/// The parts of a snapshot that was built.
pub(crate) proof fn lemma_parts<P: Fn(&Vec<SnapItem>) -> bool>(
    s: &mut Snapshots,
    snapshot: Snapshot,
    local: u64,
    tick: i32,
    effects: Vec<SnapObj>,
    pack: P,
    items: Vec<SnapItem>,
    x: SnapItem,
)
    requires
        call_ensures(
            Snapshots::build::<P>,
            (s, &snapshot, local, tick, &effects, pack),
            Ok::<Vec<SnapItem>, SnapshotError>(items),
        ),
    ensures
        ({
            let players = final(s).players@;
            let shown = stage_shown(snapshot, local);
            let (objects, placed) = objects_after(
                old(s).objects@,
                old(s).latest_tick,
                snapshot,
                local,
                tick,
            );
            let (after, _, fit) = players_after(
                old(s).players@,
                old(s).player_seen@,
                old(s).latest_tick,
                snapshot,
                local,
            );
            &&& fit && after == players
            &&& placed is Some
            &&& final(s).objects@ == objects
            &&& items@ == player_items(
                old(s).game_config,
                old(s).race,
                players,
                snapshot,
                local,
                tick,
            ) + placed->0 + effect_items(effects@)
            &&& items@.contains(x) <==> {
                ||| game_items(old(s).game_config, old(s).race, players, shown, tick).contains(x)
                ||| in_blocks(
                    snapshot.stages@,
                    snapshot.stages@.len() as int,
                    players,
                    local,
                    tick,
                    shown,
                    x,
                )
                ||| exists|k: int|
                    0 <= k < snapshot.spectators@.len() && spectator_item(
                        snapshot.stages@,
                        players,
                        #[trigger] snapshot.spectators@[k],
                        local,
                    ).contains(x)
                ||| placed->0.contains(x)
                ||| effect_items(effects@).contains(x)
            }
        }),
{
    let players = final(s).players@;
    let shown = stage_shown(snapshot, local);
    let stages = snapshot.stages@;
    let placed = objects_after(old(s).objects@, old(s).latest_tick, snapshot, local, tick).1->0;
    let a = game_items(old(s).game_config, old(s).race, players, shown, tick);
    let b = stage_items(stages, stages.len() as int, players, local, tick, shown);
    let c = spectator_items(stages, players, snapshot.spectators@, local);
    lemma_concat(a, b, x);
    lemma_concat(a + b, c, x);
    lemma_concat(a + b + c, placed, x);
    lemma_concat(a + b + c + placed, effect_items(effects@), x);
    lemma_in_stages(stages, stages.len() as int, players, local, tick, shown, x);
    lemma_in_spectators(stages, players, snapshot.spectators@, local, x);
}

/// The number of characters in the first `i` stages.
spec fn count_before(stages: Seq<Stage>, i: int) -> int
    decreases i,
{
    if i <= 0 {
        0
    } else {
        count_before(stages, i - 1) + stages[i - 1].characters@.len()
    }
}

proof fn lemma_count_before(stages: Seq<Stage>, i: int, k: int)
    requires
        0 <= i <= k,
    ensures
        0 <= count_before(stages, i) <= count_before(stages, k),
    decreases k,
{
    if i < k {
        lemma_count_before(stages, i, k - 1);
    } else if i > 0 {
        lemma_count_before(stages, i - 1, i - 1);
    }
}

proof fn lemma_same_counts(a: Seq<Stage>, b: Seq<Stage>, i: int)
    requires
        forall|k: int| 0 <= k < i ==> a[k] == b[k],
    ensures
        count_before(a, i) == count_before(b, i),
    decreases i,
{
    if i > 0 {
        lemma_same_counts(a, b, i - 1);
        assert(a[i - 1] == b[i - 1]);
    }
}

proof fn lemma_stage_id_at(stages: Seq<Stage>, i: int, j: int)
    requires
        0 <= i < stages.len(),
        0 <= j < stages[i].characters@.len(),
    ensures
        stage_ids(stages).len() == count_before(stages, stages.len() as int),
        0 <= count_before(stages, i) + j < stage_ids(stages).len(),
        stage_ids(stages)[count_before(stages, i) + j] == stages[i].characters@[j].id,
    decreases stages.len(),
{
    lemma_stage_count(stages);
    lemma_count_before(stages, i, i);
    lemma_count_before(stages, i + 1, stages.len() as int);
    let head = stages.drop_last();
    let n = stages.len() - 1;
    lemma_same_counts(head, stages, n);
    lemma_same_counts(head, stages, i);
    lemma_stage_count(head);
    if i < n {
        assert(head[i] == stages[i]);
        lemma_stage_id_at(head, i, j);
    }
}

proof fn lemma_stage_count(stages: Seq<Stage>)
    ensures
        stage_ids(stages).len() == count_before(stages, stages.len() as int),
    decreases stages.len(),
{
    if stages.len() > 0 {
        let head = stages.drop_last();
        lemma_stage_count(head);
        lemma_same_counts(head, stages, head.len() as int);
        assert(stages.last() == stages[stages.len() - 1]);
    }
}

/// A player is in a snapshot once: as one character or as one spectator.
proof fn lemma_once(snapshot: Snapshot, i: int, j: int)
    requires
        roster_of(snapshot).no_duplicates(),
        0 <= i < snapshot.stages@.len(),
        0 <= j < snapshot.stages@[i].characters@.len(),
    ensures
        forall|i2: int, j2: int|
            #![trigger snapshot.stages@[i2].characters@[j2]]
            0 <= i2 < snapshot.stages@.len() && 0 <= j2 < snapshot.stages@[i2].characters@.len()
                && snapshot.stages@[i2].characters@[j2].id
                == snapshot.stages@[i].characters@[j].id ==> i2 == i && j2 == j,
        forall|k: int|
            0 <= k < snapshot.spectators@.len() ==> (#[trigger] snapshot.spectators@[k]).id
                != snapshot.stages@[i].characters@[j].id,
{
    let stages = snapshot.stages@;
    let ids = roster_of(snapshot);
    let head = stage_ids(stages);
    lemma_stage_id_at(stages, i, j);
    let at = count_before(stages, i) + j;
    assert(ids[at] == head[at]);
    assert forall|i2: int, j2: int|
        #![trigger stages[i2].characters@[j2]]
        0 <= i2 < stages.len() && 0 <= j2 < stages[i2].characters@.len()
            && stages[i2].characters@[j2].id == stages[i].characters@[j].id implies i2 == i && j2
        == j by {
        lemma_stage_id_at(stages, i2, j2);
        let at2 = count_before(stages, i2) + j2;
        assert(ids[at2] == head[at2]);
        assert(at == at2);
        if i2 < i {
            lemma_count_before(stages, i2 + 1, i);
        } else if i < i2 {
            lemma_count_before(stages, i + 1, i2);
        }
    }
    assert forall|k: int| 0 <= k < snapshot.spectators@.len() implies (
    #[trigger] snapshot.spectators@[k]).id != stages[i].characters@[j].id by {
        assert(ids[head.len() + k] == snapshot.spectators@[k].id);
    }
}

proof fn lemma_spectator_once(snapshot: Snapshot, k: int)
    requires
        roster_of(snapshot).no_duplicates(),
        0 <= k < snapshot.spectators@.len(),
    ensures
        forall|m: int|
            0 <= m < snapshot.spectators@.len() && (#[trigger] snapshot.spectators@[m]).id
                == snapshot.spectators@[k].id ==> m == k,
{
    let head = stage_ids(snapshot.stages@);
    let ids = roster_of(snapshot);
    assert(ids[head.len() + k] == snapshot.spectators@[k].id);
    assert forall|m: int|
        0 <= m < snapshot.spectators@.len() && (#[trigger] snapshot.spectators@[m]).id
            == snapshot.spectators@[k].id implies m == k by {
        assert(ids[head.len() + m] == snapshot.spectators@[m].id);
    }
}

/// The players of a snapshot are in its roster.
pub(crate) proof fn lemma_in_roster(snapshot: Snapshot)
    ensures
        forall|i: int, j: int|
            #![trigger snapshot.stages@[i].characters@[j]]
            0 <= i < snapshot.stages@.len() && 0 <= j < snapshot.stages@[i].characters@.len()
                ==> roster_of(snapshot).contains(snapshot.stages@[i].characters@[j].id),
        forall|k: int|
            0 <= k < snapshot.spectators@.len() ==> roster_of(snapshot).contains(
                (#[trigger] snapshot.spectators@[k]).id,
            ),
{
    let ids = roster_of(snapshot);
    let head = stage_ids(snapshot.stages@);
    assert forall|i: int, j: int|
        #![trigger snapshot.stages@[i].characters@[j]]
        0 <= i < snapshot.stages@.len() && 0 <= j < snapshot.stages@[i].characters@.len()
        implies ids.contains(snapshot.stages@[i].characters@[j].id) by {
        lemma_stage_id_at(snapshot.stages@, i, j);
        let at = count_before(snapshot.stages@, i) + j;
        assert(ids[at] == head[at]);
    }
    assert forall|k: int| 0 <= k < snapshot.spectators@.len() implies ids.contains(
        (#[trigger] snapshot.spectators@[k]).id,
    ) by {
        assert(ids[head.len() + k] == snapshot.spectators@[k].id);
    }
}

/// The object says something about a player.
pub open spec fn about_player(obj: SnapObj) -> bool {
    obj is ClientInfo || obj is PlayerInfo || obj is DdnetPlayer || obj is SpectatorInfo
        || obj is DdnetCharacter || obj is Character
}

/// The object shows an entity or a flag.
pub open spec fn is_entity(obj: SnapObj) -> bool {
    obj is Projectile || obj is Pickup || obj is Laser || obj is Flag
}

/// The object shows an event.
pub open spec fn is_event(obj: SnapObj) -> bool {
    obj is SoundWorld || obj is Explosion || obj is Spawn || obj is Death || obj is HammerHit
        || obj is DamageInd
}

/// What holds before a snapshot is built for a client, and of the snapshot:
/// players and entities have ids of their own, the snapshot holds nobody and
/// nothing twice, and only events wait.
pub open spec fn can_build(s: Snapshots, snapshot: Snapshot, effects: Seq<SnapObj>) -> bool {
    &&& slots_valid(s.players@)
    &&& objects_valid(s.objects@)
    &&& snapshot_valid(snapshot)
    &&& effects.len() <= 0x1_0000
    &&& forall|i: int| 0 <= i < effects.len() ==> is_event(#[trigger] effects[i])
}

proof fn lemma_placed_objects(objects: Seq<ObjectSlot>, seen: u64, todo: Seq<Entity>)
    ensures
        placed(objects, seen, todo).1 matches Some(items) ==> {
            &&& items.len() == todo.len()
            &&& forall|k: int| 0 <= k < todo.len() ==> (#[trigger] items[k]).obj == todo[k].obj
        },
    decreases todo.len(),
{
    if todo.len() > 0 {
        if let Some((next, id)) = object_seen(objects, seen, todo[0].kind, todo[0].id) {
            let rest = todo.drop_first();
            lemma_placed_objects(next, seen, rest);
            if let Some(items) = placed(objects, seen, todo).1 {
                let more = placed(next, seen, rest).1->0;
                assert forall|k: int| 0 <= k < todo.len() implies (#[trigger] items[k]).obj
                    == todo[k].obj by {
                    if k > 0 {
                        assert(items[k] == more[k - 1]);
                        assert(rest[k - 1] == todo[k]);
                    }
                }
            }
        }
    }
}

pub(crate) proof fn lemma_entities_are_entities(
    objects: Seq<ObjectSlot>,
    seen: u64,
    snapshot: Snapshot,
    local: u64,
    tick: i32,
    x: SnapItem,
)
    requires
        objects_after(objects, seen, snapshot, local, tick).1 is Some,
        objects_after(objects, seen, snapshot, local, tick).1->0.contains(x),
    ensures
        is_entity(x.obj),
{
    let items = objects_after(objects, seen, snapshot, local, tick).1->0;
    let at = choose|at: int| 0 <= at < items.len() && items[at] == x;
    if let Some(stage) = stage_shown(snapshot, local) {
        let kept = kept_objects(objects, seen);
        let flying = flying_entities(stage, tick);
        let lasers = laser_entities(stage, tick);
        lemma_placed_objects(kept, seen, flying);
        let (next, first) = placed(kept, seen, flying);
        lemma_placed_objects(next, seen, lasers);
        let a = first->0;
        let b = flag_item(stage.red_flags@, 0) + flag_item(stage.blue_flags@, 1);
        let c = placed(next, seen, lasers).1->0;
        assert(items =~= a + b + c);
        if at < a.len() {
            assert(items[at] == a[at]);
            assert(is_entity(flying[at].obj));
        } else if at < a.len() + b.len() {
            assert(items[at] == b[at - a.len()]);
        } else {
            let k = at - a.len() - b.len();
            assert(items[at] == c[k]);
            assert(is_entity(lasers[k].obj));
        }
    }
}

/// The players after a build: each has a slot of its own.
pub(crate) proof fn lemma_players<P: Fn(&Vec<SnapItem>) -> bool>(
    s: &mut Snapshots,
    snapshot: Snapshot,
    local: u64,
    tick: i32,
    effects: Vec<SnapObj>,
    pack: P,
    items: Vec<SnapItem>,
)
    requires
        call_ensures(
            Snapshots::build::<P>,
            (s, &snapshot, local, tick, &effects, pack),
            Ok::<Vec<SnapItem>, SnapshotError>(items),
        ),
        slots_valid(old(s).players@),
    ensures
        slots_valid(final(s).players@),
        forall|id: u64| #[trigger]
            roster_of(snapshot).contains(id) ==> final(s).players@.contains_key(id),
{
    let x = arbitrary();
    lemma_parts(s, snapshot, local, tick, effects, pack, items, x);
    let players = old(s).players@;
    let seen = old(s).player_seen@;
    slots_stay_distinct(players, seen, old(s).latest_tick, snapshot, local);
    players_fit_up_to_limit(players, seen, old(s).latest_tick, snapshot, local);
    assert forall|id: u64| #[trigger] roster_of(snapshot).contains(id) implies
        final(s).players@.contains_key(id) by {
        assert(roster_of(snapshot).to_set().contains(id));
        assert(final(s).players@.dom().contains(id));
    }
}

pub(crate) proof fn lemma_block(
    stages: Seq<Stage>,
    players: Map<u64, u16>,
    c: Character,
    local: u64,
    tick: i32,
    shown: bool,
    index: int,
    x: SnapItem,
)
    requires
        block(stages, players, c, local, tick, shown, index).contains(x),
    ensures
        x.id == players[c.id],
        about_player(x.obj),
{
    let all = block(stages, players, c, local, tick, shown, index);
    let k = choose|k: int| 0 <= k < all.len() && all[k] == x;
    assert(all[k].id == players[c.id] && about_player(all[k].obj));
}

pub(crate) proof fn lemma_spectator_block(
    stages: Seq<Stage>,
    players: Map<u64, u16>,
    p: Spectator,
    local: u64,
    x: SnapItem,
)
    requires
        spectator_item(stages, players, p, local).contains(x),
    ensures
        x.id == players[p.id],
        about_player(x.obj),
{
    let all = spectator_item(stages, players, p, local);
    let k = choose|k: int| 0 <= k < all.len() && all[k] == x;
    assert(all[k].id == players[p.id] && about_player(all[k].obj));
}

/// What a snapshot says about a player with a character are the items of
/// that character.
proof fn lemma_character_items<P: Fn(&Vec<SnapItem>) -> bool>(
    s: &mut Snapshots,
    snapshot: Snapshot,
    local: u64,
    tick: i32,
    effects: Vec<SnapObj>,
    pack: P,
    items: Vec<SnapItem>,
    i: int,
    j: int,
    x: SnapItem,
)
    requires
        call_ensures(
            Snapshots::build::<P>,
            (s, &snapshot, local, tick, &effects, pack),
            Ok::<Vec<SnapItem>, SnapshotError>(items),
        ),
        can_build(*old(s), snapshot, effects@),
        0 <= i < snapshot.stages@.len(),
        0 <= j < snapshot.stages@[i].characters@.len(),
    ensures
        ({
            let players = final(s).players@;
            let c = snapshot.stages@[i].characters@[j];
            let shown = stage_shown(snapshot, local);
            &&& players.contains_key(c.id)
            &&& items@.contains(x) && about_player(x.obj) && x.id == players[c.id] <==> block(
                snapshot.stages@,
                players,
                c,
                local,
                tick,
                shown matches Some(s) && s.id == snapshot.stages@[i].id,
                j,
            ).contains(x)
        }),
{
    let players = final(s).players@;
    let stages = snapshot.stages@;
    let c = stages[i].characters@[j];
    let shown = stage_shown(snapshot, local);
    let visible = shown matches Some(s) && s.id == stages[i].id;
    lemma_parts(s, snapshot, local, tick, effects, pack, items, x);
    lemma_players(s, snapshot, local, tick, effects, pack, items);
    lemma_in_roster(snapshot);
    lemma_once(snapshot, i, j);
    assert(roster_of(snapshot).contains(c.id));
    let mine = block(stages, players, c, local, tick, visible, j);
    if mine.contains(x) {
        lemma_block(stages, players, c, local, tick, visible, j, x);
        assert(in_blocks(stages, stages.len() as int, players, local, tick, shown, x));
    }
    if items@.contains(x) && about_player(x.obj) && x.id == players[c.id] {
        if in_blocks(stages, stages.len() as int, players, local, tick, shown, x) {
            let (i2, j2) = choose|i2: int, j2: int|
                #![trigger stages[i2].characters@[j2]]
                {
                    &&& 0 <= i2 < stages.len()
                    &&& 0 <= j2 < stages[i2].characters@.len()
                    &&& block(
                        stages,
                        players,
                        stages[i2].characters@[j2],
                        local,
                        tick,
                        shown matches Some(s) && s.id == stages[i2].id,
                        j2,
                    ).contains(x)
                };
            let c2 = stages[i2].characters@[j2];
            lemma_block(
                stages,
                players,
                c2,
                local,
                tick,
                shown matches Some(s) && s.id == stages[i2].id,
                j2,
                x,
            );
            assert(roster_of(snapshot).contains(c2.id));
            assert(c2.id == c.id);
        } else {
            lemma_not_others(s, snapshot, local, tick, effects, x);
            let k = choose|k: int|
                0 <= k < snapshot.spectators@.len() && spectator_item(
                    stages,
                    players,
                    #[trigger] snapshot.spectators@[k],
                    local,
                ).contains(x);
            let p = snapshot.spectators@[k];
            lemma_spectator_block(stages, players, p, local, x);
            assert(roster_of(snapshot).contains(p.id));
            assert(p.id == c.id);
        }
    }
}

/// Objects about players are neither those of the game, nor entities, nor
/// events.
pub(crate) proof fn lemma_not_others(
    s: &mut Snapshots,
    snapshot: Snapshot,
    local: u64,
    tick: i32,
    effects: Vec<SnapObj>,
    x: SnapItem,
)
    requires
        about_player(x.obj),
        forall|i: int| 0 <= i < effects@.len() ==> is_event(#[trigger] effects@[i]),
        objects_after(old(s).objects@, old(s).latest_tick, snapshot, local, tick).1 is Some,
    ensures
        !game_items(
            old(s).game_config,
            old(s).race,
            final(s).players@,
            stage_shown(snapshot, local),
            tick,
        ).contains(x),
        !objects_after(old(s).objects@, old(s).latest_tick, snapshot, local, tick).1->0.contains(x),
        !effect_items(effects@).contains(x),
{
    if objects_after(old(s).objects@, old(s).latest_tick, snapshot, local, tick).1->0.contains(x) {
        lemma_entities_are_entities(
            old(s).objects@,
            old(s).latest_tick,
            snapshot,
            local,
            tick,
            x,
        );
    }
    if effect_items(effects@).contains(x) {
        let k = choose|k: int|
            0 <= k < effect_items(effects@).len() && effect_items(effects@)[k] == x;
        assert(is_event(effects@[k]));
    }
}

/// What a snapshot says about a player without a character are the items of
/// that spectator.
proof fn lemma_spectator_items<P: Fn(&Vec<SnapItem>) -> bool>(
    s: &mut Snapshots,
    snapshot: Snapshot,
    local: u64,
    tick: i32,
    effects: Vec<SnapObj>,
    pack: P,
    items: Vec<SnapItem>,
    k: int,
    x: SnapItem,
)
    requires
        call_ensures(
            Snapshots::build::<P>,
            (s, &snapshot, local, tick, &effects, pack),
            Ok::<Vec<SnapItem>, SnapshotError>(items),
        ),
        can_build(*old(s), snapshot, effects@),
        0 <= k < snapshot.spectators@.len(),
    ensures
        ({
            let players = final(s).players@;
            let p = snapshot.spectators@[k];
            &&& players.contains_key(p.id)
            &&& items@.contains(x) && about_player(x.obj) && x.id == players[p.id]
                <==> spectator_item(snapshot.stages@, players, p, local).contains(x)
        }),
{
    let players = final(s).players@;
    let stages = snapshot.stages@;
    let p = snapshot.spectators@[k];
    let shown = stage_shown(snapshot, local);
    lemma_parts(s, snapshot, local, tick, effects, pack, items, x);
    lemma_players(s, snapshot, local, tick, effects, pack, items);
    lemma_in_roster(snapshot);
    lemma_spectator_once(snapshot, k);
    assert(roster_of(snapshot).contains(p.id));
    if spectator_item(stages, players, p, local).contains(x) {
        lemma_spectator_block(stages, players, p, local, x);
    }
    if items@.contains(x) && about_player(x.obj) && x.id == players[p.id] {
        lemma_not_others(s, snapshot, local, tick, effects, x);
        if in_blocks(stages, stages.len() as int, players, local, tick, shown, x) {
            let (i2, j2) = choose|i2: int, j2: int|
                #![trigger stages[i2].characters@[j2]]
                {
                    &&& 0 <= i2 < stages.len()
                    &&& 0 <= j2 < stages[i2].characters@.len()
                    &&& block(
                        stages,
                        players,
                        stages[i2].characters@[j2],
                        local,
                        tick,
                        shown matches Some(s) && s.id == stages[i2].id,
                        j2,
                    ).contains(x)
                };
            let c2 = stages[i2].characters@[j2];
            lemma_block(
                stages,
                players,
                c2,
                local,
                tick,
                shown matches Some(s) && s.id == stages[i2].id,
                j2,
                x,
            );
            lemma_once(snapshot, i2, j2);
            assert(roster_of(snapshot).contains(c2.id));
            assert(c2.id == p.id);
        } else {
            let k2 = choose|k2: int|
                0 <= k2 < snapshot.spectators@.len() && spectator_item(
                    stages,
                    players,
                    #[trigger] snapshot.spectators@[k2],
                    local,
                ).contains(x);
            let p2 = snapshot.spectators@[k2];
            lemma_spectator_block(stages, players, p2, local, x);
            assert(roster_of(snapshot).contains(p2.id));
            assert(p2.id == p.id);
        }
    }
}

/// `r` is the tick `age` ticks before `tick`, as far as numbers reach.
pub open spec fn is_ago(r: i32, tick: i32, age: u64) -> bool {
    let back: int = if age <= i32::MAX {
        age as int
    } else {
        i32::MAX as int
    };
    &&& tick - back >= i32::MIN ==> r == tick - back
    &&& tick - back < i32::MIN ==> r == i32::MIN
}

/// `r` is `n`, limited to the range of 32 bits.
pub open spec fn is_limited(r: i32, n: int) -> bool {
    &&& i32::MIN <= n <= i32::MAX ==> r == n
    &&& n < i32::MIN ==> r == i32::MIN
    &&& n > i32::MAX ==> r == i32::MAX
}

/// The slot of a player, or -1 if there is no player or it has none.
pub open spec fn is_slot(r: i32, players: Map<u64, u16>, id: Option<u64>) -> bool {
    match id {
        Some(id) => {
            &&& players.contains_key(id) ==> r == players[id]
            &&& !players.contains_key(id) ==> r == -1
        },
        None => r == -1,
    }
}

/// The number of a weapon. The puller counts as a shotgun.
pub open spec fn is_weapon(r: i32, w: WeaponType) -> bool {
    &&& 0 <= r <= 4
    &&& r == 0 <==> w == WeaponType::Hammer
    &&& r == 1 <==> w == WeaponType::Gun
    &&& r == 2 <==> w == WeaponType::Shotgun || w == WeaponType::Puller
    &&& r == 3 <==> w == WeaponType::Grenade
    &&& r == 4 <==> w == WeaponType::Laser
}

/// `r` is `n`, at most ten.
pub open spec fn is_up_to_ten(r: i32, n: u32) -> bool {
    &&& n <= 10 ==> r == n
    &&& n > 10 ==> r == 10
}

/// Every character of the stage that is shown has a character item exactly
/// while it is alive in the game. An active hook is drawn where it is, with
/// its own direction, tick and state. Only an idle hook, or one that waits
/// for release, is at the character.
pub proof fn hooks_are_drawn_where_they_are<P: Fn(&Vec<SnapItem>) -> bool>(
    s: &mut Snapshots,
    snapshot: Snapshot,
    local: u64,
    tick: i32,
    effects: Vec<SnapObj>,
    pack: P,
    items: Vec<SnapItem>,
    shown: int,
    i: int,
    j: int,
)
    requires
        call_ensures(
            Snapshots::build::<P>,
            (s, &snapshot, local, tick, &effects, pack),
            Ok::<Vec<SnapItem>, SnapshotError>(items),
        ),
        can_build(*old(s), snapshot, effects@),
        is_shown(snapshot, local, shown),
        0 <= i < snapshot.stages@.len(),
        snapshot.stages@[i].id == snapshot.stages@[shown].id,
        0 <= j < snapshot.stages@[i].characters@.len(),
    ensures
        ({
            let players = final(s).players@;
            let c = snapshot.stages@[i].characters@[j];
            &&& players.contains_key(c.id)
            &&& c.phase is Normal ==> exists|o: CharacterObj|
                items@.contains(#[trigger] player_item(players[c.id], SnapObj::Character(o)))
            &&& forall|o: CharacterObj|
                items@.contains(#[trigger] player_item(players[c.id], SnapObj::Character(o))) ==> {
                    let core = o.character_core;
                    &&& c.phase matches Phase::Normal { hook, hooked, spectate }
                    &&& hook matches Hook::Active { x, y, dir_x, dir_y, tick: since, state } ==> {
                        &&& core.hook_x == x && core.hook_y == y
                        &&& core.hook_dx == dir_x && core.hook_dy == dir_y
                        &&& core.hook_tick == since
                        &&& core.hook_state == state + 1
                    }
                    &&& !(hook is Active) ==> {
                        &&& core.hook_x == c.pos.x.cut && core.hook_y == c.pos.y.cut
                        &&& core.hook_dx == 0 && core.hook_dy == 0 && core.hook_tick == 0
                    }
                    &&& hook is Idle ==> core.hook_state == 0
                    &&& hook is WaitsForRelease ==> core.hook_state == -1
                    &&& is_slot(core.hooked_player, players, hooked)
                }
        }),
{
    let players = final(s).players@;
    let c = snapshot.stages@[i].characters@[j];
    lemma_shown(snapshot, local, shown);
    let all = block(snapshot.stages@, players, c, local, tick, true, j);
    if let Phase::Normal { hook, hooked, spectate } = c.phase {
        let o = character_obj(players, c, c.id == local, tick, hook, hooked);
        let x = player_item(players[c.id], SnapObj::Character(o));
        assert(all.last() == x);
        assert(all.contains(x));
        lemma_character_items(s, snapshot, local, tick, effects, pack, items, i, j, x);
    }
    assert forall|o: CharacterObj|
        items@.contains(#[trigger] player_item(players[c.id], SnapObj::Character(o))) implies {
        &&& c.phase matches Phase::Normal { hook, hooked, spectate }
        &&& o == character_obj(players, c, c.id == local, tick, hook, hooked)
    } by {
        let x = player_item(players[c.id], SnapObj::Character(o));
        lemma_character_items(s, snapshot, local, tick, effects, pack, items, i, j, x);
        let k = choose|k: int| 0 <= k < all.len() && all[k] == x;
        assert(all[k].obj is Character);
    }
    let x = arbitrary();
    lemma_character_items(s, snapshot, local, tick, effects, pack, items, i, j, x);
}

/// An item with the slot of a player.
pub open spec fn player_item(id: u16, obj: SnapObj) -> SnapItem {
    SnapItem { id, obj }
}

/// A character is drawn where it is, as it moves, looks and aims, with the
/// weapon that it holds and when it last attacked. Its health, armor and
/// ammunition, up to ten each, are shown to the player itself only.
pub proof fn characters_are_drawn_as_they_are<P: Fn(&Vec<SnapItem>) -> bool>(
    s: &mut Snapshots,
    snapshot: Snapshot,
    local: u64,
    tick: i32,
    effects: Vec<SnapObj>,
    pack: P,
    items: Vec<SnapItem>,
    shown: int,
    i: int,
    j: int,
    o: CharacterObj,
)
    requires
        call_ensures(
            Snapshots::build::<P>,
            (s, &snapshot, local, tick, &effects, pack),
            Ok::<Vec<SnapItem>, SnapshotError>(items),
        ),
        can_build(*old(s), snapshot, effects@),
        is_shown(snapshot, local, shown),
        0 <= i < snapshot.stages@.len(),
        snapshot.stages@[i].id == snapshot.stages@[shown].id,
        0 <= j < snapshot.stages@[i].characters@.len(),
        items@.contains(
            player_item(
                final(s).players@[snapshot.stages@[i].characters@[j].id],
                SnapObj::Character(o),
            ),
        ),
    ensures
        ({
            let c = snapshot.stages@[i].characters@[j];
            let core = o.character_core;
            &&& core.tick == tick
            &&& core.x == c.pos.x.rounded && core.y == c.pos.y.rounded
            &&& core.vel_x == c.motion.vel_x && core.vel_y == c.motion.vel_y
            &&& core.angle == c.motion.angle
            &&& core.direction == c.motion.direction
            &&& core.jumped == c.jumps.flag
            &&& o.player_flags == 0
            &&& c.id == local ==> is_up_to_ten(o.health, c.health) && is_up_to_ten(
                o.armor,
                c.armor,
            )
            &&& c.id != local ==> o.health == 0 && o.armor == 0 && o.ammo_count == 0
            &&& c.ninja ==> o.weapon == 5
            &&& !c.ninja ==> is_weapon(o.weapon, c.active_weapon)
            &&& o.emote == Emote::Pain <==> c.eye == TeeEye::Pain
            &&& o.emote == Emote::Happy <==> c.eye == TeeEye::Happy
            &&& o.emote == Emote::Surprise <==> c.eye == TeeEye::Surprised
            &&& o.emote == Emote::Angry <==> c.eye == TeeEye::Angry
            &&& o.emote == Emote::Blink <==> c.eye == TeeEye::Blink
            &&& o.emote == Emote::Normal <==> c.eye == TeeEye::Normal || c.eye == TeeEye::Other
            &&& c.attack_age matches Some(age) ==> is_ago(o.attack_tick, tick, age)
            &&& c.attack_age is None ==> o.attack_tick == 0
        }),
{
    let players = final(s).players@;
    let c = snapshot.stages@[i].characters@[j];
    lemma_shown(snapshot, local, shown);
    let all = block(snapshot.stages@, players, c, local, tick, true, j);
    let x = player_item(players[c.id], SnapObj::Character(o));
    lemma_character_items(s, snapshot, local, tick, effects, pack, items, i, j, x);
    let k = choose|k: int| 0 <= k < all.len() && all[k] == x;
    assert(all[k].obj is Character);
}

/// The ammunition of the player itself is that of the weapon that it holds,
/// up to ten. Ammunition without limit shows as ten.
pub proof fn own_ammunition_is_that_of_the_held_weapon<P: Fn(&Vec<SnapItem>) -> bool>(
    s: &mut Snapshots,
    snapshot: Snapshot,
    local: u64,
    tick: i32,
    effects: Vec<SnapObj>,
    pack: P,
    items: Vec<SnapItem>,
    shown: int,
    i: int,
    j: int,
    o: CharacterObj,
    w: int,
)
    requires
        call_ensures(
            Snapshots::build::<P>,
            (s, &snapshot, local, tick, &effects, pack),
            Ok::<Vec<SnapItem>, SnapshotError>(items),
        ),
        can_build(*old(s), snapshot, effects@),
        is_shown(snapshot, local, shown),
        0 <= i < snapshot.stages@.len(),
        snapshot.stages@[i].id == snapshot.stages@[shown].id,
        0 <= j < snapshot.stages@[i].characters@.len(),
        snapshot.stages@[i].characters@[j].id == local,
        items@.contains(
            player_item(
                final(s).players@[snapshot.stages@[i].characters@[j].id],
                SnapObj::Character(o),
            ),
        ),
    ensures
        ({
            let c = snapshot.stages@[i].characters@[j];
            &&& 0 <= w < c.weapons@.len() && c.weapons@[w].weapon == c.active_weapon && (forall|
                m: int,
            |
                0 <= m < w ==> (#[trigger] c.weapons@[m]).weapon != c.active_weapon) ==> {
                &&& c.weapons@[w].ammo matches Some(ammo) ==> is_up_to_ten(o.ammo_count, ammo)
                &&& c.weapons@[w].ammo is None ==> o.ammo_count == 10
            }
            &&& (forall|m: int|
                0 <= m < c.weapons@.len() ==> (#[trigger] c.weapons@[m]).weapon
                    != c.active_weapon) ==> o.ammo_count == 10
        }),
{
    let players = final(s).players@;
    let c = snapshot.stages@[i].characters@[j];
    lemma_shown(snapshot, local, shown);
    let all = block(snapshot.stages@, players, c, local, tick, true, j);
    let x = player_item(players[c.id], SnapObj::Character(o));
    lemma_character_items(s, snapshot, local, tick, effects, pack, items, i, j, x);
    let k = choose|k: int| 0 <= k < all.len() && all[k] == x;
    assert(all[k].obj is Character);
    lemma_carried(c.weapons@, c.active_weapon, w);
}

proof fn lemma_carried(weapons: Seq<CarriedWeapon>, ty: WeaponType, w: int)
    ensures
        0 <= w < weapons.len() && weapons[w].weapon == ty && (forall|m: int|
            0 <= m < w ==> (#[trigger] weapons[m]).weapon != ty) ==> carried(weapons, ty) == Some(
            weapons[w],
        ),
        (forall|m: int| 0 <= m < weapons.len() ==> (#[trigger] weapons[m]).weapon != ty) ==> carried(
            weapons,
            ty,
        ) is None,
    decreases weapons.len(),
{
    if weapons.len() > 0 && weapons[0].weapon != ty {
        let rest = weapons.drop_first();
        lemma_carried(rest, ty, w - 1);
        if 0 <= w < weapons.len() && weapons[w].weapon == ty && (forall|m: int|
            0 <= m < w ==> (#[trigger] weapons[m]).weapon != ty) {
            assert(rest[w - 1] == weapons[w]);
            assert forall|m: int| 0 <= m < w - 1 implies (#[trigger] rest[m]).weapon != ty by {
                assert(rest[m] == weapons[m + 1]);
            }
        }
        if forall|m: int| 0 <= m < weapons.len() ==> (#[trigger] weapons[m]).weapon != ty {
            assert forall|m: int| 0 <= m < rest.len() implies (#[trigger] rest[m]).weapon
                != ty by {
                assert(rest[m] == weapons[m + 1]);
            }
        }
    } else if weapons.len() > 0 && 0 < w < weapons.len() {
        assert(weapons[0].weapon == ty);
    }
}

/// The words hold the first bytes of a text, big-endian, each shifted by 128.
/// What is left of the last byte on is zero before the shift.
pub open spec fn is_field(words: Seq<i32>, text: Seq<char>) -> bool {
    let size = 4 * words.len();
    let bytes = encode_utf8(text);
    forall|q: int|
        0 <= q < words.len() ==> (if (#[trigger] words[q]) < 0 {
            words[q] + 0x1_0000_0000
        } else {
            words[q] as int
        }) == shifted(bytes, size as int, 4 * q) * 0x100_0000 + shifted(
            bytes,
            size as int,
            4 * q + 1,
        ) * 0x1_0000 + shifted(bytes, size as int, 4 * q + 2) * 0x100 + shifted(
            bytes,
            size as int,
            4 * q + 3,
        )
}

/// A byte below 128 becomes one from 128 on, and the other way round.
pub open spec fn shifted(bytes: Seq<u8>, size: int, k: int) -> int {
    if k >= bytes.len() || k == size - 1 {
        128
    } else if bytes[k] < 128 {
        bytes[k] + 128
    } else {
        bytes[k] - 128
    }
}

/// Any text is packed as [`is_field`] says.
pub proof fn texts_are_packed<const N: usize>(text: &str, r: [i32; N])
    requires
        call_ensures(string::<N>, (text,), r),
        0 < N <= 0x1000_0000,
    ensures
        is_field(r@, text@),
{
    lemma_field_words(text@, N as nat);
}

proof fn lemma_field_words(text: Seq<char>, n: nat)
    ensures
        is_field(field_words(encode_utf8(text), n), text),
{
    let bytes = encode_utf8(text);
    let words = field_words(bytes, n);
    let size = 4 * n as int;
    assert forall|q: int| 0 <= q < words.len() implies (if (#[trigger] words[q]) < 0 {
        words[q] + 0x1_0000_0000
    } else {
        words[q] as int
    }) == shifted(bytes, size as int, 4 * q) * 0x100_0000 + shifted(bytes, size as int, 4 * q + 1)
        * 0x1_0000 + shifted(bytes, size as int, 4 * q + 2) * 0x100 + shifted(
        bytes,
        size as int,
        4 * q + 3,
    ) by {
        assert(words[q] == field_word(bytes, size, q));
        assert forall|k: int| 0 <= k < size implies #[trigger] field_byte(bytes, size, k)
            == shifted(bytes, size, k) by {}
    }
}

proof fn lemma_text_field_4(text: Seq<char>)
    ensures
        text_field::<4>(text)@ == field_words(encode_utf8(text), 4),
{
    let w = field_words(encode_utf8(text), 4);
    assert(w.len() == 4);
    let x: [i32; 4] = [w[0], w[1], w[2], w[3]];
    assert(x@.len() == 4);
    assert forall|i: int| 0 <= i < 4 implies x@[i] == w[i] by {}
    assert(x@ =~= w);
}

proof fn lemma_text_field_3(text: Seq<char>)
    ensures
        text_field::<3>(text)@ == field_words(encode_utf8(text), 3),
{
    let w = field_words(encode_utf8(text), 3);
    assert(w.len() == 3);
    let x: [i32; 3] = [w[0], w[1], w[2]];
    assert(x@.len() == 3);
    assert forall|i: int| 0 <= i < 3 implies x@[i] == w[i] by {}
    assert(x@ =~= w);
}

proof fn lemma_text_field_6(text: Seq<char>)
    ensures
        text_field::<6>(text)@ == field_words(encode_utf8(text), 6),
{
    let w = field_words(encode_utf8(text), 6);
    assert(w.len() == 6);
    let x: [i32; 6] = [w[0], w[1], w[2], w[3], w[4], w[5]];
    assert(x@.len() == 6);
    assert forall|i: int| 0 <= i < 6 implies x@[i] == w[i] by {}
    assert(x@ =~= w);
}

proof fn lemma_text_fields(look: CharacterLook)
    ensures
        is_field(text_field::<4>(look.name@)@, look.name@),
        is_field(text_field::<3>(look.clan@)@, look.clan@),
        is_field(text_field::<6>(look.skin@)@, look.skin@),
{
    lemma_text_field_4(look.name@);
    lemma_text_field_3(look.clan@);
    lemma_text_field_6(look.skin@);
    lemma_field_words(look.name@, 4);
    lemma_field_words(look.clan@, 3);
    lemma_field_words(look.skin@, 6);
}

/// The object shows the look of a player: name, clan, skin and colours.
pub open spec fn shows_look(o: ClientInfo, look: CharacterLook) -> bool {
    &&& is_field(o.name@, look.name@)
    &&& is_field(o.clan@, look.clan@)
    &&& is_field(o.skin@, look.skin@)
    &&& o.country == -1
    &&& look.skin_info is Original ==> o.use_custom_color == 0 && o.color_body == 0
        && o.color_feet == 0
    &&& look.skin_info matches SkinInfo::Custom { body_color, feet_color } ==> o.use_custom_color
        == 1 && o.color_body == body_color && o.color_feet == feet_color
}

/// Every character, on whatever stage, is described by a client info with its
/// look and a player info with its side and score. Only the client's own
/// player is local.
pub proof fn characters_are_described<P: Fn(&Vec<SnapItem>) -> bool>(
    s: &mut Snapshots,
    snapshot: Snapshot,
    local: u64,
    tick: i32,
    effects: Vec<SnapObj>,
    pack: P,
    items: Vec<SnapItem>,
    i: int,
    j: int,
)
    requires
        call_ensures(
            Snapshots::build::<P>,
            (s, &snapshot, local, tick, &effects, pack),
            Ok::<Vec<SnapItem>, SnapshotError>(items),
        ),
        can_build(*old(s), snapshot, effects@),
        0 <= i < snapshot.stages@.len(),
        0 <= j < snapshot.stages@[i].characters@.len(),
    ensures
        ({
            let c = snapshot.stages@[i].characters@[j];
            let id = final(s).players@[c.id];
            &&& final(s).players@.contains_key(c.id)
            &&& exists|o: ClientInfo|
                items@.contains(#[trigger] player_item(id, SnapObj::ClientInfo(o)))
            &&& forall|o: ClientInfo|
                items@.contains(#[trigger] player_item(id, SnapObj::ClientInfo(o)))
                    ==> shows_look(o, c.look)
            &&& exists|o: PlayerInfo|
                items@.contains(#[trigger] player_item(id, SnapObj::PlayerInfo(o)))
            &&& forall|o: PlayerInfo|
                items@.contains(#[trigger] player_item(id, SnapObj::PlayerInfo(o))) ==> {
                    &&& o.local <==> c.id == local
                    &&& o.client_id == id
                    &&& o.team == Team::Blue <==> c.side == Some(MatchSide::Blue)
                    &&& o.team == Team::Red <==> c.side != Some(MatchSide::Blue)
                    &&& is_limited(o.score, c.score as int)
                    &&& o.latency == 0
                }
        }),
{
    let c = snapshot.stages@[i].characters@[j];
    let players = final(s).players@;
    let id = players[c.id];
    let visible = stage_shown(snapshot, local) matches Some(st) && st.id == snapshot.stages@[i].id;
    let all = block(snapshot.stages@, players, c, local, tick, visible, j);
    lemma_text_fields(c.look);
    assert(all.contains(all[0]) && all.contains(all[1]));
    lemma_character_items(s, snapshot, local, tick, effects, pack, items, i, j, all[0]);
    lemma_character_items(s, snapshot, local, tick, effects, pack, items, i, j, all[1]);
    assert(all[0] == player_item(id, SnapObj::ClientInfo(all[0].obj->ClientInfo_0)));
    assert(all[1] == player_item(id, SnapObj::PlayerInfo(all[1].obj->PlayerInfo_0)));
    assert forall|o: ClientInfo|
        items@.contains(#[trigger] player_item(id, SnapObj::ClientInfo(o))) implies shows_look(
        o,
        c.look,
    ) by {
        let x = player_item(id, SnapObj::ClientInfo(o));
        lemma_character_items(s, snapshot, local, tick, effects, pack, items, i, j, x);
        let k = choose|k: int| 0 <= k < all.len() && all[k] == x;
        assert(k == 0);
    }
    assert forall|o: PlayerInfo|
        items@.contains(#[trigger] player_item(id, SnapObj::PlayerInfo(o))) implies all[1]
        == player_item(id, SnapObj::PlayerInfo(o)) by {
        let x = player_item(id, SnapObj::PlayerInfo(o));
        lemma_character_items(s, snapshot, local, tick, effects, pack, items, i, j, x);
        let k = choose|k: int| 0 <= k < all.len() && all[k] == x;
        assert(k == 1);
    }
}

/// Of a character on a stage that is not shown, nothing but its client info
/// and its player info is told.
pub proof fn characters_of_other_stages_are_not_drawn<P: Fn(&Vec<SnapItem>) -> bool>(
    s: &mut Snapshots,
    snapshot: Snapshot,
    local: u64,
    tick: i32,
    effects: Vec<SnapObj>,
    pack: P,
    items: Vec<SnapItem>,
    shown: int,
    i: int,
    j: int,
    x: SnapItem,
)
    requires
        call_ensures(
            Snapshots::build::<P>,
            (s, &snapshot, local, tick, &effects, pack),
            Ok::<Vec<SnapItem>, SnapshotError>(items),
        ),
        can_build(*old(s), snapshot, effects@),
        is_shown(snapshot, local, shown),
        0 <= i < snapshot.stages@.len(),
        snapshot.stages@[i].id != snapshot.stages@[shown].id,
        0 <= j < snapshot.stages@[i].characters@.len(),
        items@.contains(x),
        about_player(x.obj),
        x.id == final(s).players@[snapshot.stages@[i].characters@[j].id],
    ensures
        x.obj is ClientInfo || x.obj is PlayerInfo,
{
    lemma_shown(snapshot, local, shown);
    let c = snapshot.stages@[i].characters@[j];
    lemma_character_items(s, snapshot, local, tick, effects, pack, items, i, j, x);
    let all = block(snapshot.stages@, final(s).players@, c, local, tick, false, j);
    let k = choose|k: int| 0 <= k < all.len() && all[k] == x;
    assert(all.len() == 2);
}

/// A spectator is described like a player with a character: by a client info
/// with its look, and a player info that says that it watches.
pub proof fn spectators_are_described<P: Fn(&Vec<SnapItem>) -> bool>(
    s: &mut Snapshots,
    snapshot: Snapshot,
    local: u64,
    tick: i32,
    effects: Vec<SnapObj>,
    pack: P,
    items: Vec<SnapItem>,
    k: int,
)
    requires
        call_ensures(
            Snapshots::build::<P>,
            (s, &snapshot, local, tick, &effects, pack),
            Ok::<Vec<SnapItem>, SnapshotError>(items),
        ),
        can_build(*old(s), snapshot, effects@),
        0 <= k < snapshot.spectators@.len(),
    ensures
        ({
            let p = snapshot.spectators@[k];
            let id = final(s).players@[p.id];
            &&& final(s).players@.contains_key(p.id)
            &&& exists|o: ClientInfo|
                items@.contains(#[trigger] player_item(id, SnapObj::ClientInfo(o)))
            &&& forall|o: ClientInfo|
                items@.contains(#[trigger] player_item(id, SnapObj::ClientInfo(o)))
                    ==> shows_look(o, p.look)
            &&& exists|o: PlayerInfo|
                items@.contains(#[trigger] player_item(id, SnapObj::PlayerInfo(o)))
            &&& forall|o: PlayerInfo|
                items@.contains(#[trigger] player_item(id, SnapObj::PlayerInfo(o))) ==> {
                    &&& o.local <==> p.id == local
                    &&& o.client_id == id
                    &&& o.team == Team::Spectators
                    &&& o.score == 0
                    &&& o.latency == 0
                }
        }),
{
    let p = snapshot.spectators@[k];
    let players = final(s).players@;
    let id = players[p.id];
    let all = spectator_item(snapshot.stages@, players, p, local);
    lemma_text_fields(p.look);
    assert(all.contains(all[0]) && all.contains(all[1]));
    lemma_spectator_items(s, snapshot, local, tick, effects, pack, items, k, all[0]);
    lemma_spectator_items(s, snapshot, local, tick, effects, pack, items, k, all[1]);
    assert(all[0] == player_item(id, SnapObj::ClientInfo(all[0].obj->ClientInfo_0)));
    assert(all[1] == player_item(id, SnapObj::PlayerInfo(all[1].obj->PlayerInfo_0)));
    assert forall|o: ClientInfo|
        items@.contains(#[trigger] player_item(id, SnapObj::ClientInfo(o))) implies shows_look(
        o,
        p.look,
    ) by {
        let x = player_item(id, SnapObj::ClientInfo(o));
        lemma_spectator_items(s, snapshot, local, tick, effects, pack, items, k, x);
        let m = choose|m: int| 0 <= m < all.len() && all[m] == x;
        assert(m == 0);
    }
    assert forall|o: PlayerInfo|
        items@.contains(#[trigger] player_item(id, SnapObj::PlayerInfo(o))) implies all[1]
        == player_item(id, SnapObj::PlayerInfo(o)) by {
        let x = player_item(id, SnapObj::PlayerInfo(o));
        lemma_spectator_items(s, snapshot, local, tick, effects, pack, items, k, x);
        let m = choose|m: int| 0 <= m < all.len() && all[m] == x;
        assert(m == 1);
    }
}

/// Spectators are not drawn, and only the client's own spectator tells where
/// it looks.
pub proof fn spectators_are_not_drawn<P: Fn(&Vec<SnapItem>) -> bool>(
    s: &mut Snapshots,
    snapshot: Snapshot,
    local: u64,
    tick: i32,
    effects: Vec<SnapObj>,
    pack: P,
    items: Vec<SnapItem>,
    k: int,
    x: SnapItem,
)
    requires
        call_ensures(
            Snapshots::build::<P>,
            (s, &snapshot, local, tick, &effects, pack),
            Ok::<Vec<SnapItem>, SnapshotError>(items),
        ),
        can_build(*old(s), snapshot, effects@),
        0 <= k < snapshot.spectators@.len(),
        items@.contains(x),
        about_player(x.obj),
        x.id == final(s).players@[snapshot.spectators@[k].id],
    ensures
        x.obj is ClientInfo || x.obj is PlayerInfo || (x.obj is SpectatorInfo
            && snapshot.spectators@[k].id == local),
{
    let p = snapshot.spectators@[k];
    lemma_spectator_items(s, snapshot, local, tick, effects, pack, items, k, x);
    let all = spectator_item(snapshot.stages@, final(s).players@, p, local);
    let m = choose|m: int| 0 <= m < all.len() && all[m] == x;
    assert(m <= 2);
}

proof fn lemma_weapon_bits(weapons: Seq<CarriedWeapon>)
    ensures
        ({
            let bits = weapon_bits(weapons);
            &&& bits & 0x4000 == 0x4000 <==> carries(weapons, WeaponType::Hammer)
            &&& bits & 0x8000 == 0x8000 <==> carries(weapons, WeaponType::Gun)
            &&& bits & 0x1_0000 == 0x1_0000 <==> carries(weapons, WeaponType::Shotgun) || carries(
                weapons,
                WeaponType::Puller,
            )
            &&& bits & 0x2_0000 == 0x2_0000 <==> carries(weapons, WeaponType::Grenade)
            &&& bits & 0x4_0000 == 0x4_0000 <==> carries(weapons, WeaponType::Laser)
            &&& bits | 0x7_c000 == 0x7_c000
        }),
    decreases weapons.len(),
{
    if weapons.len() == 0 {
        assert(0i32 & 0x4000 == 0 && 0i32 & 0x8000 == 0 && 0i32 & 0x1_0000 == 0 && 0i32 & 0x2_0000
            == 0 && 0i32 & 0x4_0000 == 0 && 0i32 | 0x7_c000 == 0x7_c000) by (bit_vector);
    } else {
        let head = weapons.drop_last();
        lemma_weapon_bits(head);
        let a = weapon_bits(head);
        let w = weapons.last().weapon;
        let x = weapon_bit(w);
        assert forall|t: WeaponType| #[trigger] carries(weapons, t) <==> carries(head, t) || w
            == t by {
            if carries(head, t) {
                let m = choose|m: int| 0 <= m < head.len() && (#[trigger] head[m]).weapon == t;
                assert(weapons[m].weapon == t);
            }
            if w == t {
                assert(weapons[weapons.len() - 1].weapon == t);
            }
            if carries(weapons, t) && w != t {
                let m = choose|m: int|
                    0 <= m < weapons.len() && (#[trigger] weapons[m]).weapon == t;
                assert(head[m].weapon == t);
            }
        }
        assert((x == 0x4000 || x == 0x8000 || x == 0x1_0000 || x == 0x2_0000 || x == 0x4_0000) && a
            | 0x7_c000 == 0x7_c000 ==> {
            &&& (a | x) & 0x4000 == 0x4000 <==> a & 0x4000 == 0x4000 || x == 0x4000
            &&& (a | x) & 0x8000 == 0x8000 <==> a & 0x8000 == 0x8000 || x == 0x8000
            &&& (a | x) & 0x1_0000 == 0x1_0000 <==> a & 0x1_0000 == 0x1_0000 || x == 0x1_0000
            &&& (a | x) & 0x2_0000 == 0x2_0000 <==> a & 0x2_0000 == 0x2_0000 || x == 0x2_0000
            &&& (a | x) & 0x4_0000 == 0x4_0000 <==> a & 0x4_0000 == 0x4_0000 || x == 0x4_0000
            &&& (a | x) | 0x7_c000 == 0x7_c000
        }) by (bit_vector);
    }
}

/// A weapon of this kind is carried.
pub open spec fn carries(weapons: Seq<CarriedWeapon>, ty: WeaponType) -> bool {
    exists|m: int| 0 <= m < weapons.len() && (#[trigger] weapons[m]).weapon == ty
}

/// Every character of the stage that is shown has an extended character item
/// exactly while it is alive in the game. It tells what the character can do,
/// which weapons it carries, when its freeze ends, and where it aims.
pub proof fn abilities_are_told_as_they_are<P: Fn(&Vec<SnapItem>) -> bool>(
    s: &mut Snapshots,
    snapshot: Snapshot,
    local: u64,
    tick: i32,
    effects: Vec<SnapObj>,
    pack: P,
    items: Vec<SnapItem>,
    shown: int,
    i: int,
    j: int,
)
    requires
        call_ensures(
            Snapshots::build::<P>,
            (s, &snapshot, local, tick, &effects, pack),
            Ok::<Vec<SnapItem>, SnapshotError>(items),
        ),
        can_build(*old(s), snapshot, effects@),
        is_shown(snapshot, local, shown),
        0 <= i < snapshot.stages@.len(),
        snapshot.stages@[i].id == snapshot.stages@[shown].id,
        0 <= j < snapshot.stages@[i].characters@.len(),
    ensures
        ({
            let c = snapshot.stages@[i].characters@[j];
            let id = final(s).players@[c.id];
            &&& c.phase is Normal ==> exists|o: DdnetCharacter|
                items@.contains(#[trigger] player_item(id, SnapObj::DdnetCharacter(o)))
            &&& forall|o: DdnetCharacter|
                items@.contains(#[trigger] player_item(id, SnapObj::DdnetCharacter(o))) ==> {
                    &&& c.phase is Normal
                    &&& o.flags.solo == c.traits.solo
                    &&& o.flags.collision_disabled == c.traits.collision_disabled
                    &&& o.flags.hook_hit_disabled == c.traits.hook_hit_disabled
                    &&& o.flags.endless_hook == c.traits.has_endless
                    &&& o.flags.endless_jump == c.jumps.endless
                    &&& o.flags.is_super == c.traits.is_super
                    &&& o.flags.in_freeze <==> c.freeze is Some
                    &&& o.flags.weapon_ninja == c.ninja
                    &&& o.flags.weapons & 0x4000 == 0x4000 <==> carries(
                        c.weapons@,
                        WeaponType::Hammer,
                    )
                    &&& o.flags.weapons & 0x8000 == 0x8000 <==> carries(
                        c.weapons@,
                        WeaponType::Gun,
                    )
                    &&& o.flags.weapons & 0x1_0000 == 0x1_0000 <==> carries(
                        c.weapons@,
                        WeaponType::Shotgun,
                    ) || carries(c.weapons@, WeaponType::Puller)
                    &&& o.flags.weapons & 0x2_0000 == 0x2_0000 <==> carries(
                        c.weapons@,
                        WeaponType::Grenade,
                    )
                    &&& o.flags.weapons & 0x4_0000 == 0x4_0000 <==> carries(
                        c.weapons@,
                        WeaponType::Laser,
                    )
                    &&& o.flags.weapons | 0x7_c000 == 0x7_c000
                    &&& c.freeze is None ==> o.freeze_end == 0
                    &&& c.freeze matches Some(f) ==> {
                        &&& f.remaining is None ==> o.freeze_end == tick
                        &&& f.remaining matches Some(t) ==> is_limited(
                            o.freeze_end,
                            tick + if t <= i32::MAX {
                                t as int
                            } else {
                                i32::MAX as int
                            },
                        )
                    }
                    &&& o.jumps == c.jumps.max
                    &&& o.jumped_total == c.jumps.count
                    &&& o.tele_checkpoint == c.tele_checkpoint
                    &&& j <= i32::MAX ==> o.strong_weak_id == j
                    &&& o.target_x == c.motion.cursor_x && o.target_y == c.motion.cursor_y
                    &&& o.ninja_activation_tick == 0 && o.freeze_start == 0
                        && o.tune_zone_override == 0
                }
        }),
{
    let c = snapshot.stages@[i].characters@[j];
    let players = final(s).players@;
    let id = players[c.id];
    lemma_shown(snapshot, local, shown);
    lemma_weapon_bits(c.weapons@);
    let all = block(snapshot.stages@, players, c, local, tick, true, j);
    let want = ddnet_character(c, tick, j);
    if c.phase is Normal {
        let x = player_item(id, SnapObj::DdnetCharacter(want));
        assert(all[all.len() - 2] == x);
        assert(all.contains(x));
        lemma_character_items(s, snapshot, local, tick, effects, pack, items, i, j, x);
    }
    assert forall|o: DdnetCharacter|
        items@.contains(#[trigger] player_item(id, SnapObj::DdnetCharacter(o))) implies o == want
        && c.phase is Normal by {
        let x = player_item(id, SnapObj::DdnetCharacter(o));
        lemma_character_items(s, snapshot, local, tick, effects, pack, items, i, j, x);
        let k = choose|k: int| 0 <= k < all.len() && all[k] == x;
        assert(all[k].obj is DdnetCharacter);
    }
}

/// The player has a character on some stage.
pub open spec fn plays(stages: Seq<Stage>, id: u64) -> bool {
    exists|i: int| 0 <= i < stages.len() && has_character(#[trigger] stages[i], id)
}

pub(crate) proof fn lemma_character_in(stages: Seq<Stage>, id: u64)
    ensures
        match character_in(stages, id) {
            Some(c) => exists|i: int, j: int|
                #![trigger stages[i].characters@[j]]
                {
                    &&& 0 <= i < stages.len()
                    &&& 0 <= j < stages[i].characters@.len()
                    &&& stages[i].characters@[j] == c
                    &&& c.id == id
                },
            None => !plays(stages, id),
        },
    decreases stages.len(),
{
    if stages.len() > 0 {
        lemma_character_of(stages[0].characters@, id);
        let rest = stages.drop_first();
        match character_of(stages[0].characters@, id) {
            Some(c) => {
                let j = choose|j: int|
                    0 <= j < stages[0].characters@.len() && #[trigger] stages[0].characters@[j]
                        == c;
                assert(stages[0].characters@[j] == c);
            },
            None => {
                lemma_character_in(rest, id);
                match character_in(rest, id) {
                    Some(c) => {
                        let (i, j) = choose|i: int, j: int|
                            #![trigger rest[i].characters@[j]]
                            {
                                &&& 0 <= i < rest.len()
                                &&& 0 <= j < rest[i].characters@.len()
                                &&& rest[i].characters@[j] == c
                                &&& c.id == id
                            };
                        assert(stages[i + 1].characters@[j] == c);
                    },
                    None => {
                        assert forall|i: int| 0 <= i < stages.len() implies !has_character(
                            #[trigger] stages[i],
                            id,
                        ) by {
                            if i > 0 {
                                assert(rest[i - 1] == stages[i]);
                            } else {
                                lemma_has_character(stages[0], id);
                            }
                        }
                    },
                }
            },
        }
    }
}

/// The `f`th of the followed players is the first that plays, and its
/// character is `c`.
pub open spec fn follows_first(stages: Seq<Stage>, ids: Seq<u64>, f: int, c: Character) -> bool {
    &&& 0 <= f < ids.len()
    &&& c.id == ids[f]
    &&& exists|i: int, j: int|
        #![trigger stages[i].characters@[j]]
        0 <= i < stages.len() && 0 <= j < stages[i].characters@.len()
            && stages[i].characters@[j] == c
    &&& forall|m: int| 0 <= m < f ==> !plays(stages, #[trigger] ids[m])
}

pub(crate) proof fn lemma_plays(stages: Seq<Stage>, i: int, j: int)
    requires
        0 <= i < stages.len(),
        0 <= j < stages[i].characters@.len(),
    ensures
        plays(stages, stages[i].characters@[j].id),
{
    assert(has_character(stages[i], stages[i].characters@[j].id));
}

pub(crate) proof fn lemma_followed(snapshot: Snapshot, ids: Seq<u64>)
    requires
        roster_of(snapshot).no_duplicates(),
    ensures
        forall|f: int, c: Character| #[trigger]
            follows_first(snapshot.stages@, ids, f, c) ==> followed(snapshot.stages@, ids) == Some(
                (ids[f], c),
            ),
        (forall|m: int| 0 <= m < ids.len() ==> !plays(snapshot.stages@, #[trigger] ids[m]))
            ==> followed(snapshot.stages@, ids) is None,
    decreases ids.len(),
{
    let stages = snapshot.stages@;
    if ids.len() > 0 {
        let rest = ids.drop_first();
        lemma_followed(snapshot, rest);
        lemma_character_in(stages, ids[0]);
        assert forall|f: int, c: Character| #[trigger]
            follows_first(stages, ids, f, c) implies followed(stages, ids) == Some((ids[f], c)) by {
            let (i, j) = choose|i: int, j: int|
                #![trigger stages[i].characters@[j]]
                0 <= i < stages.len() && 0 <= j < stages[i].characters@.len()
                    && stages[i].characters@[j] == c;
            lemma_plays(stages, i, j);
            lemma_once(snapshot, i, j);
            match character_in(stages, ids[0]) {
                Some(c2) => {
                    let (i2, j2) = choose|i2: int, j2: int|
                        #![trigger stages[i2].characters@[j2]]
                        {
                            &&& 0 <= i2 < stages.len()
                            &&& 0 <= j2 < stages[i2].characters@.len()
                            &&& stages[i2].characters@[j2] == c2
                            &&& c2.id == ids[0]
                        };
                    lemma_plays(stages, i2, j2);
                    assert(f == 0);
                },
                None => {
                    assert(f > 0);
                    assert(rest[f - 1] == ids[f]);
                    assert forall|m: int| 0 <= m < f - 1 implies !plays(
                        stages,
                        #[trigger] rest[m],
                    ) by {
                        assert(rest[m] == ids[m + 1]);
                    }
                    assert(follows_first(stages, rest, f - 1, c));
                },
            }
        }
        if forall|m: int| 0 <= m < ids.len() ==> !plays(stages, #[trigger] ids[m]) {
            assert forall|m: int| 0 <= m < rest.len() implies !plays(
                stages,
                #[trigger] rest[m],
            ) by {
                assert(rest[m] == ids[m + 1]);
            }
            assert(!plays(stages, ids[0]));
            if let Some(c2) = character_in(stages, ids[0]) {
                let (i2, j2) = choose|i2: int, j2: int|
                    #![trigger stages[i2].characters@[j2]]
                    {
                        &&& 0 <= i2 < stages.len()
                        &&& 0 <= j2 < stages[i2].characters@.len()
                        &&& stages[i2].characters@[j2] == c2
                        &&& c2.id == ids[0]
                    };
                lemma_plays(stages, i2, j2);
            }
        }
    }
}

/// The camera of a player with a character that watches.
pub open spec fn camera_of(phase: Phase) -> Option<Camera> {
    match phase {
        Phase::Normal { hook, hooked, spectate } => spectate,
        Phase::Spectate(camera) => Some(camera),
        Phase::Dead => None,
    }
}

/// Every character of the stage that is shown tells whether its player is
/// paused in the game or watches outside of it.
pub proof fn watching_players_are_flagged<P: Fn(&Vec<SnapItem>) -> bool>(
    s: &mut Snapshots,
    snapshot: Snapshot,
    local: u64,
    tick: i32,
    effects: Vec<SnapObj>,
    pack: P,
    items: Vec<SnapItem>,
    shown: int,
    i: int,
    j: int,
)
    requires
        call_ensures(
            Snapshots::build::<P>,
            (s, &snapshot, local, tick, &effects, pack),
            Ok::<Vec<SnapItem>, SnapshotError>(items),
        ),
        can_build(*old(s), snapshot, effects@),
        is_shown(snapshot, local, shown),
        0 <= i < snapshot.stages@.len(),
        snapshot.stages@[i].id == snapshot.stages@[shown].id,
        0 <= j < snapshot.stages@[i].characters@.len(),
    ensures
        ({
            let c = snapshot.stages@[i].characters@[j];
            let id = final(s).players@[c.id];
            &&& exists|o: DdnetPlayer|
                items@.contains(#[trigger] player_item(id, SnapObj::DdnetPlayer(o)))
            &&& forall|o: DdnetPlayer|
                items@.contains(#[trigger] player_item(id, SnapObj::DdnetPlayer(o))) ==> {
                    &&& o.flags == 0 || o.flags == 2 || o.flags == 4
                    &&& o.flags == 2 <==> c.phase is Normal && c.phase->spectate is Some
                    &&& o.flags == 4 <==> c.phase is Spectate
                    &&& o.auth_level == 0
                }
        }),
{
    let c = snapshot.stages@[i].characters@[j];
    let players = final(s).players@;
    let id = players[c.id];
    lemma_shown(snapshot, local, shown);
    let all = block(snapshot.stages@, players, c, local, tick, true, j);
    let x = all[2];
    assert(x == player_item(id, SnapObj::DdnetPlayer(x.obj->DdnetPlayer_0)));
    assert(all.contains(x));
    lemma_character_items(s, snapshot, local, tick, effects, pack, items, i, j, x);
    assert forall|o: DdnetPlayer|
        items@.contains(#[trigger] player_item(id, SnapObj::DdnetPlayer(o))) implies player_item(
        id,
        SnapObj::DdnetPlayer(o),
    ) == x by {
        let y = player_item(id, SnapObj::DdnetPlayer(o));
        lemma_character_items(s, snapshot, local, tick, effects, pack, items, i, j, y);
        let k = choose|k: int| 0 <= k < all.len() && all[k] == y;
        assert(all[k].obj is DdnetPlayer);
    }
}

/// Where a player with a character looks is told to the player itself, while
/// it watches: at a free position, at the first followed player that plays,
/// under that player's slot, or at its own character.
pub proof fn watching_players_see_whom_they_follow<P: Fn(&Vec<SnapItem>) -> bool>(
    s: &mut Snapshots,
    snapshot: Snapshot,
    local: u64,
    tick: i32,
    effects: Vec<SnapObj>,
    pack: P,
    items: Vec<SnapItem>,
    shown: int,
    i: int,
    j: int,
)
    requires
        call_ensures(
            Snapshots::build::<P>,
            (s, &snapshot, local, tick, &effects, pack),
            Ok::<Vec<SnapItem>, SnapshotError>(items),
        ),
        can_build(*old(s), snapshot, effects@),
        is_shown(snapshot, local, shown),
        0 <= i < snapshot.stages@.len(),
        snapshot.stages@[i].id == snapshot.stages@[shown].id,
        0 <= j < snapshot.stages@[i].characters@.len(),
    ensures
        ({
            let players = final(s).players@;
            let c = snapshot.stages@[i].characters@[j];
            let id = players[c.id];
            &&& c.id == local && camera_of(c.phase) is Some ==> exists|o: SpectatorInfo|
                items@.contains(#[trigger] player_item(id, SnapObj::SpectatorInfo(o)))
            &&& forall|o: SpectatorInfo|
                items@.contains(#[trigger] player_item(id, SnapObj::SpectatorInfo(o))) ==> {
                    &&& c.id == local
                    &&& camera_of(c.phase) is Some
                    &&& camera_of(c.phase) matches Some(Camera::Free(pos)) ==> o.spectator_id == -1
                        && o.x == pos.x.cut && o.y == pos.y.cut
                    &&& camera_of(c.phase) matches Some(Camera::Follows(ids)) ==> {
                        &&& forall|f: int, d: Character| #[trigger]
                            follows_first(snapshot.stages@, ids@, f, d) ==> o.spectator_id
                                == players[d.id] && o.x == d.pos.x.cut && o.y == d.pos.y.cut
                        &&& (forall|m: int|
                            0 <= m < ids@.len() ==> !plays(snapshot.stages@, #[trigger] ids@[m]))
                            ==> o.spectator_id == -1 && o.x == c.pos.x.cut && o.y == c.pos.y.cut
                    }
                }
        }),
{
    let c = snapshot.stages@[i].characters@[j];
    let players = final(s).players@;
    let stages = snapshot.stages@;
    let id = players[c.id];
    lemma_shown(snapshot, local, shown);
    lemma_players(s, snapshot, local, tick, effects, pack, items);
    lemma_in_roster(snapshot);
    let all = block(stages, players, c, local, tick, true, j);
    if c.id == local && camera_of(c.phase) is Some {
        let x = all[3];
        assert(x == player_item(id, SnapObj::SpectatorInfo(x.obj->SpectatorInfo_0)));
        assert(all.contains(x));
        lemma_character_items(s, snapshot, local, tick, effects, pack, items, i, j, x);
        if let Some(Camera::Follows(ids)) = camera_of(c.phase) {
            lemma_followed(snapshot, ids@);
        }
    }
    assert forall|o: SpectatorInfo|
        items@.contains(#[trigger] player_item(id, SnapObj::SpectatorInfo(o))) implies {
        &&& c.id == local
        &&& camera_of(c.phase) matches Some(camera) && o == camera_info(
            stages,
            players,
            c.pos,
            camera,
        )
    } by {
        let y = player_item(id, SnapObj::SpectatorInfo(o));
        lemma_character_items(s, snapshot, local, tick, effects, pack, items, i, j, y);
        let k = choose|k: int| 0 <= k < all.len() && all[k] == y;
        assert(all[k].obj is SpectatorInfo);
    }
    assert forall|f: int, d: Character, ids: Seq<u64>| #[trigger]
        follows_first(stages, ids, f, d) implies players.contains_key(d.id) by {
        let (i2, j2) = choose|i2: int, j2: int|
            #![trigger stages[i2].characters@[j2]]
            0 <= i2 < stages.len() && 0 <= j2 < stages[i2].characters@.len()
                && stages[i2].characters@[j2] == d;
        assert(roster_of(snapshot).contains(d.id));
    }
}

/// The `f`th of the followed players is the first that is in the game, with
/// or without a character.
pub open spec fn first_present(players: Map<u64, u16>, ids: Seq<u64>, f: int) -> bool {
    &&& 0 <= f < ids.len()
    &&& players.contains_key(ids[f])
    &&& forall|m: int| 0 <= m < f ==> !players.contains_key(#[trigger] ids[m])
}

proof fn lemma_followed_slot(players: Map<u64, u16>, ids: Seq<u64>)
    ensures
        forall|f: int| #[trigger]
            first_present(players, ids, f) ==> followed_slot(players, ids) == players[ids[f]],
        (forall|m: int| 0 <= m < ids.len() ==> !players.contains_key(#[trigger] ids[m]))
            ==> followed_slot(players, ids) == -1,
    decreases ids.len(),
{
    if ids.len() > 0 {
        let rest = ids.drop_first();
        lemma_followed_slot(players, rest);
        assert forall|f: int| #[trigger]
            first_present(players, ids, f) implies followed_slot(players, ids)
            == players[ids[f]] by {
            if f > 0 {
                assert(rest[f - 1] == ids[f]);
                assert forall|m: int| 0 <= m < f - 1 implies !players.contains_key(
                    #[trigger] rest[m],
                ) by {
                    assert(rest[m] == ids[m + 1]);
                }
                assert(!players.contains_key(ids[0]));
                assert(first_present(players, rest, f - 1));
            }
        }
        if forall|m: int| 0 <= m < ids.len() ==> !players.contains_key(#[trigger] ids[m]) {
            assert(!players.contains_key(ids[0]));
            assert forall|m: int| 0 <= m < rest.len() implies !players.contains_key(
                #[trigger] rest[m],
            ) by {
                assert(rest[m] == ids[m + 1]);
            }
        }
    }
}

/// The client's own spectator is told whom it follows and where it looks: at
/// the first followed player that plays, else at its cursor.
pub proof fn spectators_see_whom_they_follow<P: Fn(&Vec<SnapItem>) -> bool>(
    s: &mut Snapshots,
    snapshot: Snapshot,
    local: u64,
    tick: i32,
    effects: Vec<SnapObj>,
    pack: P,
    items: Vec<SnapItem>,
    k: int,
)
    requires
        call_ensures(
            Snapshots::build::<P>,
            (s, &snapshot, local, tick, &effects, pack),
            Ok::<Vec<SnapItem>, SnapshotError>(items),
        ),
        can_build(*old(s), snapshot, effects@),
        0 <= k < snapshot.spectators@.len(),
        snapshot.spectators@[k].id == local,
    ensures
        ({
            let players = final(s).players@;
            let p = snapshot.spectators@[k];
            let id = players[p.id];
            &&& exists|o: SpectatorInfo|
                items@.contains(#[trigger] player_item(id, SnapObj::SpectatorInfo(o)))
            &&& forall|o: SpectatorInfo|
                items@.contains(#[trigger] player_item(id, SnapObj::SpectatorInfo(o))) ==> {
                    &&& forall|f: int| #[trigger]
                        first_present(players, p.follows@, f) ==> o.spectator_id
                            == players[p.follows@[f]]
                    &&& (forall|m: int|
                        0 <= m < p.follows@.len() ==> !players.contains_key(
                            #[trigger] p.follows@[m],
                        )) ==> o.spectator_id == -1
                    &&& forall|f: int, d: Character| #[trigger]
                        follows_first(snapshot.stages@, p.follows@, f, d) ==> o.x == d.pos.x.rounded
                            && o.y == d.pos.y.rounded
                    &&& (forall|m: int|
                        0 <= m < p.follows@.len() ==> !plays(
                            snapshot.stages@,
                            #[trigger] p.follows@[m],
                        )) ==> o.x == p.cursor.x.rounded && o.y == p.cursor.y.rounded
                }
        }),
{
    let p = snapshot.spectators@[k];
    let players = final(s).players@;
    let id = players[p.id];
    let all = spectator_item(snapshot.stages@, players, p, local);
    let x = all[2];
    lemma_followed(snapshot, p.follows@);
    lemma_followed_slot(players, p.follows@);
    assert(x == player_item(id, SnapObj::SpectatorInfo(x.obj->SpectatorInfo_0)));
    assert(all.contains(x));
    lemma_spectator_items(s, snapshot, local, tick, effects, pack, items, k, x);
    assert forall|o: SpectatorInfo|
        items@.contains(#[trigger] player_item(id, SnapObj::SpectatorInfo(o))) implies player_item(
        id,
        SnapObj::SpectatorInfo(o),
    ) == x by {
        let y = player_item(id, SnapObj::SpectatorInfo(o));
        lemma_spectator_items(s, snapshot, local, tick, effects, pack, items, k, y);
        let m = choose|m: int| 0 <= m < all.len() && all[m] == y;
        assert(m == 2);
    }
}

} // verus!
