//! What holds of the snapshots of a client over any number of calls.
use crate::legacy::decode::{decodes, Packed, MAX_BASES};
use crate::legacy::objects::{SnapItem, SnapObj};
use crate::legacy::slots::{
    local_player_comes_first, players_fit_up_to_limit, slots_stay_distinct, slots_stay_stable,
    slots_valid,
};
use crate::legacy::snapshot::{
    assigned, builds, free_player_slot, is_recent, kept_players, kept_seen, players_kept,
    roster_of, SnapshotError, Snapshots, MAX_PLAYERS,
};
use crate::legacy::world::Snapshot;
use crate::tables::{lemma_newest_insert, newest};
use vstd::prelude::*;

verus! {

/// A snapshot that came: how it came, what was made of it, and the state
/// before and after.
pub struct Received {
    pub before: Snapshots,
    pub data: Seq<u8>,
    pub diff: Option<u64>,
    pub id: u64,
    pub tick: u64,
    pub keep: bool,
    pub packed: Result<Option<Packed>, SnapshotError>,
    pub parsed: Option<(Snapshot, usize)>,
    pub result: Result<Option<(u64, Snapshot)>, SnapshotError>,
    pub after: Snapshots,
}

impl Received {
    /// The snapshot was decoded.
    pub open spec fn decoded(self) -> bool {
        decodes(
            self.before,
            self.data,
            self.diff,
            self.id,
            self.tick,
            self.keep,
            self.packed,
            self.parsed,
            self.result,
            self.after,
        )
    }

    /// The snapshot was handed on.
    pub open spec fn handed_on(self) -> bool {
        self.result matches Ok(Some(_))
    }

    /// The snapshot can be the base of later differences.
    pub open spec fn kept(self) -> bool {
        self.keep && self.result is Ok && (self.packed matches Ok(Some(_)))
    }

    /// The bytes with the absolute id and tick.
    pub open spec fn contents(self) -> Packed {
        self.packed->Ok_0->0
    }

    /// The id: that of the base and the difference, or the given one.
    pub open spec fn absolute_id(self) -> int {
        match self.diff {
            Some(base) => base + self.id,
            None => self.id as int,
        }
    }

    /// The tick: that of the base and the difference, or the given one.
    pub open spec fn absolute_tick(self) -> int {
        match self.diff {
            Some(base) => self.before.bases@[base].0 + self.tick,
            None => self.tick as int,
        }
    }
}

/// The states agree on the snapshots that were received.
pub open spec fn same_received(a: Snapshots, b: Snapshots) -> bool {
    &&& a.bases@ == b.bases@
    &&& a.latest_tick == b.latest_tick
    &&& a.latest_id == b.latest_id
}

/// Snapshots that were decoded one after the other. What happened in between
/// changed nothing about those that were received.
pub open spec fn received_in_turn(list: Seq<Received>) -> bool {
    &&& forall|i: int| 0 <= i < list.len() ==> (#[trigger] list[i]).decoded()
    &&& forall|i: int|
        0 < i < list.len() ==> same_received(list[i - 1].after, (#[trigger] list[i]).before)
}

proof fn lemma_latest_id(list: Seq<Received>, i: int, j: int)
    requires
        received_in_turn(list),
        0 <= i <= j < list.len(),
        list[i].handed_on(),
    ensures
        list[j].after.latest_id matches Some(id) && list[i].contents().id <= id,
    decreases j,
{
    assert(list[j].decoded());
    if i < j {
        lemma_latest_id(list, i, j - 1);
        assert(same_received(list[j - 1].after, list[j].before));
    }
}

/// Over any number of snapshots, those that are handed on have their absolute
/// tick, which is then the latest one, and absolute ids that only increase.
pub proof fn handed_on_snapshots_only_advance(list: Seq<Received>)
    requires
        received_in_turn(list),
    ensures
        forall|i: int|
            0 <= i < list.len() && (#[trigger] list[i]).handed_on() ==> {
                let d = list[i];
                &&& d.result matches Ok(Some((told, _))) && told == d.absolute_tick()
                &&& d.after.latest_tick == d.absolute_tick()
                &&& d.after.latest_id matches Some(id) && id == d.absolute_id()
            },
        forall|i: int, j: int|
            0 <= i < j < list.len() && (#[trigger] list[i]).handed_on() && (
            #[trigger] list[j]).handed_on() ==> list[i].absolute_id() < list[j].absolute_id(),
{
    assert forall|i: int| 0 <= i < list.len() && (#[trigger] list[i]).handed_on() implies {
        let d = list[i];
        &&& d.result matches Ok(Some((told, _))) && told == d.absolute_tick()
        &&& d.after.latest_tick == d.absolute_tick()
        &&& d.after.latest_id matches Some(id) && id == d.absolute_id()
        &&& d.contents().id == d.absolute_id()
    } by {
        assert(list[i].decoded());
    }
    assert forall|i: int, j: int|
        0 <= i < j < list.len() && (#[trigger] list[i]).handed_on() && (
        #[trigger] list[j]).handed_on() implies list[i].absolute_id() < list[j].absolute_id() by {
        lemma_latest_id(list, i, j - 1);
        assert(same_received(list[j - 1].after, list[j].before));
        assert(list[j].decoded());
    }
}

/// All snapshots that could be bases if none were ever removed: those that
/// were there at the start, and those that were kept.
pub open spec fn all_kept(start: Map<u64, (u64, Vec<u8>)>, list: Seq<Received>) -> Map<
    u64,
    (u64, Vec<u8>),
>
    decreases list.len(),
{
    if list.len() == 0 {
        start
    } else {
        let before = all_kept(start, list.drop_last());
        let d = list.last();
        if d.kept() {
            before.insert(d.contents().id, (d.contents().tick, d.contents().bytes))
        } else {
            before
        }
    }
}

proof fn lemma_received_head(list: Seq<Received>)
    requires
        received_in_turn(list),
        list.len() > 1,
    ensures
        received_in_turn(list.drop_last()),
        same_received(list.drop_last().last().after, list.last().before),
{
    let head = list.drop_last();
    assert forall|i: int| 0 <= i < head.len() implies (#[trigger] head[i]).decoded() by {
        assert(head[i] == list[i]);
    }
    assert forall|i: int| 0 < i < head.len() implies same_received(
        head[i - 1].after,
        (#[trigger] head[i]).before,
    ) by {
        assert(head[i] == list[i]);
    }
    assert(list[list.len() - 1] == list.last());
}

/// Over any number of snapshots, the bases for later differences are the 32
/// with the greatest ids of all that were kept, each as it was kept last.
pub proof fn bases_are_the_newest_kept(list: Seq<Received>)
    requires
        list.len() > 0,
        received_in_turn(list),
        list[0].before.bases@.dom().finite(),
        list[0].before.bases@.len() <= MAX_BASES,
    ensures
        all_kept(list[0].before.bases@, list).dom().finite(),
        newest(
            all_kept(list[0].before.bases@, list),
            list.last().after.bases@,
            MAX_BASES as nat,
        ),
        list.last().after.bases@.len() <= MAX_BASES,
    decreases list.len(),
{
    let start = list[0].before.bases@;
    let head = list.drop_last();
    let d = list.last();
    assert(list[list.len() - 1] == d);
    assert(d.decoded());
    let all = all_kept(start, head);
    if list.len() == 1 {
        assert(head =~= seq![]);
    } else {
        lemma_received_head(list);
        assert(head[0] == list[0]);
        bases_are_the_newest_kept(head);
    }
    assert(newest(all, d.before.bases@, MAX_BASES as nat));
    if d.kept() {
        let p = d.contents();
        lemma_newest_insert(
            all,
            d.before.bases@,
            d.after.bases@,
            p.id,
            (p.tick, p.bytes),
            MAX_BASES as nat,
        );
    }
}

/// A snapshot that was built: what it was built of, and the state before and
/// after.
pub struct Built<P> {
    pub before: Snapshots,
    pub snapshot: Snapshot,
    pub tick: i32,
    pub effects: Seq<SnapObj>,
    pub pack: P,
    pub items: Vec<SnapItem>,
    pub after: Snapshots,
}

/// The states agree on the players.
pub open spec fn same_players(a: Snapshots, b: Snapshots) -> bool {
    a.players@ == b.players@ && a.player_seen@ == b.player_seen@
}

/// Snapshots that were built one after the other with success, for the same
/// local player. What happened in between changed nothing about the players.
pub open spec fn built_in_turn<P: Fn(&Vec<SnapItem>) -> bool>(list: Seq<Built<P>>, local: u64) -> bool {
    &&& forall|i: int|
        0 <= i < list.len() ==> {
            let b = #[trigger] list[i];
            builds(
                b.before,
                b.snapshot,
                local,
                b.tick,
                b.effects,
                b.pack,
                Ok(b.items),
                b.after,
            )
        }
    &&& forall|i: int|
        0 < i < list.len() ==> same_players(list[i - 1].after, (#[trigger] list[i]).before)
}

/// The latest tick never went back from one snapshot to the next.
pub open spec fn ticks_rise<P>(list: Seq<Built<P>>) -> bool {
    forall|i: int, j: int|
        0 <= i <= j < list.len() ==> (#[trigger] list[i]).before.latest_tick <= (
        #[trigger] list[j]).before.latest_tick
}

/// Players are noted as seen now if they are named, and as before otherwise.
proof fn lemma_seen(players: Map<u64, u16>, seen: Map<u64, u64>, tick: u64, ids: Seq<u64>, id: u64)
    ensures
        ({
            let (_, after, fit) = assigned(players, seen, tick, ids);
            &&& fit && ids.contains(id) ==> after.contains_key(id) && after[id] == tick
            &&& seen.contains_key(id) ==> after.contains_key(id) && (after[id] == seen[id]
                || after[id] == tick)
        }),
    decreases ids.len(),
{
    if ids.len() > 0 {
        let first = ids[0];
        let rest = ids.drop_first();
        let seen2 = seen.insert(first, tick);
        if ids.contains(id) && first != id {
            let i = choose|i: int| 0 <= i < ids.len() && ids[i] == id;
            assert(rest[i - 1] == id);
        }
        if players.contains_key(first) {
            lemma_seen(players, seen2, tick, rest, id);
        } else if let Some(slot) = free_player_slot(players, 0, MAX_PLAYERS as int) {
            lemma_seen(players.insert(first, slot), seen2, tick, rest, id);
        }
    }
}

proof fn lemma_built<P: Fn(&Vec<SnapItem>) -> bool>(list: Seq<Built<P>>, local: u64, n: int)
    requires
        built_in_turn(list, local),
        0 <= n < list.len(),
        list[0].before.players@ == Map::<u64, u16>::empty(),
    ensures
        slots_valid(list[n].before.players@),
        slots_valid(list[n].after.players@),
        list[n].after.players@.contains_key(local),
        list[n].after.players@[local] == 0,
        forall|id: u64| #[trigger]
            roster_of(list[n].snapshot).contains(id) ==> list[n].after.players@.contains_key(id),
    decreases n,
{
    let b = list[n];
    let seen = b.before.player_seen@;
    let tick = b.before.latest_tick;
    assert(builds(
        b.before,
        b.snapshot,
        local,
        b.tick,
        b.effects,
        b.pack,
        Ok(b.items),
        b.after,
    ));
    if n == 0 {
        local_player_comes_first(seen, tick, b.snapshot, local);
    } else {
        lemma_built(list, local, n - 1);
        assert(same_players(list[n - 1].after, list[n].before));
        slots_stay_stable(b.before.players@, seen, tick, b.snapshot, local, local);
    }
    slots_stay_distinct(b.before.players@, seen, tick, b.snapshot, local);
    players_fit_up_to_limit(b.before.players@, seen, tick, b.snapshot, local);
    assert forall|id: u64| #[trigger] roster_of(b.snapshot).contains(id) implies
        b.after.players@.contains_key(id) by {
        assert(roster_of(b.snapshot).to_set().contains(id));
        assert(b.after.players@.dom().contains(id));
    }
}

proof fn lemma_slot_kept<P: Fn(&Vec<SnapItem>) -> bool>(
    list: Seq<Built<P>>,
    local: u64,
    i: int,
    n: int,
    id: u64,
)
    requires
        built_in_turn(list, local),
        ticks_rise(list),
        0 <= i <= n < list.len(),
        list[0].before.players@ == Map::<u64, u16>::empty(),
        roster_of(list[i].snapshot).contains(id),
        is_recent(list[n].before.latest_tick, list[i].before.latest_tick),
    ensures
        list[n].after.players@.contains_key(id),
        list[n].after.players@[id] == list[i].after.players@[id],
        list[n].after.player_seen@.contains_key(id),
        list[n].after.player_seen@[id] >= list[i].before.latest_tick,
    decreases n,
{
    let b = list[n];
    let players = b.before.players@;
    let seen = b.before.player_seen@;
    let tick = b.before.latest_tick;
    assert(builds(
        b.before,
        b.snapshot,
        local,
        b.tick,
        b.effects,
        b.pack,
        Ok(b.items),
        b.after,
    ));
    lemma_built(list, local, n);
    let kept = kept_players(players, seen, local, tick);
    lemma_seen(
        players_kept(players, seen, local, tick),
        kept_seen(seen, kept),
        tick,
        roster_of(b.snapshot),
        id,
    );
    if i < n {
        assert(list[n - 1].before.latest_tick <= list[n].before.latest_tick);
        assert(list[i].before.latest_tick <= list[n].before.latest_tick);
        lemma_slot_kept(list, local, i, n - 1, id);
        assert(same_players(list[n - 1].after, list[n].before));
        assert(is_recent(tick, seen[id]));
        slots_stay_stable(players, seen, tick, b.snapshot, local, id);
        assert(kept.contains_key(id));
        assert(kept_seen(seen, kept).contains_key(id));
    }
}

/// Over any number of snapshots that were built for one local player, from
/// the first one on: players have distinct slots below 64, the local player
/// has slot zero, all players of the last snapshot are mapped, and a player
/// that was in a snapshot fewer than 150 ticks ago has the slot that it had
/// then, as long as the latest tick never went back.
pub proof fn players_keep_their_slots<P: Fn(&Vec<SnapItem>) -> bool>(
    list: Seq<Built<P>>,
    local: u64,
)
    requires
        list.len() > 0,
        built_in_turn(list, local),
        list[0].before.players@ == Map::<u64, u16>::empty(),
    ensures
        ({
            let last = list.last();
            let players = last.after.players@;
            &&& slots_valid(players)
            &&& players.contains_key(local) && players[local] == 0
            &&& forall|id: u64| #[trigger]
                roster_of(last.snapshot).contains(id) ==> players.contains_key(id)
            &&& ticks_rise(list) ==> forall|i: int, id: u64|
                0 <= i < list.len() && #[trigger] roster_of(list[i].snapshot).contains(id)
                    && is_recent(last.before.latest_tick, list[i].before.latest_tick)
                    ==> players.contains_key(id) && players[id] == list[i].after.players@[id]
        }),
{
    let n = list.len() - 1;
    assert(list[n] == list.last());
    lemma_built(list, local, n);
    if ticks_rise(list) {
        assert forall|i: int, id: u64|
            0 <= i < list.len() && #[trigger] roster_of(list[i].snapshot).contains(id)
                && is_recent(
                list.last().before.latest_tick,
                list[i].before.latest_tick,
            ) implies list.last().after.players@.contains_key(id)
            && list.last().after.players@[id] == list[i].after.players@[id] by {
            lemma_slot_kept(list, local, i, n, id);
        }
    }
}

} // verus!
