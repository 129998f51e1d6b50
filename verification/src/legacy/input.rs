//! Translating player input.
use crate::legacy::snapshot::clamp_i32;
use crate::legacy::world::WeaponType;
use std::time::Duration;
use vstd::prelude::*;

verus! {

/// The length of a duration in nanoseconds.
pub uninterp spec fn duration_nanos(d: Duration) -> nat;

/// The number of nanoseconds in the longest duration.
pub const MAX_NANOS: u128 = 18_446_744_073_709_551_615_999_999_999;

/// `Duration::as_nanos` returns the whole length in nanoseconds. A duration
/// holds at most 2^64 - 1 seconds and 999,999,999 nanoseconds.
pub assume_specification[ Duration::as_nanos ](d: &Duration) -> (n: u128)
    ensures
        n == duration_nanos(*d),
        n <= MAX_NANOS,
;

/// `n / d` without the fraction.
pub open spec fn quotient(n: int, d: int) -> int {
    if n >= 0 {
        n / d
    } else {
        -((-n) / d)
    }
}

/// The nanoseconds from the arrival of an input to its tick. Ticks are 20 ms
/// apart.
pub open spec fn nanos_left(
    input_tick: u64,
    snapshot_tick: u64,
    snapshot_overhead: nat,
    acknowledgement_overhead: nat,
) -> int {
    (input_tick - snapshot_tick) * 20_000_000 - snapshot_overhead + acknowledgement_overhead
}

/// The whole milliseconds from the arrival of an input to its tick.
pub open spec fn millis_left(
    input_tick: u64,
    snapshot_tick: u64,
    snapshot_overhead: Duration,
    acknowledgement_overhead: Duration,
) -> i32 {
    clamp_i32(
        quotient(
            nanos_left(
                input_tick,
                snapshot_tick,
                duration_nanos(snapshot_overhead),
                duration_nanos(acknowledgement_overhead),
            ),
            1_000_000,
        ),
    )
}

/// Time in milliseconds until the intended tick, measured when the backend
/// received the input. Snapshot overhead locates its send time relative to
/// the snapshot tick; acknowledgement overhead moves that clock back to input
/// arrival.
pub fn time_left(
    input_tick: u64,
    snapshot_tick: u64,
    snapshot_overhead: Duration,
    acknowledgement_overhead: Duration,
) -> (r: i32)
    ensures
        r == millis_left(
            input_tick,
            snapshot_tick,
            snapshot_overhead,
            acknowledgement_overhead,
        ),
{
    let nanos: i128 = (input_tick as i128 - snapshot_tick as i128) * 20_000_000
        - snapshot_overhead.as_nanos() as i128 + acknowledgement_overhead.as_nanos() as i128;
    if nanos >= 0 {
        let millis: u128 = nanos as u128 / 1_000_000;
        if millis > 0x7fff_ffff {
            i32::MAX
        } else {
            millis as i32
        }
    } else {
        let millis: u128 = (-nanos) as u128 / 1_000_000;
        if millis >= 0x8000_0000 {
            i32::MIN
        } else {
            -(millis as i32)
        }
    }
}

/// A later acknowledgement of the same arrival gives the same result: what
/// the snapshot moved on is what the acknowledgement is older.
pub proof fn arrival_decides_time_left(
    input_tick: u64,
    snapshot_tick: u64,
    later_tick: u64,
    snapshot_overhead: nat,
    later_overhead: nat,
    acknowledgement_overhead: nat,
    later_acknowledgement: nat,
)
    requires
        later_acknowledgement - acknowledgement_overhead == (later_tick - snapshot_tick)
            * 20_000_000 + later_overhead - snapshot_overhead,
    ensures
        nanos_left(input_tick, later_tick, later_overhead, later_acknowledgement) == nanos_left(
            input_tick,
            snapshot_tick,
            snapshot_overhead,
            acknowledgement_overhead,
        ),
{
}

/// Steps of a counter modulo 64 from `old` to `new`.
pub open spec fn counter_steps(old_count: i32, new_count: i32) -> int {
    (new_count - old_count) % 64
}

/// The presses between two states of a counter that steps at each press and
/// each release, and is odd while pressed.
pub open spec fn press_count(old_count: i32, new_count: i32) -> int {
    (counter_steps(old_count, new_count) + if old_count % 2 == 0 {
        1int
    } else {
        0
    }) / 2
}

fn steps(old_count: i32, new_count: i32) -> (r: u64)
    ensures
        r == counter_steps(old_count, new_count),
        r < 64,
{
    let d: i64 = new_count as i64 - old_count as i64;
    if d >= 0 {
        d as u64 % 64
    } else {
        let back: u64 = (-d) as u64 % 64;
        if back == 0 {
            0
        } else {
            64 - back
        }
    }
}

fn is_odd(n: i32) -> (r: bool)
    ensures
        r == (n % 2 != 0),
{
    steps(0, n) % 2 != 0
}

/// The number of presses between two states of a counter.
pub fn presses(old_count: i32, new_count: i32) -> (r: u64)
    ensures
        r == press_count(old_count, new_count),
        r <= 32,
{
    let distance: u64 = steps(old_count, new_count);
    let first: u64 = if is_odd(old_count) {
        0
    } else {
        1
    };
    (distance + first) / 2
}

/// The odd numbers among the first `n` after `start`.
pub open spec fn odd_after(start: int, n: nat) -> nat
    decreases n,
{
    if n == 0 {
        0
    } else {
        odd_after(start, (n - 1) as nat) + if (start + n) % 2 != 0 {
            1nat
        } else {
            0
        }
    }
}

proof fn lemma_odd_after(start: int, n: nat)
    ensures
        odd_after(start, n) == (n + if start % 2 == 0 {
            1int
        } else {
            0
        }) / 2,
    decreases n,
{
    if n > 0 {
        lemma_odd_after(start, (n - 1) as nat);
    }
}

/// Every step onto an odd count is a press, also where the counter wraps.
pub proof fn presses_are_steps_onto_odd_counts(old_count: i32, new_count: i32)
    ensures
        press_count(old_count, new_count) == odd_after(
            old_count as int,
            counter_steps(old_count, new_count) as nat,
        ),
{
    lemma_odd_after(old_count as int, counter_steps(old_count, new_count) as nat);
}

/// Releases alone are no presses.
pub proof fn release_is_no_press(old_count: i32, new_count: i32)
    requires
        old_count % 2 != 0,
        counter_steps(old_count, new_count) <= 1,
    ensures
        press_count(old_count, new_count) == 0,
{
}

/// One input of the old protocol.
#[derive(Clone, Copy, Debug, PartialEq, Eq, Structural)]
pub struct LegacyInput {
    pub direction: i32,
    pub target_x: i32,
    pub target_y: i32,
    pub jump: i32,
    pub fire: i32,
    pub hook: i32,
    pub player_flags: i32,
    pub wanted_weapon: i32,
    pub next_weapon: i32,
    pub prev_weapon: i32,
}

impl Default for LegacyInput {
    fn default() -> (r: Self)
        ensures
            r == (LegacyInput {
                direction: 0,
                target_x: 0,
                target_y: 0,
                jump: 0,
                fire: 0,
                hook: 0,
                player_flags: 0,
                wanted_weapon: 0,
                next_weapon: 0,
                prev_weapon: 0,
            }),
    {
        LegacyInput {
            direction: 0,
            target_x: 0,
            target_y: 0,
            jump: 0,
            fire: 0,
            hook: 0,
            player_flags: 0,
            wanted_weapon: 0,
            next_weapon: 0,
            prev_weapon: 0,
        }
    }
}

/// What one input says in terms of the native protocol: the state of the
/// controls, and how often each was used since the input before. The cursor
/// is in 32nds of a tile.
#[derive(Clone, Copy, Debug, PartialEq, Eq, Structural)]
pub struct TranslatedInput {
    pub cursor_x: i32,
    pub cursor_y: i32,
    pub menu_ui: bool,
    pub chatting: bool,
    pub scoreboard: bool,
    pub hook_collision_line: bool,
    pub dir: i32,
    pub jump: bool,
    pub hook: bool,
    pub fire: bool,
    pub jumps: u64,
    pub hooks: u64,
    pub fires: u64,
    pub weapon_diff: i64,
    pub weapon_req: Option<WeaponType>,
}

/// The native input as it stands: the latest input, and how often each
/// control was used since the start of the game. `version` counts the inputs.
/// Counts start over where the native ones do.
#[derive(Clone, Copy, Debug, PartialEq, Eq, Structural)]
pub struct NativeInput {
    pub latest: TranslatedInput,
    pub jumps: u64,
    pub hooks: u64,
    pub fires: u64,
    pub weapon_diff: i64,
    pub version: u64,
}

/// The native input before the first one.
pub open spec fn no_input() -> NativeInput {
    NativeInput {
        latest: TranslatedInput {
            cursor_x: 0,
            cursor_y: 0,
            menu_ui: false,
            chatting: false,
            scoreboard: false,
            hook_collision_line: false,
            dir: 0,
            jump: false,
            hook: false,
            fire: false,
            jumps: 0,
            hooks: 0,
            fires: 0,
            weapon_diff: 0,
            weapon_req: None,
        },
        jumps: 0,
        hooks: 0,
        fires: 0,
        weapon_diff: 0,
        version: 0,
    }
}

impl Default for NativeInput {
    fn default() -> (r: Self)
        ensures
            r == no_input(),
    {
        NativeInput {
            latest: TranslatedInput {
                cursor_x: 0,
                cursor_y: 0,
                menu_ui: false,
                chatting: false,
                scoreboard: false,
                hook_collision_line: false,
                dir: 0,
                jump: false,
                hook: false,
                fire: false,
                jumps: 0,
                hooks: 0,
                fires: 0,
                weapon_diff: 0,
                weapon_req: None,
            },
            jumps: 0,
            hooks: 0,
            fires: 0,
            weapon_diff: 0,
            version: 0,
        }
    }
}

/// A count after `n` more.
pub open spec fn counted(total: u64, n: u64) -> u64 {
    ((total + n) % 0x1_0000_0000_0000_0000) as u64
}

/// A position in the list of weapons, `n` further on.
pub open spec fn moved(total: i64, n: i64) -> i64 {
    if total + n > i64::MAX {
        (total + n - 0x1_0000_0000_0000_0000) as i64
    } else if total + n < i64::MIN {
        (total + n + 0x1_0000_0000_0000_0000) as i64
    } else {
        (total + n) as i64
    }
}

/// The native input after one more input.
pub open spec fn accumulated(current: NativeInput, latest: TranslatedInput) -> NativeInput {
    NativeInput {
        latest,
        jumps: counted(current.jumps, latest.jumps),
        hooks: counted(current.hooks, latest.hooks),
        fires: counted(current.fires, latest.fires),
        weapon_diff: moved(current.weapon_diff, latest.weapon_diff),
        version: counted(current.version, 1),
    }
}

fn count(total: u64, n: u64) -> (r: u64)
    ensures
        r == counted(total, n),
{
    total.wrapping_add(n)
}

fn accumulate(current: NativeInput, latest: TranslatedInput) -> (r: NativeInput)
    ensures
        r == accumulated(current, latest),
{
    NativeInput {
        latest,
        jumps: count(current.jumps, latest.jumps),
        hooks: count(current.hooks, latest.hooks),
        fires: count(current.fires, latest.fires),
        weapon_diff: current.weapon_diff.wrapping_add(latest.weapon_diff),
        version: count(current.version, 1),
    }
}

/// The weapon that a slot number asks for.
pub open spec fn requested(wanted: i32, race: bool) -> Option<WeaponType> {
    if wanted == 1 {
        Some(WeaponType::Hammer)
    } else if wanted == 2 {
        Some(WeaponType::Gun)
    } else if wanted == 3 {
        Some(
            if race {
                WeaponType::Puller
            } else {
                WeaponType::Shotgun
            },
        )
    } else if wanted == 4 {
        Some(WeaponType::Grenade)
    } else if wanted == 5 {
        Some(WeaponType::Laser)
    } else {
        None
    }
}

/// The translation of an input that follows `previous`. A weapon is asked
/// for one input late: it is the one that the input before wanted.
pub open spec fn translated(previous: LegacyInput, input: LegacyInput, race: bool) -> TranslatedInput {
    TranslatedInput {
        cursor_x: input.target_x,
        cursor_y: input.target_y,
        menu_ui: input.player_flags & 2 != 0,
        chatting: input.player_flags & 4 != 0,
        scoreboard: input.player_flags & 8 != 0,
        hook_collision_line: input.player_flags & 16 != 0,
        dir: if input.direction < -1 {
            -1i32
        } else if input.direction > 1 {
            1i32
        } else {
            input.direction
        },
        jump: input.jump != 0,
        hook: input.hook != 0,
        fire: input.fire % 2 != 0,
        jumps: if input.jump != 0 && previous.jump == 0 {
            1
        } else {
            0
        },
        hooks: if input.hook != 0 && previous.hook == 0 {
            1
        } else {
            0
        },
        fires: press_count(previous.fire, input.fire) as u64,
        weapon_diff: (press_count(previous.next_weapon, input.next_weapon) - press_count(
            previous.prev_weapon,
            input.prev_weapon,
        )) as i64,
        weapon_req: if input.wanted_weapon != 0 {
            requested(previous.wanted_weapon, race)
        } else {
            None
        },
    }
}

/// The input state of one client. Legacy counters wrap at 64; the native
/// protocol counts clicks.
#[derive(Clone, Copy, Debug, PartialEq, Eq)]
pub struct Inputs {
    pub previous: LegacyInput,
    pub race: bool,
    pub current: NativeInput,
    pub last_tick: Option<i32>,
}

impl Default for Inputs {
    fn default() -> (r: Self)
        ensures
            r.last_tick is None,
            !r.race,
            r.current == no_input(),
            call_ensures(LegacyInput::default, (), r.previous),
    {
        Inputs {
            previous: LegacyInput::default(),
            race: false,
            current: NativeInput::default(),
            last_tick: None,
        }
    }
}

/// The input is out of date: it is for an earlier tick than the last one, or
/// repeats it.
pub open spec fn outdated(inputs: Inputs, tick: i32, input: LegacyInput) -> bool {
    inputs.last_tick matches Some(last) && (tick < last || (tick == last && input
        == inputs.previous))
}

/// The input state after an input that is not out of date.
pub open spec fn advanced(inputs: Inputs, tick: i32, input: LegacyInput) -> Inputs {
    Inputs {
        previous: input,
        race: inputs.race,
        current: accumulated(inputs.current, translated(inputs.previous, input, inputs.race)),
        last_tick: Some(tick),
    }
}

impl Inputs {
    /// Translates an input for `tick`, unless it is out of date.
    pub fn translate(&mut self, tick: i32, input: LegacyInput) -> (r: Option<NativeInput>)
        ensures
            if outdated(*old(self), tick, input) {
                r is None && *final(self) == *old(self)
            } else {
                r == Some(final(self).current) && *final(self) == advanced(*old(self), tick, input)
            },
    {
        if let Some(last) = self.last_tick {
            if tick < last || (tick == last && input == self.previous) {
                return None;
            }
        }
        let previous = self.previous;
        let weapon_req = if input.wanted_weapon != 0 {
            match previous.wanted_weapon {
                1 => Some(WeaponType::Hammer),
                2 => Some(WeaponType::Gun),
                3 => Some(
                    if self.race {
                        WeaponType::Puller
                    } else {
                        WeaponType::Shotgun
                    },
                ),
                4 => Some(WeaponType::Grenade),
                5 => Some(WeaponType::Laser),
                _ => None,
            }
        } else {
            None
        };
        let next: u64 = presses(previous.next_weapon, input.next_weapon);
        let prev: u64 = presses(previous.prev_weapon, input.prev_weapon);
        let latest = TranslatedInput {
            cursor_x: input.target_x,
            cursor_y: input.target_y,
            menu_ui: input.player_flags & 2 != 0,
            chatting: input.player_flags & 4 != 0,
            scoreboard: input.player_flags & 8 != 0,
            hook_collision_line: input.player_flags & 16 != 0,
            dir: if input.direction < -1 {
                -1
            } else if input.direction > 1 {
                1
            } else {
                input.direction
            },
            jump: input.jump != 0,
            hook: input.hook != 0,
            fire: is_odd(input.fire),
            jumps: if input.jump != 0 && previous.jump == 0 {
                1
            } else {
                0
            },
            hooks: if input.hook != 0 && previous.hook == 0 {
                1
            } else {
                0
            },
            fires: presses(previous.fire, input.fire),
            weapon_diff: next as i64 - prev as i64,
            weapon_req,
        };
        self.current = accumulate(self.current, latest);
        self.last_tick = Some(tick);
        self.previous = input;
        Some(self.current)
    }
}

/// Ticks never go back: after an input for `tick` was handed in, the latest
/// tick is at least as late as `tick` and as the one before.
pub proof fn input_ticks_never_go_back(before: Inputs, tick: i32, input: LegacyInput)
    ensures
        !outdated(before, tick, input) ==> (before.last_tick matches Some(last) ==> last <= tick),
        outdated(before, tick, input) ==> (before.last_tick matches Some(last) && tick <= last),
{
}

/// Repeating an input for the same tick is ignored.
pub proof fn repeated_input_is_ignored(before: Inputs, tick: i32, input: LegacyInput)
    ensures
        outdated(advanced(before, tick, input), tick, input),
{
}

/// An input that was handed in, with its tick.
pub struct Timed {
    pub tick: i32,
    pub input: LegacyInput,
}

/// The input state after a list of inputs was handed in one after the other.
pub open spec fn after_all(inputs: Inputs, list: Seq<Timed>) -> Inputs
    decreases list.len(),
{
    if list.len() == 0 {
        inputs
    } else {
        let before = after_all(inputs, list.drop_last());
        let last = list.last();
        if outdated(before, last.tick, last.input) {
            before
        } else {
            advanced(before, last.tick, last.input)
        }
    }
}

/// The inputs of a list that are not out of date when they come.
pub open spec fn taken(inputs: Inputs, list: Seq<Timed>) -> Seq<Timed>
    decreases list.len(),
{
    if list.len() == 0 {
        seq![]
    } else {
        let before = after_all(inputs, list.drop_last());
        let head = taken(inputs, list.drop_last());
        if outdated(before, list.last().tick, list.last().input) {
            head
        } else {
            head.push(list.last())
        }
    }
}

/// Inputs that are out of date leave no trace: the state is the one that the
/// others alone would have led to.
pub proof fn outdated_inputs_leave_no_trace(inputs: Inputs, list: Seq<Timed>)
    ensures
        after_all(inputs, taken(inputs, list)) == after_all(inputs, list),
        taken(inputs, taken(inputs, list)) == taken(inputs, list),
    decreases list.len(),
{
    if list.len() > 0 {
        let head = taken(inputs, list.drop_last());
        outdated_inputs_leave_no_trace(inputs, list.drop_last());
        assert(head.push(list.last()).drop_last() =~= head);
    }
}

/// The last tick and the last input that were taken are the ones that the
/// next input is held against.
pub proof fn last_taken_input_decides(inputs: Inputs, list: Seq<Timed>)
    ensures
        ({
            let after = after_all(inputs, list);
            let kept = taken(inputs, list);
            if kept.len() == 0 {
                after == inputs
            } else {
                &&& after.last_tick == Some(kept.last().tick)
                &&& after.previous == kept.last().input
            }
        }),
    decreases list.len(),
{
    if list.len() > 0 {
        last_taken_input_decides(inputs, list.drop_last());
    }
}

/// The presses in a list of inputs that follow `previous`.
pub open spec fn total_presses(previous: LegacyInput, list: Seq<Timed>) -> nat
    decreases list.len(),
{
    if list.len() == 0 {
        0
    } else {
        let before = if list.len() == 1 {
            previous
        } else {
            list[list.len() - 2].input
        };
        total_presses(previous, list.drop_last()) + press_count(
            before.fire,
            list.last().input.fire,
        ) as nat
    }
}

/// The native input counts every press of the inputs that were taken, and
/// each of these once.
#[verifier::spinoff_prover]
#[verifier::rlimit(60)]
pub proof fn native_input_counts_all_presses(inputs: Inputs, list: Seq<Timed>)
    ensures
        after_all(inputs, list).current.fires == (inputs.current.fires + total_presses(
            inputs.previous,
            taken(inputs, list),
        )) % 0x1_0000_0000_0000_0000,
        after_all(inputs, list).current.version == (inputs.current.version + taken(
            inputs,
            list,
        ).len()) % 0x1_0000_0000_0000_0000,
    decreases list.len(),
{
    if list.len() > 0 {
        let head = list.drop_last();
        native_input_counts_all_presses(inputs, head);
        last_taken_input_decides(inputs, head);
        let before = after_all(inputs, head);
        let kept = taken(inputs, head);
        let last = list.last();
        let longer = kept.push(last);
        assert(longer.drop_last() =~= kept);
        if kept.len() > 0 {
            assert(longer[kept.len() - 1] == kept.last());
        }
        if !outdated(before, last.tick, last.input) {
            let presses = press_count(before.previous.fire, last.input.fire);
            let total = total_presses(inputs.previous, kept);
            assert(total_presses(inputs.previous, longer) == total + presses);
            lemma_counted(inputs.current.fires + total, before.current.fires, presses as u64);
            lemma_counted(inputs.current.version + kept.len(), before.current.version, 1);
        }
    }
}

proof fn lemma_counted(sum: int, total: u64, n: u64)
    requires
        total == sum % 0x1_0000_0000_0000_0000,
    ensures
        counted(total, n) == (sum + n) % 0x1_0000_0000_0000_0000,
{
    vstd::arithmetic::div_mod::lemma_add_mod_noop(sum, n as int, 0x1_0000_0000_0000_0000);
}

/// An input is ignored exactly if it is for an earlier tick than the last one
/// that was taken, or the same as it for the same tick. Then nothing changes.
/// One that is taken is remembered with its tick, and the native input is
/// handed out as it stands after it.
pub proof fn only_new_inputs_are_taken(
    s: &mut Inputs,
    tick: i32,
    input: LegacyInput,
    r: Option<NativeInput>,
)
    requires
        call_ensures(Inputs::translate, (s, tick, input), r),
    ensures
        r is None <==> (old(s).last_tick matches Some(last) && (tick < last || (tick == last
            && input == old(s).previous))),
        r is None ==> *final(s) == *old(s),
        r is Some ==> final(s).last_tick == Some(tick) && final(s).previous == input && r == Some(
            final(s).current,
        ),
        final(s).race == old(s).race,
{
}

/// The native direction is the legacy one, limited to one step to either
/// side. The cursor is where the client aims.
pub proof fn direction_and_aim_are_kept(
    s: &mut Inputs,
    tick: i32,
    input: LegacyInput,
    r: Option<NativeInput>,
)
    requires
        call_ensures(Inputs::translate, (s, tick, input), r),
    ensures
        r matches Some(native) ==> {
            let dir = native.latest.dir;
            &&& -1 <= dir <= 1
            &&& -1 <= input.direction <= 1 ==> dir == input.direction
            &&& dir < 0 <==> input.direction < 0
            &&& dir > 0 <==> input.direction > 0
            &&& native.latest.cursor_x == input.target_x
            &&& native.latest.cursor_y == input.target_y
        },
{
}

/// Jump and hook are held while they are not zero, fire while its counter is
/// odd, and each of the four player flags has its own bit.
pub proof fn held_controls_are_kept(
    s: &mut Inputs,
    tick: i32,
    input: LegacyInput,
    r: Option<NativeInput>,
)
    requires
        call_ensures(Inputs::translate, (s, tick, input), r),
    ensures
        r matches Some(native) ==> {
            let held = native.latest;
            &&& held.jump <==> input.jump != 0
            &&& held.hook <==> input.hook != 0
            &&& held.fire <==> input.fire % 2 == 1
            &&& held.menu_ui <==> input.player_flags & 2 == 2
            &&& held.chatting <==> input.player_flags & 4 == 4
            &&& held.scoreboard <==> input.player_flags & 8 == 8
            &&& held.hook_collision_line <==> input.player_flags & 16 == 16
        },
{
    let flags = input.player_flags;
    assert(flags & 2 == 2 || flags & 2 == 0) by (bit_vector);
    assert(flags & 4 == 4 || flags & 4 == 0) by (bit_vector);
    assert(flags & 8 == 8 || flags & 8 == 0) by (bit_vector);
    assert(flags & 16 == 16 || flags & 16 == 0) by (bit_vector);
}

/// Since the input before, jump and hook were used once if they are held now
/// and were not then.
pub proof fn jumps_and_hooks_count_new_presses(
    s: &mut Inputs,
    tick: i32,
    input: LegacyInput,
    r: Option<NativeInput>,
)
    requires
        call_ensures(Inputs::translate, (s, tick, input), r),
    ensures
        r matches Some(native) ==> {
            let before = old(s).current;
            let jumped: int = if old(s).previous.jump == 0 && input.jump != 0 {
                1
            } else {
                0
            };
            let hooked: int = if old(s).previous.hook == 0 && input.hook != 0 {
                1
            } else {
                0
            };
            &&& native.latest.jumps == jumped
            &&& native.latest.hooks == hooked
            &&& before.jumps + jumped <= u64::MAX ==> native.jumps == before.jumps + jumped
            &&& before.hooks + hooked <= u64::MAX ==> native.hooks == before.hooks + hooked
            &&& before.version < u64::MAX ==> native.version == before.version + 1
        },
{
}

/// Fire was pressed as often as its counter stepped onto an odd number on the
/// way from the input before, and the weapon was moved by the presses of the
/// key for the next one less those of the key for the one before.
pub proof fn counters_count_presses(
    s: &mut Inputs,
    tick: i32,
    input: LegacyInput,
    r: Option<NativeInput>,
    fire: nat,
    next: nat,
    prev: nat,
)
    requires
        call_ensures(Inputs::translate, (s, tick, input), r),
        fire < 64 && (old(s).previous.fire + fire - input.fire) % 64 == 0,
        next < 64 && (old(s).previous.next_weapon + next - input.next_weapon) % 64 == 0,
        prev < 64 && (old(s).previous.prev_weapon + prev - input.prev_weapon) % 64 == 0,
    ensures
        r matches Some(native) ==> {
            let before = old(s).current;
            let shots = odd_after(old(s).previous.fire as int, fire);
            let moves = odd_after(old(s).previous.next_weapon as int, next) - odd_after(
                old(s).previous.prev_weapon as int,
                prev,
            );
            &&& native.latest.fires == shots
            &&& before.fires + shots <= u64::MAX ==> native.fires == before.fires + shots
            &&& native.latest.weapon_diff == moves
            &&& i64::MIN <= before.weapon_diff + moves <= i64::MAX ==> native.weapon_diff
                == before.weapon_diff + moves
        },
{
    lemma_presses(old(s).previous.fire, input.fire, fire);
    lemma_presses(old(s).previous.next_weapon, input.next_weapon, next);
    lemma_presses(old(s).previous.prev_weapon, input.prev_weapon, prev);
}

proof fn lemma_presses(old_count: i32, new_count: i32, n: nat)
    requires
        n < 64 && (old_count + n - new_count) % 64 == 0,
    ensures
        press_count(old_count, new_count) == odd_after(old_count as int, n),
        odd_after(old_count as int, n) <= 32,
{
    lemma_odd_after(old_count as int, n);
    assert(counter_steps(old_count, new_count) == n);
}

/// The presses of a counter are its steps onto odd numbers.
pub proof fn presses_are_counted(old_count: i32, new_count: i32, r: u64, n: nat)
    requires
        call_ensures(presses, (old_count, new_count), r),
        n < 64 && (old_count + n - new_count) % 64 == 0,
    ensures
        r == odd_after(old_count as int, n),
{
    lemma_presses(old_count, new_count, n);
}

/// A weapon is asked for only while the client wants one, and it is the one
/// that the input before wanted: hammer, gun, shotgun, grenade and laser by
/// their numbers from one on. In a race the third is the puller.
pub proof fn wanted_weapon_of_the_input_before_is_requested(
    s: &mut Inputs,
    tick: i32,
    input: LegacyInput,
    r: Option<NativeInput>,
)
    requires
        call_ensures(Inputs::translate, (s, tick, input), r),
    ensures
        r matches Some(native) ==> {
            let wanted = old(s).previous.wanted_weapon;
            let asked = native.latest.weapon_req;
            &&& asked is Some <==> input.wanted_weapon != 0 && 1 <= wanted <= 5
            &&& asked == Some(WeaponType::Hammer) <==> input.wanted_weapon != 0 && wanted == 1
            &&& asked == Some(WeaponType::Gun) <==> input.wanted_weapon != 0 && wanted == 2
            &&& asked == Some(WeaponType::Shotgun) <==> input.wanted_weapon != 0 && wanted == 3
                && !old(s).race
            &&& asked == Some(WeaponType::Puller) <==> input.wanted_weapon != 0 && wanted == 3
                && old(s).race
            &&& asked == Some(WeaponType::Grenade) <==> input.wanted_weapon != 0 && wanted == 4
            &&& asked == Some(WeaponType::Laser) <==> input.wanted_weapon != 0 && wanted == 5
        },
{
}

/// The time that is left is that from the arrival to the tick in whole
/// milliseconds, cut toward zero, where that fits into 32 bits: ticks are 20
/// milliseconds apart, the delay of the snapshot shortens it and the age of
/// the acknowledgement lengthens it.
pub proof fn time_left_is_cut_toward_zero(
    input_tick: u64,
    snapshot_tick: u64,
    snapshot_overhead: Duration,
    acknowledgement_overhead: Duration,
    r: i32,
)
    requires
        call_ensures(
            time_left,
            (input_tick, snapshot_tick, snapshot_overhead, acknowledgement_overhead),
            r,
        ),
    ensures
        ({
            let nanos = (input_tick - snapshot_tick) * 20_000_000 + duration_nanos(
                acknowledgement_overhead,
            ) - duration_nanos(snapshot_overhead);
            &&& nanos >= 0 && r < i32::MAX ==> 0 <= nanos - r * 1_000_000 < 1_000_000
            &&& nanos <= 0 && r > i32::MIN ==> -1_000_000 < nanos - r * 1_000_000 <= 0
            &&& r == i32::MAX ==> nanos >= i32::MAX * 1_000_000
            &&& r == i32::MIN ==> nanos <= i32::MIN * 1_000_000
        }),
{
}

/// A later tick never leaves less time.
pub proof fn later_ticks_leave_more_time(
    a: u64,
    b: u64,
    snapshot_tick: u64,
    snapshot_overhead: Duration,
    acknowledgement_overhead: Duration,
    left_a: i32,
    left_b: i32,
)
    requires
        a <= b,
        call_ensures(
            time_left,
            (a, snapshot_tick, snapshot_overhead, acknowledgement_overhead),
            left_a,
        ),
        call_ensures(
            time_left,
            (b, snapshot_tick, snapshot_overhead, acknowledgement_overhead),
            left_b,
        ),
    ensures
        left_a <= left_b,
{
}

} // verus!
