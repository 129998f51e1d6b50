use ddnet_rs::legacy::input::{presses, time_left, Inputs, LegacyInput, NativeInput};
use ddnet_rs::legacy::world::WeaponType;
use std::time::Duration;

#[test]
fn timing_uses_backend_arrival_instead_of_last_received_snapshot() {
    // Snapshot tick 100 was sent 5ms late. Input arrived 15ms before that.
    assert_eq!(
        time_left(
            101,
            100,
            Duration::from_millis(5),
            Duration::from_millis(15)
        ),
        30
    );
    assert_eq!(
        time_left(99, 100, Duration::from_millis(5), Duration::from_millis(2)),
        -23
    );
    // A later acknowledgement of the same arrival gives the same result.
    assert_eq!(
        time_left(
            101,
            102,
            Duration::from_millis(5),
            Duration::from_millis(55)
        ),
        30
    );
}

#[test]
fn timing_is_cut_toward_zero_and_limited() {
    assert_eq!(time_left(0, 0, Duration::from_micros(1500), Duration::ZERO), -1);
    assert_eq!(time_left(0, 0, Duration::ZERO, Duration::from_micros(1500)), 1);
    assert_eq!(time_left(u64::MAX, 0, Duration::ZERO, Duration::ZERO), i32::MAX);
    assert_eq!(time_left(0, u64::MAX, Duration::MAX, Duration::ZERO), i32::MIN);
    assert_eq!(time_left(0, 0, Duration::ZERO, Duration::MAX), i32::MAX);
}

#[test]
fn repeated_target_weapon_fire_keeps_requesting_shotgun() {
    for (race, weapon) in [(false, WeaponType::Shotgun), (true, WeaponType::Puller)] {
        let mut inputs = Inputs {
            race,
            ..Default::default()
        };
        let first = inputs
            .translate(
                10,
                LegacyInput {
                    wanted_weapon: 3,
                    fire: 1,
                    ..Default::default()
                },
            )
            .unwrap();
        let next = inputs
            .translate(
                11,
                LegacyInput {
                    wanted_weapon: 3,
                    fire: 3,
                    ..Default::default()
                },
            )
            .unwrap();
        assert_eq!(next.latest.weapon_req, Some(weapon));
        assert!(next.fires - first.fires > 0);
    }
}

#[test]
fn weapon_switch_matches_ddnet_direct_input_order() {
    for wanted_weapon in [3, 4] {
        let mut inputs = Inputs::default();
        inputs
            .translate(
                1,
                LegacyInput {
                    wanted_weapon: 1,
                    ..Default::default()
                },
            )
            .unwrap();
        for (tick, wanted, fire, expected) in [
            (2, 1, 0, Some(WeaponType::Hammer)),
            (3, wanted_weapon, 1, Some(WeaponType::Hammer)),
            (
                4,
                wanted_weapon,
                1,
                Some(if wanted_weapon == 3 {
                    WeaponType::Shotgun
                } else {
                    WeaponType::Grenade
                }),
            ),
            (5, 0, 2, None),
        ] {
            let current = inputs
                .translate(
                    tick,
                    LegacyInput {
                        wanted_weapon: wanted,
                        fire,
                        ..Default::default()
                    },
                )
                .unwrap();
            assert_eq!(current.latest.weapon_req, expected);
        }
    }
}

#[test]
fn counts_wrapped_edges_and_ignores_old_packets() {
    assert_eq!(presses(62, 1), 2);
    assert_eq!(presses(1, 2), 0);
    let mut inputs = Inputs::default();
    let raw = LegacyInput {
        fire: 1,
        ..Default::default()
    };
    let first = inputs.translate(10, raw).unwrap();
    assert_eq!(first.fires, 1);
    assert!(inputs.translate(9, raw).is_none());
    assert!(inputs.translate(10, raw).is_none());
    let second = inputs.translate(11, raw).unwrap();
    assert_eq!(second.fires - first.fires, 0);
}

#[test]
fn native_input_adds_up() {
    let mut inputs = Inputs::default();
    assert_eq!(inputs.current, NativeInput::default());
    let raw = |fire, jump, next_weapon| LegacyInput {
        fire,
        jump,
        next_weapon,
        ..Default::default()
    };
    inputs.translate(1, raw(1, 1, 1)).unwrap();
    inputs.translate(2, raw(4, 0, 2)).unwrap();
    let before = inputs;
    assert_eq!(inputs.translate(1, raw(9, 1, 9)), None);
    assert_eq!(inputs, before);
    let current = inputs.translate(3, raw(5, 1, 5)).unwrap();
    assert_eq!(current, inputs.current);
    assert_eq!(
        (current.fires, current.jumps, current.hooks, current.weapon_diff, current.version),
        (3, 2, 0, 3, 3)
    );
    assert_eq!((current.latest.fires, current.latest.jumps), (1, 1));
    inputs.current.fires = u64::MAX;
    assert_eq!(inputs.translate(4, raw(7, 1, 5)).unwrap().fires, 0);
}

#[test]
fn presses_count_steps_onto_odd_counts() {
    assert_eq!(presses(0, 0), 0);
    assert_eq!(presses(0, 1), 1);
    assert_eq!(presses(0, 63), 32);
    assert_eq!(presses(1, 0), 31);
    assert_eq!(presses(i32::MAX, i32::MIN), 0);
    assert_eq!(presses(-1, 0), 0);
    assert_eq!(presses(-2, -1), 1);
}

#[test]
fn input_state_and_flags_are_translated() {
    let mut inputs = Inputs::default();
    let out = inputs
        .translate(
            5,
            LegacyInput {
                direction: -7,
                target_x: 320,
                target_y: 64,
                jump: 1,
                hook: 3,
                fire: 1,
                player_flags: 2 | 8,
                next_weapon: 2,
                prev_weapon: 1,
                ..Default::default()
            },
        )
        .unwrap()
        .latest;
    assert_eq!((out.cursor_x, out.cursor_y, out.dir), (320, 64, -1));
    assert!(out.menu_ui && out.scoreboard && !out.chatting && !out.hook_collision_line);
    assert!(out.jump && out.hook && out.fire);
    assert_eq!((out.jumps, out.hooks, out.fires, out.weapon_diff), (1, 1, 1, 0));
    let out = inputs
        .translate(
            5,
            LegacyInput {
                direction: 1,
                jump: 1,
                prev_weapon: 3,
                next_weapon: 2,
                player_flags: 4 | 16,
                ..Default::default()
            },
        )
        .unwrap()
        .latest;
    assert!(out.chatting && out.hook_collision_line);
    assert_eq!((out.dir, out.jumps, out.hooks, out.weapon_diff), (1, 0, 0, -1));
}
