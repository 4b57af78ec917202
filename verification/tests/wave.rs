use std::collections::HashMap;
use wave_poles::poles::{spawn, Neighbour, Pole};
use wave_poles::settings::HardReset;
use wave_poles::wave::{
    apply_angular_velocities, apply_torques, collect_angles, covered, edge, frame,
    neighbour_angle, neighbour_angles,
};

const PI: f32 = std::f32::consts::PI;
const TAU: f32 = std::f32::consts::TAU;

fn wrap(a: f32) -> f32 {
    (a + PI).rem_euclid(TAU) - PI
}

fn close(a: f32, b: f32) -> bool {
    (a - b).abs() < 1e-6
}

#[test]
fn a_free_end_mirrors_the_own_angle() {
    let angles: HashMap<u64, f32> = HashMap::new();
    assert_eq!(neighbour_angle(Neighbour::Empty, false, 0.7, 0.0, &angles), 0.7);
    assert_eq!(neighbour_angle(Neighbour::Empty, false, -2.5, 0.0, &angles), -2.5);
}

#[test]
fn an_anchored_end_is_at_rest() {
    let angles: HashMap<u64, f32> = HashMap::new();
    assert_eq!(neighbour_angle(Neighbour::Empty, true, 0.7, 0.0, &angles), 0.0);
}

#[test]
fn a_neighbour_gives_its_angle_from_the_snapshot() {
    let angles = collect_angles(&vec![(1, 0.25f32), (2, 0.5)]);
    assert_eq!(neighbour_angle(Neighbour::Pole(2), true, 0.25, 0.0, &angles), 0.5);
    assert_eq!(neighbour_angle(Neighbour::Pole(2), false, 0.25, 0.0, &angles), 0.5);
    assert_eq!(neighbour_angle(Neighbour::Pole(1), false, 0.5, 0.0, &angles), 0.25);
}

#[test]
fn the_ends_of_a_pole_are_told_by_its_links() {
    let bottom = Pole {
        below: Neighbour::Empty,
        above: Neighbour::Pole(2),
    };
    let inner = Pole {
        below: Neighbour::Pole(1),
        above: Neighbour::Pole(3),
    };
    let top = Pole {
        below: Neighbour::Pole(2),
        above: Neighbour::Empty,
    };
    let lone = Pole {
        below: Neighbour::Empty,
        above: Neighbour::Empty,
    };
    assert_eq!(edge(&bottom), (true, false));
    assert_eq!(edge(&inner), (false, false));
    assert_eq!(edge(&top), (false, true));
    assert_eq!(edge(&lone), (true, true));
}

#[test]
fn the_last_reading_of_a_pole_counts() {
    let angles = collect_angles(&vec![(1, 10i32), (2, 20), (1, 30)]);
    assert_eq!(angles.len(), 2);
    assert_eq!(angles[&1], 30);
    assert_eq!(angles[&2], 20);
    assert!(collect_angles::<i32>(&vec![]).is_empty());
}

#[test]
fn a_snapshot_covers_a_chain_when_it_holds_every_pole() {
    let chain = spawn(vec![1, 2, 3], &mut HardReset(true)).unwrap();
    assert!(covered(&chain, &collect_angles(&vec![(3, 0.0f32), (1, 0.0), (2, 0.0), (9, 0.0)])));
    assert!(!covered(&chain, &collect_angles(&vec![(1, 0.0f32), (2, 0.0)])));
    assert!(!covered(&chain, &collect_angles::<f32>(&vec![])));
}

#[test]
fn the_middle_of_three_anchored_poles_sees_only_its_neighbours() {
    let chain = spawn(vec![1, 2, 3], &mut HardReset(true)).unwrap();
    let same = collect_angles(&vec![(1, 0.4f32), (2, 0.4), (3, 0.4)]);
    let (below, current, above) = neighbour_angles(2, &chain.pole(1), true, true, 0.0, &same);
    assert_eq!((below, current, above), (0.4, 0.4, 0.4));
    assert_eq!(wrap(above - 2.0 * current + below), 0.0);

    let bent = collect_angles(&vec![(1, 0.1f32), (2, 0.4), (3, 0.9)]);
    let anchored = neighbour_angles(2, &chain.pole(1), true, true, 0.0, &bent);
    let free = neighbour_angles(2, &chain.pole(1), false, false, 0.0, &bent);
    assert_eq!(anchored, (0.1, 0.4, 0.9));
    assert_eq!(free, anchored);
    assert!(close(wrap(anchored.2 - 2.0 * anchored.1 + anchored.0), 0.2));
}

#[test]
fn the_ends_of_three_poles_see_the_anchor_or_themselves() {
    let chain = spawn(vec![1, 2, 3], &mut HardReset(true)).unwrap();
    let angles = collect_angles(&vec![(1, 0.1f32), (2, 0.4), (3, 0.9)]);
    assert_eq!(
        neighbour_angles(1, &chain.pole(0), true, true, 0.0, &angles),
        (0.0, 0.1, 0.4)
    );
    assert_eq!(
        neighbour_angles(1, &chain.pole(0), false, true, 0.0, &angles),
        (0.1, 0.1, 0.4)
    );
    assert_eq!(
        neighbour_angles(3, &chain.pole(2), true, true, 0.0, &angles),
        (0.4, 0.9, 0.0)
    );
    assert_eq!(
        neighbour_angles(3, &chain.pole(2), true, false, 0.0, &angles),
        (0.4, 0.9, 0.9)
    );
}

#[test]
fn the_first_pass_gives_every_pole_its_ends_and_angles() {
    let chain = spawn(vec![7, 8, 9], &mut HardReset(true)).unwrap();
    let angles = collect_angles(&vec![(7, 1i64), (8, 20), (9, 300)]);
    let mut velocities = vec![1000i64, 2000, 3000];
    apply_torques(
        &chain,
        true,
        false,
        -5,
        &angles,
        &mut velocities,
        |(bottom, top), (below, current, above), velocity| {
            velocity + below + 2 * current + 4 * above
                + if bottom { 100_000 } else { 0 }
                + if top { 200_000 } else { 0 }
        },
    );
    assert_eq!(
        velocities,
        vec![
            1000 - 5 + 2 + 80 + 100_000,
            2000 + 1 + 40 + 1200,
            3000 + 20 + 600 + 1200 + 200_000
        ]
    );
}

#[test]
fn the_second_pass_turns_every_pole_by_its_own_velocity() {
    let mut angles = vec![1.0f32, 2.0, 3.0];
    let velocities = vec![0.5f32, -0.5, 0.0];
    apply_angular_velocities(&mut angles, &velocities, |angle, velocity| angle + velocity * 2.0);
    assert_eq!(angles, vec![2.0, 1.0, 3.0]);
}

#[test]
fn a_frame_reads_the_angles_from_before_the_frame() {
    let chain = spawn(vec![1, 2, 3], &mut HardReset(true)).unwrap();
    let mut angles = vec![1i64, 10, 100];
    let mut velocities = vec![0i64, 0, 0];
    frame(
        &chain,
        false,
        false,
        0,
        &mut angles,
        &mut velocities,
        |_, (below, _, above), velocity| velocity + below + above,
        |angle, velocity| angle + velocity,
    );
    assert_eq!(velocities, vec![1 + 10, 1 + 100, 10 + 100]);
    assert_eq!(angles, vec![1 + 11, 10 + 101, 100 + 110]);
}

#[test]
fn one_anchored_pole_swings_back_in_one_frame() {
    let chain = spawn(vec![1], &mut HardReset(true)).unwrap();
    let (stiffness, moment_of_inertia, damping, spacing, delta) = (1.0f32, 1.0f32, 0.0f32, 1.0f32, 1.0f32);
    let mut angles = vec![0.1f32];
    let mut velocities = vec![0.0f32];
    let snapshot = collect_angles(&vec![(1, 0.1f32)]);
    assert_eq!(
        neighbour_angles(1, &chain.pole(0), true, false, 0.0, &snapshot),
        (0.0, 0.1, 0.1)
    );
    frame(
        &chain,
        true,
        false,
        0.0,
        &mut angles,
        &mut velocities,
        |_, (below, current, above), velocity| {
            let wave = wrap(above - 2.0 * current + below) / spacing * stiffness;
            velocity + (wave + velocity * damping) * delta / moment_of_inertia
        },
        |angle, velocity| angle + velocity * delta / spacing,
    );
    assert!(close(velocities[0], -0.1));
    assert!(close(angles[0], 0.0));
}

#[test]
fn a_chain_without_torque_stays_motionless() {
    let chain = spawn(vec![1, 2, 3, 4], &mut HardReset(true)).unwrap();
    let start = vec![0.3f32, -1.2, 2.0, 0.0];
    let mut angles = start.clone();
    let mut velocities = vec![0.0f32; 4];
    for delta in [0.0f32, 0.016, 1.0, 250.0] {
        frame(
            &chain,
            true,
            false,
            0.0,
            &mut angles,
            &mut velocities,
            |_, (below, current, above), velocity| {
                let wave = wrap(above - 2.0 * current + below) / 1.5 * 0.0;
                velocity + (wave + velocity * 0.0) * delta / 0.01
            },
            |angle, velocity| angle + velocity * delta / 1.5,
        );
        assert_eq!(velocities, vec![0.0; 4]);
        assert_eq!(angles, start);
    }
}

#[test]
fn damping_slows_a_single_pole_frame_by_frame() {
    let chain = spawn(vec![1], &mut HardReset(true)).unwrap();
    let mut angles = vec![0.0f32];
    let mut velocities = vec![1.0f32];
    let mut last = 1.0f32;
    for _ in 0..200 {
        frame(
            &chain,
            false,
            false,
            0.0,
            &mut angles,
            &mut velocities,
            |_, _, velocity| velocity + velocity * -0.5 * 0.1 / 1.0,
            |angle, velocity| angle + velocity * 0.1,
        );
        assert!(velocities[0].abs() < last.abs());
        last = velocities[0];
    }
    assert!(last.abs() < 1e-3);
}
