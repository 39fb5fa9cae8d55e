use netsync::motion::{
    InputCommand, MotionModel, PlayerState, Transform, Velocity, MAX_ACCELERATION, MAX_SPEED,
};
use netsync::vector::{Quat, Vec2, Vec3};

fn command(frame: u32, x: i32, y: i32, delta: u32) -> InputCommand {
    InputCommand { frame, direction: Vec2 { x, y }, delta }
}

#[test]
fn constants_of_the_model() {
    assert_eq!(MAX_ACCELERATION, 1000);
    assert_eq!(MAX_SPEED, 200);
}

#[test]
fn a_spawned_player_rests_at_the_origin() {
    let p = PlayerState::spawn(7);
    assert_eq!(p.client_id, 7);
    assert_eq!(p.transform.translation, Vec3 { x: 0, y: 0, z: 0 });
    assert_eq!(p.transform.rotation, Quat { x: 0, y: 0, z: 0, w: 1000 });
    assert_eq!(p.velocity, Velocity { linvel: Vec2 { x: 0, y: 0 }, angvel: 0 });
    assert_eq!(Velocity::at_rest(), p.velocity);
    assert_eq!(
        Transform::from_translation(Vec3 { x: 1, y: 2, z: 3 }),
        Transform { translation: Vec3 { x: 1, y: 2, z: 3 }, rotation: Quat { x: 0, y: 0, z: 0, w: 1000 } }
    );
}

#[test]
fn acceleration_changes_the_velocity_only() {
    let p = PlayerState::spawn(1);
    let q = p.apply_input(MotionModel::Acceleration, Vec2 { x: 1000, y: 0 }, 16_000);
    assert_eq!(q.velocity.linvel, Vec2 { x: 16_000, y: 0 });
    assert_eq!(q.velocity.angvel, 0);
    assert_eq!(q.transform, p.transform);
    assert_eq!(q.client_id, 1);
}

#[test]
fn direct_movement_changes_the_position_only() {
    let p = PlayerState::spawn(1);
    let q = p.apply_input(MotionModel::Direct, Vec2 { x: 0, y: -1000 }, 16_000);
    assert_eq!(q.transform.translation, Vec3 { x: 0, y: -3200, z: 0 });
    assert_eq!(q.transform.rotation, p.transform.rotation);
    assert_eq!(q.velocity, p.velocity);
}

#[test]
fn an_overlong_direction_is_clamped_before_it_is_applied() {
    let p = PlayerState::spawn(1);
    let q = p.apply_input(MotionModel::Acceleration, Vec2 { x: 3000, y: 4000 }, 1_000_000);
    assert_eq!(q.velocity.linvel, Vec2 { x: 600_000, y: 800_000 });
    let r = p.apply_input(MotionModel::Acceleration, Vec2 { x: 600, y: 800 }, 1_000_000);
    assert_eq!(q, r);
}

#[test]
fn an_idle_input_changes_nothing() {
    let p = PlayerState::spawn(3).apply_input(MotionModel::Direct, Vec2 { x: 1000, y: 0 }, 5000);
    assert_eq!(p.apply_input(MotionModel::Direct, Vec2 { x: 0, y: 0 }, 16_000), p);
    assert_eq!(p.apply_input(MotionModel::Direct, Vec2 { x: 1000, y: 0 }, 0), p);
    assert_eq!(p.apply_input(MotionModel::Acceleration, Vec2 { x: 0, y: 0 }, 16_000), p);
}

#[test]
fn replaying_the_same_inputs_gives_the_same_result() {
    let inputs = vec![
        command(0, 1000, 0, 16_000),
        command(1, 707, 707, 16_667),
        command(2, 0, -1000, 33_000),
        command(3, -1000, 0, 1),
        command(4, 5000, 5000, 16_000),
    ];
    for model in [MotionModel::Acceleration, MotionModel::Direct] {
        let start = PlayerState::spawn(9);
        let first = start.apply_inputs(model, &inputs);
        let second = start.apply_inputs(model, &inputs);
        assert_eq!(first, second);
        let mut by_hand = start;
        for c in &inputs {
            by_hand = by_hand.apply_input(model, c.direction, c.delta);
        }
        assert_eq!(first, by_hand);
    }
}

#[test]
fn replaying_gives_the_expected_position() {
    let inputs = vec![command(0, 1000, 0, 16_000), command(1, 1000, 0, 16_000), command(2, 0, 1000, 10_000)];
    let end = PlayerState::spawn(9).apply_inputs(MotionModel::Direct, &inputs);
    assert_eq!(end.transform.translation, Vec3 { x: 6400, y: 2000, z: 0 });
    let end = PlayerState::spawn(9).apply_inputs(MotionModel::Acceleration, &inputs);
    assert_eq!(end.velocity.linvel, Vec2 { x: 32_000, y: 10_000 });
    assert_eq!(end.transform.translation, Vec3 { x: 0, y: 0, z: 0 });
}

#[test]
fn replaying_in_two_parts_gives_the_same_result() {
    let first = vec![command(0, 1000, 0, 16_000), command(1, 707, 707, 16_667)];
    let rest = vec![command(2, 0, -1000, 33_000), command(3, -600, 800, 7)];
    let mut all = first.clone();
    all.extend(rest.iter().copied());
    let start = PlayerState::spawn(2);
    let whole = start.apply_inputs(MotionModel::Direct, &all);
    let parts = start.apply_inputs(MotionModel::Direct, &first).apply_inputs(MotionModel::Direct, &rest);
    assert_eq!(whole, parts);
}

#[test]
fn the_frame_of_an_input_does_not_matter() {
    let a = vec![command(0, 1000, 0, 16_000), command(1, 0, 1000, 16_000)];
    let b = vec![command(70, 1000, 0, 16_000), command(3, 0, 1000, 16_000)];
    let start = PlayerState::spawn(2);
    assert_eq!(
        start.apply_inputs(MotionModel::Acceleration, &a),
        start.apply_inputs(MotionModel::Acceleration, &b)
    );
}

#[test]
fn no_inputs_leave_the_player_where_it_is() {
    let start = PlayerState::spawn(2);
    assert_eq!(start.apply_inputs(MotionModel::Direct, &Vec::new()), start);
}
