//! The movement model that the server applies and every client predicts with.

use vstd::prelude::*;

use crate::vector::{Quat, Vec2, Vec3};

verus! {

/// The acceleration of a player at full input, in world units per second
/// squared.
pub const MAX_ACCELERATION: i32 = 1000;

/// The speed of a player at full input where positions are integrated
/// directly, in world units per second.
pub const MAX_SPEED: i32 = 200;

/// Where an entity is and how it is turned.
#[derive(Clone, Copy, Debug, PartialEq, Eq, Structural)]
pub struct Transform {
    pub translation: Vec3,
    pub rotation: Quat,
}

/// How an entity moves: its linear velocity in the plane and its angular
/// velocity.
#[derive(Clone, Copy, Debug, PartialEq, Eq, Structural)]
pub struct Velocity {
    pub linvel: Vec2,
    pub angvel: i32,
}

/// How an input changes a player.
#[derive(Clone, Copy, Debug, PartialEq, Eq, Structural)]
pub enum MotionModel {
    /// The input accelerates the player; a rigid-body integrator outside this
    /// library turns the velocity into movement.
    Acceleration,
    /// The input moves the player directly, at `MAX_SPEED`.
    Direct,
}

/// One sampled input of a client.
#[derive(Clone, Copy, Debug, PartialEq, Eq, Structural)]
pub struct InputCommand {
    /// The client's own count of inputs, starting at zero.
    pub frame: u32,
    /// The direction held; the simulation clamps it to unit length.
    pub direction: Vec2,
    /// Microseconds elapsed since the previous input.
    pub delta: u32,
}

/// The simulated state of one player.
#[derive(Clone, Copy, Debug, PartialEq, Eq, Structural)]
pub struct PlayerState {
    pub client_id: u64,
    pub transform: Transform,
    pub velocity: Velocity,
}

impl Transform {
    /// The transform of an entity at `translation` that was never turned.
    pub open spec fn at(translation: Vec3) -> Transform {
        Transform { translation, rotation: Quat::identity() }
    }

    /// The transform of an entity at `translation` that was never turned.
    pub fn from_translation(translation: Vec3) -> (transform: Transform)
        ensures
            transform == Transform::at(translation),
    {
        Transform { translation, rotation: Quat::new_identity() }
    }
}

impl Velocity {
    /// The velocity of an entity at rest.
    pub open spec fn rest() -> Velocity {
        Velocity { linvel: Vec2::zero(), angvel: 0 }
    }

    /// The velocity of an entity at rest.
    pub fn at_rest() -> (velocity: Velocity)
        ensures
            velocity == Velocity::rest(),
    {
        Velocity { linvel: Vec2::new_zero(), angvel: 0 }
    }
}

impl PlayerState {
    /// A player of `client_id` at rest at the origin.
    pub open spec fn spawned(client_id: u64) -> PlayerState {
        PlayerState {
            client_id,
            transform: Transform::at(Vec3::origin()),
            velocity: Velocity::rest(),
        }
    }

    /// The state after one input of direction `direction` held for `delta`
    /// microseconds: the direction is clamped to unit length, then either
    /// the velocity gains `direction * MAX_ACCELERATION * delta` or the
    /// position gains `direction * MAX_SPEED * delta`.
    pub open spec fn after_input(self, model: MotionModel, direction: Vec2, delta: u32) -> PlayerState {
        match model {
            MotionModel::Acceleration => PlayerState {
                velocity: Velocity {
                    linvel: self.velocity.linvel.advanced(
                        direction.clamped(),
                        MAX_ACCELERATION as int,
                        delta as int,
                    ),
                    angvel: self.velocity.angvel,
                },
                ..self
            },
            MotionModel::Direct => PlayerState {
                transform: Transform {
                    translation: self.transform.translation.advanced(
                        direction.clamped(),
                        MAX_SPEED as int,
                        delta as int,
                    ),
                    rotation: self.transform.rotation,
                },
                ..self
            },
        }
    }

    /// The state after the first `count` of `inputs`, applied in order.
    pub open spec fn after_inputs(self, model: MotionModel, inputs: Seq<InputCommand>, count: nat) -> PlayerState
        decreases count,
    {
        if count == 0 || count > inputs.len() {
            self
        } else {
            self.after_inputs(model, inputs, (count - 1) as nat).after_input(
                model,
                inputs[count - 1].direction,
                inputs[count - 1].delta,
            )
        }
    }

    /// The state after all of `inputs`, applied in order.
    pub open spec fn replayed(self, model: MotionModel, inputs: Seq<InputCommand>) -> PlayerState {
        self.after_inputs(model, inputs, inputs.len())
    }

    /// A player of `client_id` at rest at the origin.
    pub fn spawn(client_id: u64) -> (state: PlayerState)
        ensures
            state == PlayerState::spawned(client_id),
    {
        PlayerState {
            client_id,
            transform: Transform::from_translation(Vec3::new_origin()),
            velocity: Velocity::at_rest(),
        }
    }

    /// Applies one input.
    pub fn apply_input(self, model: MotionModel, direction: Vec2, delta: u32) -> (next: PlayerState)
        ensures
            next == self.after_input(model, direction, delta),
            next.client_id == self.client_id,
    {
        let clamped = direction.clamp_length_max();
        match model {
            MotionModel::Acceleration => PlayerState {
                client_id: self.client_id,
                transform: self.transform,
                velocity: Velocity {
                    linvel: self.velocity.linvel.advance(clamped, MAX_ACCELERATION, delta),
                    angvel: self.velocity.angvel,
                },
            },
            MotionModel::Direct => PlayerState {
                client_id: self.client_id,
                transform: Transform {
                    translation: self.transform.translation.advance(clamped, MAX_SPEED, delta),
                    rotation: self.transform.rotation,
                },
                velocity: self.velocity,
            },
        }
    }

    /// Applies a list of inputs in order. The result depends on nothing but
    /// the starting state, the model and the inputs.
    pub fn apply_inputs(self, model: MotionModel, inputs: &Vec<InputCommand>) -> (last: PlayerState)
        ensures
            last == self.replayed(model, inputs@),
            last.client_id == self.client_id,
    {
        let mut state = self;
        let mut i: usize = 0;
        while i < inputs.len()
            invariant
                i <= inputs.len(),
                state == self.after_inputs(model, inputs@, i as nat),
                state.client_id == self.client_id,
            decreases inputs.len() - i,
        {
            state = state.apply_input(model, inputs[i].direction, inputs[i].delta);
            i = i + 1;
        }
        state
    }
}

/// Applying a list of inputs gives what applying a first part of it and then
/// the rest gives.
pub proof fn lemma_replay_splits(start: PlayerState, model: MotionModel, first: Seq<InputCommand>, rest: Seq<InputCommand>)
    ensures
        start.replayed(model, first + rest) == start.replayed(model, first).replayed(model, rest),
{
    lemma_replay_prefix(start, model, first, rest, rest.len());
}

/// The state after `first` and then `count` inputs of `rest`.
proof fn lemma_replay_prefix(start: PlayerState, model: MotionModel, first: Seq<InputCommand>, rest: Seq<InputCommand>, count: nat)
    requires
        count <= rest.len(),
    ensures
        start.after_inputs(model, first + rest, first.len() + count) == start.replayed(
            model,
            first,
        ).after_inputs(model, rest, count),
    decreases count,
{
    if count == 0 {
        lemma_replay_ignores_tail(start, model, first, rest, first.len());
    } else {
        lemma_replay_prefix(start, model, first, rest, (count - 1) as nat);
        assert((first + rest)[first.len() + count - 1] == rest[count - 1]);
    }
}

/// The state after `count` inputs does not depend on the inputs behind them.
proof fn lemma_replay_ignores_tail(start: PlayerState, model: MotionModel, first: Seq<InputCommand>, rest: Seq<InputCommand>, count: nat)
    requires
        count <= first.len(),
    ensures
        start.after_inputs(model, first + rest, count) == start.after_inputs(model, first, count),
    decreases count,
{
    if count > 0 {
        lemma_replay_ignores_tail(start, model, first, rest, (count - 1) as nat);
        assert((first + rest)[count - 1] == first[count - 1]);
    }
}

/// What a list of inputs does to a player depends on their directions and
/// durations alone: two lists that agree in these take the same start to the
/// same end, whatever frames they are numbered with.
pub proof fn lemma_replay_is_determined(start: PlayerState, model: MotionModel, inputs: Seq<InputCommand>, others: Seq<InputCommand>, count: nat)
    requires
        inputs.len() == others.len(),
        forall|i: int|
            0 <= i < inputs.len() ==> (#[trigger] inputs[i]).direction == others[i].direction
                && inputs[i].delta == others[i].delta,
    ensures
        start.after_inputs(model, inputs, count) == start.after_inputs(model, others, count),
    decreases count,
{
    if count != 0 && count <= inputs.len() {
        lemma_replay_is_determined(start, model, inputs, others, (count - 1) as nat);
    }
}

/// An input whose direction is no longer than one world unit is applied as
/// it is.
pub proof fn lemma_unit_input_is_unclamped(state: PlayerState, model: MotionModel, direction: Vec2, delta: u32)
    requires
        direction.within_unit(),
    ensures
        direction.clamped() == direction,
        state.after_input(model, direction, delta).client_id == state.client_id,
{
}

/// An input that holds no direction, or lasts no time, changes nothing.
pub proof fn lemma_idle_input_changes_nothing(state: PlayerState, model: MotionModel, direction: Vec2, delta: u32)
    requires
        direction == Vec2::zero() || delta == 0,
    ensures
        state.after_input(model, direction, delta) == state,
{
    let d = direction.clamped();
    crate::vector::lemma_clamped_within_unit(direction);
    if direction == Vec2::zero() {
        assert(direction.length_squared() == 0) by (nonlinear_arith)
            requires
                direction.x == 0,
                direction.y == 0,
        ;
        assert(d == direction);
    }
    let rate: int = match model {
        MotionModel::Acceleration => MAX_ACCELERATION as int,
        MotionModel::Direct => MAX_SPEED as int,
    };
    assert(d.x * rate * delta == 0 && d.y * rate * delta == 0) by (nonlinear_arith)
        requires
            (d.x == 0 && d.y == 0) || delta == 0,
    ;
}

} // verus!
