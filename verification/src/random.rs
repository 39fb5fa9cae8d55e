//! Where a replacement collectible appears: a random place inside the play
//! field.

use rand::rngs::ThreadRng;
use rand::Rng;
use vstd::prelude::*;

use crate::vector::Vec3;

verus! {

/// Replacements appear no farther than this from the origin along x.
pub const FIELD_HALF_WIDTH: i32 = 600_000;

/// Replacements appear no farther than this from the origin along y.
pub const FIELD_HALF_HEIGHT: i32 = 300_000;

/// `rand::rngs::ThreadRng`, the random number generator of a thread.
#[verifier::external_type_specification]
#[verifier::external_body]
pub struct ExThreadRng(ThreadRng);

/// `rand::rng`: a handle to the generator of the calling thread. Nothing is
/// claimed of it.
pub assume_specification[ rand::rng ]() -> (generator: ThreadRng);

/// `Rng::random_range` on an inclusive range of `i32`: some value of the
/// range. The range must not be empty, or the call panics.
#[verifier::external_body]
fn random_in_range(generator: &mut ThreadRng, low: i32, high: i32) -> (value: i32)
    requires
        low <= high,
    ensures
        low <= value <= high,
{
    generator.random_range(low..=high)
}

/// Whether `position` lies on the ground inside the play field.
pub open spec fn in_field(position: Vec3) -> bool {
    &&& -FIELD_HALF_WIDTH <= position.x <= FIELD_HALF_WIDTH
    &&& -FIELD_HALF_HEIGHT <= position.y <= FIELD_HALF_HEIGHT
    &&& position.z == 0
}

/// Draws a place inside the play field.
pub fn random_position(generator: &mut ThreadRng) -> (position: Vec3)
    ensures
        in_field(position),
{
    let x: i32 = random_in_range(generator, -FIELD_HALF_WIDTH, FIELD_HALF_WIDTH);
    let y: i32 = random_in_range(generator, -FIELD_HALF_HEIGHT, FIELD_HALF_HEIGHT);
    Vec3 { x, y, z: 0 }
}

} // verus!
