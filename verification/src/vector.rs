//! Fixed-point vectors.
//!
//! Every coordinate is a whole number of thousandths of a world unit, so a
//! vector of length one has a squared length of `UNIT * UNIT`. All arithmetic
//! is exact integer arithmetic; sums that leave the `i32` range saturate.

use vstd::prelude::*;

verus! {

/// The fixed-point scale: this many steps make one world unit.
pub const UNIT: i32 = 1000;

/// A planar vector: a direction or a linear velocity.
#[derive(Clone, Copy, Debug, PartialEq, Eq, Structural)]
pub struct Vec2 {
    pub x: i32,
    pub y: i32,
}

/// A position in the world.
#[derive(Clone, Copy, Debug, PartialEq, Eq, Structural)]
pub struct Vec3 {
    pub x: i32,
    pub y: i32,
    pub z: i32,
}

/// An orientation, carried through the simulation unchanged.
#[derive(Clone, Copy, Debug, PartialEq, Eq, Structural)]
pub struct Quat {
    pub x: i32,
    pub y: i32,
    pub z: i32,
    pub w: i32,
}

/// `v` brought into the range of `i32`.
pub open spec fn saturate(v: int) -> int {
    if v < i32::MIN {
        i32::MIN as int
    } else if v > i32::MAX {
        i32::MAX as int
    } else {
        v
    }
}

/// The quotient of `a` by a positive `b`, rounded toward zero.
pub open spec fn trunc_div(a: int, b: int) -> int {
    if a >= 0 {
        a / b
    } else {
        -((-a) / b)
    }
}

/// Whether `r` is the integer square root of `n`.
pub open spec fn is_isqrt(n: nat, r: nat) -> bool {
    r * r <= n < (r + 1) * (r + 1)
}

/// The integer square root: the largest `r` with `r * r <= n`.
pub open spec fn isqrt(n: nat) -> nat {
    choose|r: nat| is_isqrt(n, r)
}

/// One coordinate of the unit vector along a vector with coordinate `c` and
/// squared length `s`: `c * UNIT / sqrt(s)`, rounded toward zero.
pub open spec fn unit_component(c: int, s: int) -> int {
    let magnitude = isqrt(((c * c * (UNIT * UNIT)) / s) as nat) as int;
    if c >= 0 {
        magnitude
    } else {
        -magnitude
    }
}

/// The halfway point between two coordinates, rounded toward the first.
pub open spec fn midpoint(from: int, toward: int) -> int {
    from + trunc_div(toward - from, 2)
}

/// Every natural number has an integer square root.
pub proof fn lemma_isqrt_exists(n: nat)
    ensures
        is_isqrt(n, isqrt(n)),
    decreases n,
{
    if n == 0 {
        assert(0nat * 0nat <= 0nat < (0nat + 1) * (0nat + 1)) by (nonlinear_arith);
        assert(is_isqrt(0, 0));
    } else {
        lemma_isqrt_exists((n - 1) as nat);
        let r = isqrt((n - 1) as nat);
        if (r + 1) * (r + 1) <= n {
            assert(n < (r + 2) * (r + 2)) by (nonlinear_arith)
                requires
                    n - 1 < (r + 1) * (r + 1),
            ;
            assert(is_isqrt(n, r + 1));
        } else {
            assert(is_isqrt(n, r));
        }
    }
}

/// The integer square root is unique.
pub proof fn lemma_isqrt_unique(n: nat, r: nat)
    requires
        is_isqrt(n, r),
    ensures
        isqrt(n) == r,
{
    let q = isqrt(n);
    assert(is_isqrt(n, q));
    assert(q == r) by (nonlinear_arith)
        requires
            r * r <= n < (r + 1) * (r + 1),
            q * q <= n < (q + 1) * (q + 1),
    ;
}

/// Computes the integer square root by bisection.
pub fn integer_sqrt(n: u64) -> (r: u64)
    ensures
        r == isqrt(n as nat),
        is_isqrt(n as nat, r as nat),
{
    let mut low: u64 = 0;
    let mut high: u64 = 0x1_0000_0000;
    assert(n < high * high) by (nonlinear_arith)
        requires
            high == 0x1_0000_0000,
            n <= u64::MAX,
    ;
    while high - low > 1
        invariant
            low < high <= 0x1_0000_0000,
            low * low <= n,
            n < high * high,
        decreases high - low,
    {
        let middle: u64 = low + (high - low) / 2;
        assert(middle * middle <= 0xffff_ffff * 0xffff_ffff) by (nonlinear_arith)
            requires
                middle <= 0xffff_ffff,
        ;
        if middle * middle <= n {
            low = middle;
        } else {
            high = middle;
        }
    }
    proof {
        assert(high == low + 1);
        lemma_isqrt_unique(n as nat, low as nat);
    }
    low
}

/// The magnitude of a coordinate.
fn magnitude(c: i32) -> (m: u64)
    ensures
        m == (if c >= 0 { c as int } else { -(c as int) }),
        m <= 0x8000_0000,
{
    if c >= 0 {
        c as u64
    } else {
        (-(c as i64)) as u64
    }
}

/// Computes `unit_component` for a coordinate `c` of a vector whose squared
/// length is `s`.
fn unit_coordinate(c: i32, s: u64) -> (r: i32)
    requires
        s > 0,
        c * c <= s,
    ensures
        r == unit_component(c as int, s as int),
        -UNIT <= r <= UNIT,
{
    let m: u64 = magnitude(c);
    let scale: u128 = 1_000_000;
    assert(m * m == c * c) by (nonlinear_arith)
        requires
            m == c || m == -c,
    ;
    assert(m * m <= 0x8000_0000 * 0x8000_0000) by (nonlinear_arith)
        requires
            m <= 0x8000_0000,
    ;
    let square: u128 = (m as u128) * (m as u128);
    assert(square * 1_000_000 <= s * 1_000_000) by (nonlinear_arith)
        requires
            square <= s,
    ;
    let scaled: u128 = square * scale;
    let quotient: u128 = scaled / (s as u128);
    assert(quotient <= 1_000_000) by (nonlinear_arith)
        requires
            quotient == scaled / (s as u128),
            scaled <= s * 1_000_000,
            s > 0,
    ;
    let root: u64 = integer_sqrt(quotient as u64);
    assert(root <= 1000) by (nonlinear_arith)
        requires
            root * root <= quotient,
            quotient <= 1_000_000,
    ;
    assert(c * c * (UNIT * UNIT) == scaled) by (nonlinear_arith)
        requires
            scaled == square * 1_000_000,
            square == c * c,
            UNIT == 1000,
    ;
    if c >= 0 {
        root as i32
    } else {
        -(root as i32)
    }
}

/// Brings a wide sum back into the range of a coordinate.
fn saturate_to_i32(v: i128) -> (r: i32)
    ensures
        r == saturate(v as int),
{
    if v < -2147483648 {
        i32::MIN
    } else if v > 2147483647 {
        i32::MAX
    } else {
        v as i32
    }
}

/// The distance that a coordinate moving along the direction coordinate
/// `direction` covers in `delta` microseconds at `rate` world units per
/// second, rounded toward zero.
pub open spec fn displacement(direction: int, rate: int, delta: int) -> int {
    trunc_div(direction * rate * delta, 1_000_000)
}

/// Advances one coordinate by `displacement(direction, rate, delta)`,
/// saturating at the limits of `i32`.
pub fn advance_coordinate(value: i32, direction: i32, rate: i32, delta: u32) -> (r: i32)
    ensures
        r == saturate(value + displacement(direction as int, rate as int, delta as int)),
{
    let d: i128 = direction as i128;
    let k: i128 = rate as i128;
    let t: i128 = delta as i128;
    assert(-0x4000_0000_0000_0000 <= d * k <= 0x4000_0000_0000_0000) by (nonlinear_arith)
        requires
            -0x8000_0000 <= d <= 0x8000_0000,
            -0x8000_0000 <= k <= 0x8000_0000,
    ;
    let dk: i128 = d * k;
    assert(-0x4000_0000_0000_0000_0000_0000 <= dk * t <= 0x4000_0000_0000_0000_0000_0000)
        by (nonlinear_arith)
        requires
            -0x4000_0000_0000_0000 <= dk <= 0x4000_0000_0000_0000,
            0 <= t <= 0x1_0000_0000,
    ;
    let product: i128 = dk * t;
    let step: i128 = product / 1_000_000;
    assert(step == displacement(direction as int, rate as int, delta as int));
    saturate_to_i32(value as i128 + step)
}

impl Vec2 {
    /// The zero vector.
    pub open spec fn zero() -> Vec2 {
        Vec2 { x: 0, y: 0 }
    }

    /// The zero vector.
    pub fn new_zero() -> (r: Vec2)
        ensures
            r == Vec2::zero(),
    {
        Vec2 { x: 0, y: 0 }
    }

    /// The square of the vector's length.
    pub open spec fn length_squared(self) -> int {
        self.x * self.x + self.y * self.y
    }

    /// Whether the vector is no longer than one world unit.
    pub open spec fn within_unit(self) -> bool {
        self.length_squared() <= UNIT * UNIT
    }

    /// The unit vector along this one, each coordinate rounded toward zero;
    /// the zero vector stays zero.
    pub open spec fn normalized(self) -> Vec2 {
        if self.length_squared() == 0 {
            Vec2 { x: 0, y: 0 }
        } else {
            Vec2 {
                x: unit_component(self.x as int, self.length_squared()) as i32,
                y: unit_component(self.y as int, self.length_squared()) as i32,
            }
        }
    }

    /// This vector where it is no longer than one world unit, the unit vector
    /// along it otherwise.
    pub open spec fn clamped(self) -> Vec2 {
        if self.within_unit() {
            self
        } else {
            self.normalized()
        }
    }

    /// This vector after moving along `direction` for `delta` microseconds at
    /// `rate` world units per second.
    pub open spec fn advanced(self, direction: Vec2, rate: int, delta: int) -> Vec2 {
        Vec2 {
            x: saturate(self.x + displacement(direction.x as int, rate, delta)) as i32,
            y: saturate(self.y + displacement(direction.y as int, rate, delta)) as i32,
        }
    }

    /// Computes the square of the vector's length.
    fn squared_length(self) -> (s: u64)
        ensures
            s == self.length_squared(),
            self.x * self.x <= s,
            self.y * self.y <= s,
    {
        let a: u64 = magnitude(self.x);
        let b: u64 = magnitude(self.y);
        assert(a * a == self.x * self.x && a * a <= 0x8000_0000 * 0x8000_0000) by (nonlinear_arith)
            requires
                a == self.x || a == -self.x,
                a <= 0x8000_0000,
        ;
        assert(b * b == self.y * self.y && b * b <= 0x8000_0000 * 0x8000_0000) by (nonlinear_arith)
            requires
                b == self.y || b == -self.y,
                b <= 0x8000_0000,
        ;
        a * a + b * b
    }

    /// Whether both coordinates are zero.
    pub fn is_zero(self) -> (r: bool)
        ensures
            r == (self == Vec2::zero()),
            r == (self.length_squared() == 0),
    {
        assert(self.x != 0 ==> self.x * self.x > 0) by (nonlinear_arith);
        assert(self.y != 0 ==> self.y * self.y > 0) by (nonlinear_arith);
        assert(self.x * self.x >= 0 && self.y * self.y >= 0) by (nonlinear_arith);
        self.x == 0 && self.y == 0
    }

    /// Scales the vector to unit length; the zero vector stays zero.
    pub fn normalize_or_zero(self) -> (r: Vec2)
        ensures
            r == self.normalized(),
            r.within_unit(),
    {
        let s: u64 = self.squared_length();
        if s == 0 {
            Vec2 { x: 0, y: 0 }
        } else {
            let r = Vec2 { x: unit_coordinate(self.x, s), y: unit_coordinate(self.y, s) };
            proof {
                lemma_normalized_within_unit(self);
            }
            r
        }
    }

    /// Limits the vector's length to one world unit, keeping its direction.
    pub fn clamp_length_max(self) -> (r: Vec2)
        ensures
            r == self.clamped(),
            r.within_unit(),
    {
        let s: u64 = self.squared_length();
        if s <= 1_000_000 {
            self
        } else {
            self.normalize_or_zero()
        }
    }

    /// Moves the vector along `direction` for `delta` microseconds at `rate`
    /// world units per second.
    pub fn advance(self, direction: Vec2, rate: i32, delta: u32) -> (r: Vec2)
        ensures
            r == self.advanced(direction, rate as int, delta as int),
    {
        Vec2 {
            x: advance_coordinate(self.x, direction.x, rate, delta),
            y: advance_coordinate(self.y, direction.y, rate, delta),
        }
    }
}

/// A normalised vector is never longer than one world unit.
pub proof fn lemma_normalized_within_unit(v: Vec2)
    ensures
        v.normalized().within_unit(),
        -UNIT <= v.normalized().x <= UNIT,
        -UNIT <= v.normalized().y <= UNIT,
{
    let s = v.length_squared();
    let xx = v.x * v.x;
    let yy = v.y * v.y;
    assert(xx >= 0 && yy >= 0) by (nonlinear_arith)
        requires
            xx == v.x * v.x,
            yy == v.y * v.y,
    ;
    if s != 0 {
        let qx = (xx * (UNIT * UNIT)) / s;
        let qy = (yy * (UNIT * UNIT)) / s;
        assert(0 <= qx && 0 <= qy && qx + qy <= 1_000_000) by (nonlinear_arith)
            requires
                qx == (xx * 1_000_000) / s,
                qy == (yy * 1_000_000) / s,
                xx >= 0,
                yy >= 0,
                s == xx + yy,
                s > 0,
        ;
        lemma_isqrt_exists(qx as nat);
        lemma_isqrt_exists(qy as nat);
        let rx = isqrt(qx as nat) as int;
        let ry = isqrt(qy as nat) as int;
        assert(rx <= 1000 && ry <= 1000) by (nonlinear_arith)
            requires
                0 <= rx,
                0 <= ry,
                rx * rx <= qx,
                ry * ry <= qy,
                qx + qy <= 1_000_000,
                qx >= 0,
                qy >= 0,
        ;
        let n = v.normalized();
        assert(n.x == rx || n.x == -rx);
        assert(n.y == ry || n.y == -ry);
        assert(n.x * n.x == rx * rx) by (nonlinear_arith)
            requires
                n.x == rx || n.x == -rx,
        ;
        assert(n.y * n.y == ry * ry) by (nonlinear_arith)
            requires
                n.y == ry || n.y == -ry,
        ;
    }
}

/// Clamping leaves a vector of at most unit length as it is, and clamping
/// twice changes nothing more.
pub proof fn lemma_clamped_within_unit(v: Vec2)
    ensures
        v.clamped().within_unit(),
        v.within_unit() ==> v.clamped() == v,
        v.clamped().clamped() == v.clamped(),
{
    lemma_normalized_within_unit(v);
}

impl Vec3 {
    /// The origin.
    pub open spec fn origin() -> Vec3 {
        Vec3 { x: 0, y: 0, z: 0 }
    }

    /// The origin.
    pub fn new_origin() -> (r: Vec3)
        ensures
            r == Vec3::origin(),
    {
        Vec3 { x: 0, y: 0, z: 0 }
    }

    /// The square of the distance between two positions.
    pub open spec fn distance_squared(self, other: Vec3) -> int {
        (self.x - other.x) * (self.x - other.x) + (self.y - other.y) * (self.y - other.y) + (self.z
            - other.z) * (self.z - other.z)
    }

    /// The point halfway from this position to `toward`.
    pub open spec fn halfway(self, toward: Vec3) -> Vec3 {
        Vec3 {
            x: midpoint(self.x as int, toward.x as int) as i32,
            y: midpoint(self.y as int, toward.y as int) as i32,
            z: midpoint(self.z as int, toward.z as int) as i32,
        }
    }

    /// This position after moving in the plane along `direction` for `delta`
    /// microseconds at `rate` world units per second.
    pub open spec fn advanced(self, direction: Vec2, rate: int, delta: int) -> Vec3 {
        Vec3 {
            x: saturate(self.x + displacement(direction.x as int, rate, delta)) as i32,
            y: saturate(self.y + displacement(direction.y as int, rate, delta)) as i32,
            z: self.z,
        }
    }

    /// Computes the squared distance to `other`.
    pub fn squared_distance(self, other: Vec3) -> (d: u128)
        ensures
            d == self.distance_squared(other),
    {
        let dx: i128 = self.x as i128 - other.x as i128;
        let dy: i128 = self.y as i128 - other.y as i128;
        let dz: i128 = self.z as i128 - other.z as i128;
        assert(0 <= dx * dx <= 0x1_0000_0000 * 0x1_0000_0000) by (nonlinear_arith)
            requires
                -0x1_0000_0000 <= dx <= 0x1_0000_0000,
        ;
        assert(0 <= dy * dy <= 0x1_0000_0000 * 0x1_0000_0000) by (nonlinear_arith)
            requires
                -0x1_0000_0000 <= dy <= 0x1_0000_0000,
        ;
        assert(0 <= dz * dz <= 0x1_0000_0000 * 0x1_0000_0000) by (nonlinear_arith)
            requires
                -0x1_0000_0000 <= dz <= 0x1_0000_0000,
        ;
        (dx * dx + dy * dy + dz * dz) as u128
    }

    /// Moves halfway toward `toward`.
    pub fn lerp_half(self, toward: Vec3) -> (r: Vec3)
        ensures
            r == self.halfway(toward),
    {
        Vec3 {
            x: halfway_coordinate(self.x, toward.x),
            y: halfway_coordinate(self.y, toward.y),
            z: halfway_coordinate(self.z, toward.z),
        }
    }

    /// Moves the position in the plane along `direction` for `delta`
    /// microseconds at `rate` world units per second.
    pub fn advance(self, direction: Vec2, rate: i32, delta: u32) -> (r: Vec3)
        ensures
            r == self.advanced(direction, rate as int, delta as int),
    {
        Vec3 {
            x: advance_coordinate(self.x, direction.x, rate, delta),
            y: advance_coordinate(self.y, direction.y, rate, delta),
            z: self.z,
        }
    }
}

/// Computes `midpoint` for two coordinates.
fn halfway_coordinate(from: i32, toward: i32) -> (r: i32)
    ensures
        r == midpoint(from as int, toward as int),
        from <= toward ==> from <= r <= toward,
        toward <= from ==> toward <= r <= from,
{
    let gap: i64 = toward as i64 - from as i64;
    (from as i64 + gap / 2) as i32
}

impl Quat {
    /// The orientation of an entity that was never turned.
    pub open spec fn identity() -> Quat {
        Quat { x: 0, y: 0, z: 0, w: 1000 }
    }

    /// The orientation of an entity that was never turned.
    pub fn new_identity() -> (r: Quat)
        ensures
            r == Quat::identity(),
    {
        Quat { x: 0, y: 0, z: 0, w: 1000 }
    }
}

} // verus!
