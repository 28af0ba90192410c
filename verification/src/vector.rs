//! Integer vectors in three dimensions. Positions and directions live on an
//! integer lattice, so that products of them are exact.

use vstd::prelude::*;

verus! {

/// The largest magnitude of a world coordinate.
pub const COORD_MAX: i64 = 0x2000_0000;

/// The largest magnitude of a component of a direction.
pub const DIR_MAX: i64 = 0x8000;

/// The largest magnitude of a component handed to `Vec3::dot`.
pub const DOT_MAX: i64 = 0x4000_0000_0000_0000;

/// The largest magnitude of a component handed to `Vec3::plus` or `Vec3::minus`.
pub const SUM_MAX: i64 = 0x3fff_ffff_ffff_ffff;

/// The largest magnitude of a component handed to `Vec3::cross`.
pub const CROSS_MAX: i64 = 0x4000_0000;

/// A vector of mathematical integers: what a `Vec3` stands for.
pub struct V3 {
    pub x: int,
    pub y: int,
    pub z: int,
}

impl V3 {
    pub open spec fn dot(self, o: V3) -> int {
        self.x * o.x + self.y * o.y + self.z * o.z
    }

    pub open spec fn cross(self, o: V3) -> V3 {
        V3 {
            x: self.y * o.z - self.z * o.y,
            y: self.z * o.x - self.x * o.z,
            z: self.x * o.y - self.y * o.x,
        }
    }

    pub open spec fn minus(self, o: V3) -> V3 {
        V3 { x: self.x - o.x, y: self.y - o.y, z: self.z - o.z }
    }

    pub open spec fn plus(self, o: V3) -> V3 {
        V3 { x: self.x + o.x, y: self.y + o.y, z: self.z + o.z }
    }

    pub open spec fn scaled(self, k: int) -> V3 {
        V3 { x: self.x * k, y: self.y * k, z: self.z * k }
    }

    pub open spec fn is_zero(self) -> bool {
        self.x == 0 && self.y == 0 && self.z == 0
    }

    /// Every component has a magnitude of at most `bound`.
    pub open spec fn within(self, bound: int) -> bool {
        &&& -bound <= self.x <= bound
        &&& -bound <= self.y <= bound
        &&& -bound <= self.z <= bound
    }

    /// The squared length.
    pub open spec fn norm2(self) -> int {
        self.dot(self)
    }
}

/// A vector with integer components.
#[derive(Clone, Copy, Debug, PartialEq, Eq, Structural)]
pub struct Vec3 {
    pub x: i64,
    pub y: i64,
    pub z: i64,
}

impl View for Vec3 {
    type V = V3;

    open spec fn view(&self) -> V3 {
        V3 { x: self.x as int, y: self.y as int, z: self.z as int }
    }
}

/// The magnitude of a product is bounded by the product of the bounds.
pub proof fn lemma_mul_abs_le(a: int, b: int, c: int, d: int)
    by (nonlinear_arith)
    requires
        -c <= a <= c,
        -d <= b <= d,
    ensures
        -(c * d) <= a * b <= c * d,
{
}

/// The dot product of two bounded vectors is bounded.
pub proof fn lemma_dot_bound(a: V3, b: V3, c: int, d: int)
    requires
        a.within(c),
        b.within(d),
    ensures
        -(3 * (c * d)) <= a.dot(b) <= 3 * (c * d),
{
    lemma_mul_abs_le(a.x, b.x, c, d);
    lemma_mul_abs_le(a.y, b.y, c, d);
    lemma_mul_abs_le(a.z, b.z, c, d);
}

/// The cross product of two bounded vectors is bounded.
pub proof fn lemma_cross_bound(a: V3, b: V3, c: int, d: int)
    requires
        a.within(c),
        b.within(d),
    ensures
        a.cross(b).within(2 * (c * d)),
{
    lemma_mul_abs_le(a.y, b.z, c, d);
    lemma_mul_abs_le(a.z, b.y, c, d);
    lemma_mul_abs_le(a.z, b.x, c, d);
    lemma_mul_abs_le(a.x, b.z, c, d);
    lemma_mul_abs_le(a.x, b.y, c, d);
    lemma_mul_abs_le(a.y, b.x, c, d);
}

/// In a product of three factors the last two may change places.
pub proof fn lemma_mul_swap(a: int, b: int, c: int)
    by (nonlinear_arith)
    ensures
        (a * b) * c == (a * c) * b,
{
}

/// A difference times a factor is the difference of the products.
pub proof fn lemma_mul_sub(a: int, b: int, c: int)
    by (nonlinear_arith)
    ensures
        (a - b) * c == a * c - b * c,
{
}

/// A cross product is orthogonal to both of its factors.
pub proof fn lemma_cross_orthogonal(a: V3, b: V3)
    ensures
        a.cross(b).dot(a) == 0,
        a.cross(b).dot(b) == 0,
{
    lemma_mul_sub(a.y * b.z, a.z * b.y, a.x);
    lemma_mul_sub(a.z * b.x, a.x * b.z, a.y);
    lemma_mul_sub(a.x * b.y, a.y * b.x, a.z);
    lemma_mul_sub(a.y * b.z, a.z * b.y, b.x);
    lemma_mul_sub(a.z * b.x, a.x * b.z, b.y);
    lemma_mul_sub(a.x * b.y, a.y * b.x, b.z);
    lemma_mul_swap(a.y, b.z, a.x);
    lemma_mul_swap(a.y, b.x, a.z);
    lemma_mul_swap(a.z, b.y, a.x);
    lemma_mul_swap(a.z, b.x, a.y);
    lemma_mul_swap(a.x, b.z, a.y);
    lemma_mul_swap(a.x, b.y, a.z);
    lemma_mul_swap(a.y, b.z, b.x);
    lemma_mul_swap(a.z, b.y, b.x);
    lemma_mul_swap(a.x, b.z, b.y);
    assert(a.y * a.x == a.x * a.y && a.z * a.x == a.x * a.z && a.z * a.y == a.y * a.z)
        by (nonlinear_arith);
    lemma_mul_swap(a.x, a.y, b.z);
    lemma_mul_swap(a.x, a.z, b.y);
    lemma_mul_swap(a.y, a.z, b.x);
    lemma_mul_swap(a.y, a.x, b.z);
    lemma_mul_swap(a.z, a.x, b.y);
    lemma_mul_swap(a.z, a.y, b.x);
}

impl Vec3 {
    pub fn new(x: i64, y: i64, z: i64) -> (r: Vec3)
        ensures
            r.x == x,
            r.y == y,
            r.z == z,
    {
        Vec3 { x, y, z }
    }

    /// Whether every component has a magnitude of at most `bound`.
    pub fn within(&self, bound: i64) -> (r: bool)
        requires
            0 <= bound,
        ensures
            r == self@.within(bound as int),
    {
        -bound <= self.x && self.x <= bound && -bound <= self.y && self.y <= bound && -bound
            <= self.z && self.z <= bound
    }

    pub fn is_zero(&self) -> (r: bool)
        ensures
            r == self@.is_zero(),
    {
        self.x == 0 && self.y == 0 && self.z == 0
    }

    /// The difference of two vectors.
    pub fn minus(&self, o: &Vec3) -> (r: Vec3)
        requires
            self@.within(SUM_MAX as int),
            o@.within(SUM_MAX as int),
        ensures
            r@ == self@.minus(o@),
    {
        Vec3 { x: self.x - o.x, y: self.y - o.y, z: self.z - o.z }
    }

    /// The sum of two vectors.
    pub fn plus(&self, o: &Vec3) -> (r: Vec3)
        requires
            self@.within(SUM_MAX as int),
            o@.within(SUM_MAX as int),
        ensures
            r@ == self@.plus(o@),
    {
        Vec3 { x: self.x + o.x, y: self.y + o.y, z: self.z + o.z }
    }

    /// The dot product, exactly.
    pub fn dot(&self, o: &Vec3) -> (r: i128)
        requires
            self@.within(DOT_MAX as int),
            o@.within(DOT_MAX as int),
        ensures
            r == self@.dot(o@),
    {
        proof {
            lemma_mul_abs_le(self.x as int, o.x as int, DOT_MAX as int, DOT_MAX as int);
            lemma_mul_abs_le(self.y as int, o.y as int, DOT_MAX as int, DOT_MAX as int);
            lemma_mul_abs_le(self.z as int, o.z as int, DOT_MAX as int, DOT_MAX as int);
        }
        let px: i128 = (self.x as i128) * (o.x as i128);
        let py: i128 = (self.y as i128) * (o.y as i128);
        let pz: i128 = (self.z as i128) * (o.z as i128);
        px + py + pz
    }

    /// The cross product, exactly.
    pub fn cross(&self, o: &Vec3) -> (r: Vec3)
        requires
            self@.within(CROSS_MAX as int),
            o@.within(CROSS_MAX as int),
        ensures
            r@ == self@.cross(o@),
    {
        proof {
            lemma_cross_bound(self@, o@, CROSS_MAX as int, CROSS_MAX as int);
            lemma_mul_abs_le(self.y as int, o.z as int, CROSS_MAX as int, CROSS_MAX as int);
            lemma_mul_abs_le(self.z as int, o.y as int, CROSS_MAX as int, CROSS_MAX as int);
            lemma_mul_abs_le(self.z as int, o.x as int, CROSS_MAX as int, CROSS_MAX as int);
            lemma_mul_abs_le(self.x as int, o.z as int, CROSS_MAX as int, CROSS_MAX as int);
            lemma_mul_abs_le(self.x as int, o.y as int, CROSS_MAX as int, CROSS_MAX as int);
            lemma_mul_abs_le(self.y as int, o.x as int, CROSS_MAX as int, CROSS_MAX as int);
        }
        Vec3 {
            x: self.y * o.z - self.z * o.y,
            y: self.z * o.x - self.x * o.z,
            z: self.x * o.y - self.y * o.x,
        }
    }
}

} // verus!
