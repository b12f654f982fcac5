//! 4x4 transform matrices over integer scalars.
//!
//! The scene graph composes transforms with a row-vector convention: a node's
//! world matrix is its local matrix multiplied by the parent's world matrix on
//! the right. Scalars are 64-bit integers and every product and sum wraps, so
//! composition is a total, exactly specified function.

use vstd::prelude::*;

verus! {

/// A 4x4 matrix in row-major field order: `rNcM` is row `N`, column `M`.
#[derive(Debug, Clone, Copy, PartialEq, Eq, Structural)]
pub struct Mat4x4 {
    pub r1c1: i64, pub r1c2: i64, pub r1c3: i64, pub r1c4: i64,
    pub r2c1: i64, pub r2c2: i64, pub r2c3: i64, pub r2c4: i64,
    pub r3c1: i64, pub r3c2: i64, pub r3c3: i64, pub r3c4: i64,
    pub r4c1: i64, pub r4c2: i64, pub r4c3: i64, pub r4c4: i64,
}

/// Wrapping sum of two scalars.
pub open spec fn wadd(a: i64, b: i64) -> i64 {
    vstd::wrapping::i64_specs::wrapping_add(a, b)
}

/// Wrapping product of two scalars.
pub open spec fn wmul(a: i64, b: i64) -> i64 {
    vstd::wrapping::i64_specs::wrapping_mul(a, b)
}

/// Wrapping dot product of a row `(a1, a2, a3, a4)` with a column
/// `(b1, b2, b3, b4)`, summed left to right.
pub open spec fn dot4(
    a1: i64, a2: i64, a3: i64, a4: i64,
    b1: i64, b2: i64, b3: i64, b4: i64,
) -> i64 {
    wadd(wadd(wadd(wmul(a1, b1), wmul(a2, b2)), wmul(a3, b3)), wmul(a4, b4))
}

/// The matrix product `a * b`: entry `rNcM` is the dot product of row `N` of
/// `a` with column `M` of `b`.
///
/// Kept opaque: the scene-graph proofs treat composition as an abstract
/// deterministic function; reveal it where the entries themselves matter.
#[verifier::opaque]
pub open spec fn spec_mul(a: Mat4x4, b: Mat4x4) -> Mat4x4 {
    Mat4x4 {
        r1c1: dot4(a.r1c1, a.r1c2, a.r1c3, a.r1c4, b.r1c1, b.r2c1, b.r3c1, b.r4c1),
        r1c2: dot4(a.r1c1, a.r1c2, a.r1c3, a.r1c4, b.r1c2, b.r2c2, b.r3c2, b.r4c2),
        r1c3: dot4(a.r1c1, a.r1c2, a.r1c3, a.r1c4, b.r1c3, b.r2c3, b.r3c3, b.r4c3),
        r1c4: dot4(a.r1c1, a.r1c2, a.r1c3, a.r1c4, b.r1c4, b.r2c4, b.r3c4, b.r4c4),
        r2c1: dot4(a.r2c1, a.r2c2, a.r2c3, a.r2c4, b.r1c1, b.r2c1, b.r3c1, b.r4c1),
        r2c2: dot4(a.r2c1, a.r2c2, a.r2c3, a.r2c4, b.r1c2, b.r2c2, b.r3c2, b.r4c2),
        r2c3: dot4(a.r2c1, a.r2c2, a.r2c3, a.r2c4, b.r1c3, b.r2c3, b.r3c3, b.r4c3),
        r2c4: dot4(a.r2c1, a.r2c2, a.r2c3, a.r2c4, b.r1c4, b.r2c4, b.r3c4, b.r4c4),
        r3c1: dot4(a.r3c1, a.r3c2, a.r3c3, a.r3c4, b.r1c1, b.r2c1, b.r3c1, b.r4c1),
        r3c2: dot4(a.r3c1, a.r3c2, a.r3c3, a.r3c4, b.r1c2, b.r2c2, b.r3c2, b.r4c2),
        r3c3: dot4(a.r3c1, a.r3c2, a.r3c3, a.r3c4, b.r1c3, b.r2c3, b.r3c3, b.r4c3),
        r3c4: dot4(a.r3c1, a.r3c2, a.r3c3, a.r3c4, b.r1c4, b.r2c4, b.r3c4, b.r4c4),
        r4c1: dot4(a.r4c1, a.r4c2, a.r4c3, a.r4c4, b.r1c1, b.r2c1, b.r3c1, b.r4c1),
        r4c2: dot4(a.r4c1, a.r4c2, a.r4c3, a.r4c4, b.r1c2, b.r2c2, b.r3c2, b.r4c2),
        r4c3: dot4(a.r4c1, a.r4c2, a.r4c3, a.r4c4, b.r1c3, b.r2c3, b.r3c3, b.r4c3),
        r4c4: dot4(a.r4c1, a.r4c2, a.r4c3, a.r4c4, b.r1c4, b.r2c4, b.r3c4, b.r4c4),
    }
}

/// The identity matrix.
pub open spec fn spec_identity() -> Mat4x4 {
    Mat4x4 {
        r1c1: 1, r1c2: 0, r1c3: 0, r1c4: 0,
        r2c1: 0, r2c2: 1, r2c3: 0, r2c4: 0,
        r3c1: 0, r3c2: 0, r3c3: 1, r3c4: 0,
        r4c1: 0, r4c2: 0, r4c3: 0, r4c4: 1,
    }
}

/// Wrapping dot product of a row with a column.
fn dot(
    a1: i64, a2: i64, a3: i64, a4: i64,
    b1: i64, b2: i64, b3: i64, b4: i64,
) -> (r: i64)
    ensures
        r == dot4(a1, a2, a3, a4, b1, b2, b3, b4),
{
    a1.wrapping_mul(b1)
        .wrapping_add(a2.wrapping_mul(b2))
        .wrapping_add(a3.wrapping_mul(b3))
        .wrapping_add(a4.wrapping_mul(b4))
}

impl Mat4x4 {
    /// The identity matrix.
    pub fn identity() -> (r: Self)
        ensures
            r == spec_identity(),
    {
        Mat4x4 {
            r1c1: 1, r1c2: 0, r1c3: 0, r1c4: 0,
            r2c1: 0, r2c2: 1, r2c3: 0, r2c4: 0,
            r3c1: 0, r3c2: 0, r3c3: 1, r3c4: 0,
            r4c1: 0, r4c2: 0, r4c3: 0, r4c4: 1,
        }
    }

    /// A translation by `(x, y, z)`: the identity with the fourth row set to
    /// the offset.
    pub fn from_translation(x: i64, y: i64, z: i64) -> (r: Self)
        ensures
            r == (Mat4x4 { r4c1: x, r4c2: y, r4c3: z, ..spec_identity() }),
    {
        Mat4x4 {
            r1c1: 1, r1c2: 0, r1c3: 0, r1c4: 0,
            r2c1: 0, r2c2: 1, r2c3: 0, r2c4: 0,
            r3c1: 0, r3c2: 0, r3c3: 1, r3c4: 0,
            r4c1: x, r4c2: y, r4c3: z, r4c4: 1,
        }
    }

    /// The matrix product `self * rhs`.
    pub fn mul_matrix4x4(self, rhs: Self) -> (r: Self)
        ensures
            r == spec_mul(self, rhs),
    {
        proof {
            reveal(spec_mul);
        }
        Mat4x4 {
            r1c1: dot(self.r1c1, self.r1c2, self.r1c3, self.r1c4, rhs.r1c1, rhs.r2c1, rhs.r3c1, rhs.r4c1),
            r1c2: dot(self.r1c1, self.r1c2, self.r1c3, self.r1c4, rhs.r1c2, rhs.r2c2, rhs.r3c2, rhs.r4c2),
            r1c3: dot(self.r1c1, self.r1c2, self.r1c3, self.r1c4, rhs.r1c3, rhs.r2c3, rhs.r3c3, rhs.r4c3),
            r1c4: dot(self.r1c1, self.r1c2, self.r1c3, self.r1c4, rhs.r1c4, rhs.r2c4, rhs.r3c4, rhs.r4c4),
            r2c1: dot(self.r2c1, self.r2c2, self.r2c3, self.r2c4, rhs.r1c1, rhs.r2c1, rhs.r3c1, rhs.r4c1),
            r2c2: dot(self.r2c1, self.r2c2, self.r2c3, self.r2c4, rhs.r1c2, rhs.r2c2, rhs.r3c2, rhs.r4c2),
            r2c3: dot(self.r2c1, self.r2c2, self.r2c3, self.r2c4, rhs.r1c3, rhs.r2c3, rhs.r3c3, rhs.r4c3),
            r2c4: dot(self.r2c1, self.r2c2, self.r2c3, self.r2c4, rhs.r1c4, rhs.r2c4, rhs.r3c4, rhs.r4c4),
            r3c1: dot(self.r3c1, self.r3c2, self.r3c3, self.r3c4, rhs.r1c1, rhs.r2c1, rhs.r3c1, rhs.r4c1),
            r3c2: dot(self.r3c1, self.r3c2, self.r3c3, self.r3c4, rhs.r1c2, rhs.r2c2, rhs.r3c2, rhs.r4c2),
            r3c3: dot(self.r3c1, self.r3c2, self.r3c3, self.r3c4, rhs.r1c3, rhs.r2c3, rhs.r3c3, rhs.r4c3),
            r3c4: dot(self.r3c1, self.r3c2, self.r3c3, self.r3c4, rhs.r1c4, rhs.r2c4, rhs.r3c4, rhs.r4c4),
            r4c1: dot(self.r4c1, self.r4c2, self.r4c3, self.r4c4, rhs.r1c1, rhs.r2c1, rhs.r3c1, rhs.r4c1),
            r4c2: dot(self.r4c1, self.r4c2, self.r4c3, self.r4c4, rhs.r1c2, rhs.r2c2, rhs.r3c2, rhs.r4c2),
            r4c3: dot(self.r4c1, self.r4c2, self.r4c3, self.r4c4, rhs.r1c3, rhs.r2c3, rhs.r3c3, rhs.r4c3),
            r4c4: dot(self.r4c1, self.r4c2, self.r4c3, self.r4c4, rhs.r1c4, rhs.r2c4, rhs.r3c4, rhs.r4c4),
        }
    }
}

} // verus!
