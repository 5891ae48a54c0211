//! Row-major 4x4 transform matrices over the fixed-point scalar, used
//! to orient boxes. Rotations take their angle in turns.

use vstd::prelude::*;

verus! {

use vstd::math::abs;
use crate::fixed::{Fx, SCALE, spec_fmul, lemma_fmul_bound};
use crate::trig::{spec_sin_turns, spec_cos_turns, TURN_LIMIT};
use crate::vector::Vector3;

/// Largest entry or component magnitude accepted by the matrix
/// products.
pub const MAT_LIMIT: i128 = 0x100_0000_0000;

/// A 4x4 matrix of fixed-point scalars, row-major; vectors multiply
/// as rows from the left.
#[derive(Clone, Copy, Debug)]
pub struct Matrix4(pub [[Fx; 4]; 4]);

/// One entry of the matrix product `a * b`:
/// `sum_k a[k][j] * b[i][k]`.
pub open spec fn spec_mat_entry(a: Matrix4, b: Matrix4, i: int, j: int) -> int {
    spec_fmul(a.0[0][j].raw as int, b.0[i][0].raw as int) + spec_fmul(
        a.0[1][j].raw as int,
        b.0[i][1].raw as int,
    ) + spec_fmul(a.0[2][j].raw as int, b.0[i][2].raw as int) + spec_fmul(
        a.0[3][j].raw as int,
        b.0[i][3].raw as int,
    )
}

impl Matrix4 {
    /// Every entry magnitude is at most `m`.
    pub open spec fn bounded(self, m: int) -> bool {
        forall|i: int, j: int|
            0 <= i < 4 && 0 <= j < 4 ==> abs(#[trigger] self.0[i][j].raw as int) <= m
    }

    /// The identity transform.
    pub fn identity() -> (r: Matrix4)
        ensures
            forall|i: int, j: int|
                0 <= i < 4 && 0 <= j < 4 ==> (#[trigger] r.0[i][j].raw) == if i == j {
                    SCALE
                } else {
                    0
                },
            r.bounded(SCALE as int),
    {
        let o = Fx::one();
        let z = Fx::zero();
        let r = Matrix4(
            [[o, z, z, z], [z, o, z, z], [z, z, o, z], [z, z, z, o]],
        );
        r
    }

    /// Translation by `(x, y, z)`, in the last row.
    pub fn translation(x: Fx, y: Fx, z: Fx) -> (r: Matrix4)
        ensures
            r.0[3][0] == x && r.0[3][1] == y && r.0[3][2] == z,
            r.0[3][3].raw == SCALE,
            forall|i: int, j: int|
                0 <= i < 3 && 0 <= j < 4 ==> (#[trigger] r.0[i][j].raw) == if i == j {
                    SCALE
                } else {
                    0
                },
    {
        let o = Fx::one();
        let zz = Fx::zero();
        Matrix4([[o, zz, zz, zz], [zz, o, zz, zz], [zz, zz, o, zz], [x, y, z, o]])
    }

    /// Rotation about the x axis by `turns` turns.
    pub fn rotation_x(turns: Fx) -> (r: Matrix4)
        requires
            -TURN_LIMIT + 16384 <= turns.raw <= TURN_LIMIT - 16384,
        ensures
            r.0[0][0].raw == SCALE && r.0[3][3].raw == SCALE,
            r.0[1][1].raw == spec_cos_turns(turns.raw as int),
            r.0[1][2].raw == spec_sin_turns(turns.raw as int),
            r.0[2][1].raw == -spec_sin_turns(turns.raw as int),
            r.0[2][2].raw == spec_cos_turns(turns.raw as int),
            r.0[0][1].raw == 0 && r.0[0][2].raw == 0 && r.0[0][3].raw == 0,
            r.0[1][0].raw == 0 && r.0[1][3].raw == 0,
            r.0[2][0].raw == 0 && r.0[2][3].raw == 0,
            r.0[3][0].raw == 0 && r.0[3][1].raw == 0 && r.0[3][2].raw == 0,
            r.bounded(SCALE as int),
    {
        let sinr = turns.sin_turns();
        let cosr = turns.cos_turns();
        let o = Fx::one();
        let z = Fx::zero();
        Matrix4(
            [
                [o, z, z, z],
                [z, cosr, sinr, z],
                [z, sinr.fneg(), cosr, z],
                [z, z, z, o],
            ],
        )
    }

    /// Rotation about the y axis by `turns` turns.
    pub fn rotation_y(turns: Fx) -> (r: Matrix4)
        requires
            -TURN_LIMIT + 16384 <= turns.raw <= TURN_LIMIT - 16384,
        ensures
            r.0[1][1].raw == SCALE && r.0[3][3].raw == SCALE,
            r.0[0][0].raw == spec_cos_turns(turns.raw as int),
            r.0[0][2].raw == -spec_sin_turns(turns.raw as int),
            r.0[2][0].raw == spec_sin_turns(turns.raw as int),
            r.0[2][2].raw == spec_cos_turns(turns.raw as int),
            r.0[0][1].raw == 0 && r.0[0][3].raw == 0,
            r.0[1][0].raw == 0 && r.0[1][2].raw == 0 && r.0[1][3].raw == 0,
            r.0[2][1].raw == 0 && r.0[2][3].raw == 0,
            r.0[3][0].raw == 0 && r.0[3][1].raw == 0 && r.0[3][2].raw == 0,
            r.bounded(SCALE as int),
    {
        let sinr = turns.sin_turns();
        let cosr = turns.cos_turns();
        let o = Fx::one();
        let z = Fx::zero();
        Matrix4(
            [
                [cosr, z, sinr.fneg(), z],
                [z, o, z, z],
                [sinr, z, cosr, z],
                [z, z, z, o],
            ],
        )
    }

    /// Rotation about the z axis by `turns` turns.
    pub fn rotation_z(turns: Fx) -> (r: Matrix4)
        requires
            -TURN_LIMIT + 16384 <= turns.raw <= TURN_LIMIT - 16384,
        ensures
            r.0[2][2].raw == SCALE && r.0[3][3].raw == SCALE,
            r.0[0][0].raw == spec_cos_turns(turns.raw as int),
            r.0[0][1].raw == spec_sin_turns(turns.raw as int),
            r.0[1][0].raw == -spec_sin_turns(turns.raw as int),
            r.0[1][1].raw == spec_cos_turns(turns.raw as int),
            r.0[0][2].raw == 0 && r.0[0][3].raw == 0,
            r.0[1][2].raw == 0 && r.0[1][3].raw == 0,
            r.0[2][0].raw == 0 && r.0[2][1].raw == 0 && r.0[2][3].raw == 0,
            r.0[3][0].raw == 0 && r.0[3][1].raw == 0 && r.0[3][2].raw == 0,
            r.bounded(SCALE as int),
    {
        let sinr = turns.sin_turns();
        let cosr = turns.cos_turns();
        let o = Fx::one();
        let z = Fx::zero();
        Matrix4(
            [
                [cosr, sinr, z, z],
                [sinr.fneg(), cosr, z, z],
                [z, z, o, z],
                [z, z, z, o],
            ],
        )
    }

    /// The image of `v` under the linear (upper 3x3) part of the
    /// transform; translation does not apply to vectors.
    pub fn transform_vector3(&self, v: Vector3) -> (r: Vector3)
        requires
            self.bounded(MAT_LIMIT as int),
            v.bounded(MAT_LIMIT as int),
        ensures
            r.x.raw == spec_fmul(self.0[0][0].raw as int, v.x.raw as int) + spec_fmul(
                self.0[1][0].raw as int,
                v.y.raw as int,
            ) + spec_fmul(self.0[2][0].raw as int, v.z.raw as int),
            r.y.raw == spec_fmul(self.0[0][1].raw as int, v.x.raw as int) + spec_fmul(
                self.0[1][1].raw as int,
                v.y.raw as int,
            ) + spec_fmul(self.0[2][1].raw as int, v.z.raw as int),
            r.z.raw == spec_fmul(self.0[0][2].raw as int, v.x.raw as int) + spec_fmul(
                self.0[1][2].raw as int,
                v.y.raw as int,
            ) + spec_fmul(self.0[2][2].raw as int, v.z.raw as int),
    {
        proof {
            lemma_transform_terms(*self, v);
        }
        Vector3 {
            x: self.0[0][0].fmul(v.x).fadd(self.0[1][0].fmul(v.y)).fadd(
                self.0[2][0].fmul(v.z),
            ),
            y: self.0[0][1].fmul(v.x).fadd(self.0[1][1].fmul(v.y)).fadd(
                self.0[2][1].fmul(v.z),
            ),
            z: self.0[0][2].fmul(v.x).fadd(self.0[1][2].fmul(v.y)).fadd(
                self.0[2][2].fmul(v.z),
            ),
        }
    }

    /// Matrix product; the right-hand factor applies first to a row
    /// vector.
    pub fn times(&self, o: &Matrix4) -> (r: Matrix4)
        requires
            self.bounded(MAT_LIMIT as int),
            o.bounded(MAT_LIMIT as int),
        ensures
            forall|i: int, j: int|
                0 <= i < 4 && 0 <= j < 4 ==> (#[trigger] r.0[i][j].raw as int) == spec_mat_entry(
                    *self,
                    *o,
                    i,
                    j,
                ),
    {
        let r = Matrix4(
            [
                [
                    mat_entry(self, o, 0, 0),
                    mat_entry(self, o, 0, 1),
                    mat_entry(self, o, 0, 2),
                    mat_entry(self, o, 0, 3),
                ],
                [
                    mat_entry(self, o, 1, 0),
                    mat_entry(self, o, 1, 1),
                    mat_entry(self, o, 1, 2),
                    mat_entry(self, o, 1, 3),
                ],
                [
                    mat_entry(self, o, 2, 0),
                    mat_entry(self, o, 2, 1),
                    mat_entry(self, o, 2, 2),
                    mat_entry(self, o, 2, 3),
                ],
                [
                    mat_entry(self, o, 3, 0),
                    mat_entry(self, o, 3, 1),
                    mat_entry(self, o, 3, 2),
                    mat_entry(self, o, 3, 3),
                ],
            ],
        );
        r
    }
}

/// One entry of the matrix product.
fn mat_entry(a: &Matrix4, b: &Matrix4, i: usize, j: usize) -> (r: Fx)
    requires
        i < 4,
        j < 4,
        a.bounded(MAT_LIMIT as int),
        b.bounded(MAT_LIMIT as int),
    ensures
        r.raw as int == spec_mat_entry(*a, *b, i as int, j as int),
{
    proof {
        lemma_entry_terms(*a, *b, i as int, j as int);
    }
    a.0[0][j].fmul(b.0[i][0]).fadd(a.0[1][j].fmul(b.0[i][1])).fadd(
        a.0[2][j].fmul(b.0[i][2]),
    ).fadd(a.0[3][j].fmul(b.0[i][3]))
}

/// Entry `(i, j)` of the x-axis rotation by `t` turns.
pub open spec fn spec_rx_entry(t: int, i: int, j: int) -> int {
    if i == 0 && j == 0 {
        SCALE as int
    } else if i == 3 && j == 3 {
        SCALE as int
    } else if i == 1 && j == 1 {
        spec_cos_turns(t)
    } else if i == 1 && j == 2 {
        spec_sin_turns(t)
    } else if i == 2 && j == 1 {
        -spec_sin_turns(t)
    } else if i == 2 && j == 2 {
        spec_cos_turns(t)
    } else {
        0
    }
}

/// Entry `(i, j)` of the y-axis rotation by `t` turns.
pub open spec fn spec_ry_entry(t: int, i: int, j: int) -> int {
    if i == 1 && j == 1 {
        SCALE as int
    } else if i == 3 && j == 3 {
        SCALE as int
    } else if i == 0 && j == 0 {
        spec_cos_turns(t)
    } else if i == 0 && j == 2 {
        -spec_sin_turns(t)
    } else if i == 2 && j == 0 {
        spec_sin_turns(t)
    } else if i == 2 && j == 2 {
        spec_cos_turns(t)
    } else {
        0
    }
}

/// Entry `(i, j)` of the z-axis rotation by `t` turns.
pub open spec fn spec_rz_entry(t: int, i: int, j: int) -> int {
    if i == 2 && j == 2 {
        SCALE as int
    } else if i == 3 && j == 3 {
        SCALE as int
    } else if i == 0 && j == 0 {
        spec_cos_turns(t)
    } else if i == 0 && j == 1 {
        spec_sin_turns(t)
    } else if i == 1 && j == 0 {
        -spec_sin_turns(t)
    } else if i == 1 && j == 1 {
        spec_cos_turns(t)
    } else {
        0
    }
}

/// Entry `(i, j)` of the product of the x- and y-axis rotations, as
/// `times` forms it.
pub open spec fn spec_rxy_entry(tx: int, ty: int, i: int, j: int) -> int {
    spec_fmul(spec_rx_entry(tx, 0, j), spec_ry_entry(ty, i, 0)) + spec_fmul(
        spec_rx_entry(tx, 1, j),
        spec_ry_entry(ty, i, 1),
    ) + spec_fmul(spec_rx_entry(tx, 2, j), spec_ry_entry(ty, i, 2)) + spec_fmul(
        spec_rx_entry(tx, 3, j),
        spec_ry_entry(ty, i, 3),
    )
}

/// Entry `(i, j)` of the full composed rotation
/// `rotation_x(rot.x) * rotation_y(rot.y) * rotation_z(rot.z)`.
pub open spec fn spec_rot_entry(rot: Vector3, i: int, j: int) -> int {
    spec_fmul(spec_rxy_entry(rot.x.raw as int, rot.y.raw as int, 0, j), spec_rz_entry(
        rot.z.raw as int,
        i,
        0,
    )) + spec_fmul(spec_rxy_entry(rot.x.raw as int, rot.y.raw as int, 1, j), spec_rz_entry(
        rot.z.raw as int,
        i,
        1,
    )) + spec_fmul(spec_rxy_entry(rot.x.raw as int, rot.y.raw as int, 2, j), spec_rz_entry(
        rot.z.raw as int,
        i,
        2,
    )) + spec_fmul(spec_rxy_entry(rot.x.raw as int, rot.y.raw as int, 3, j), spec_rz_entry(
        rot.z.raw as int,
        i,
        3,
    ))
}

/// The image of `v` under the linear part of the composed rotation,
/// exactly as `transform_vector3` forms it.
pub open spec fn spec_rotated(rot: Vector3, v: Vector3) -> Vector3 {
    Vector3 {
        x: Fx {
            raw: (spec_fmul(spec_rot_entry(rot, 0, 0), v.x.raw as int) + spec_fmul(
                spec_rot_entry(rot, 1, 0),
                v.y.raw as int,
            ) + spec_fmul(spec_rot_entry(rot, 2, 0), v.z.raw as int)) as i128,
        },
        y: Fx {
            raw: (spec_fmul(spec_rot_entry(rot, 0, 1), v.x.raw as int) + spec_fmul(
                spec_rot_entry(rot, 1, 1),
                v.y.raw as int,
            ) + spec_fmul(spec_rot_entry(rot, 2, 1), v.z.raw as int)) as i128,
        },
        z: Fx {
            raw: (spec_fmul(spec_rot_entry(rot, 0, 2), v.x.raw as int) + spec_fmul(
                spec_rot_entry(rot, 1, 2),
                v.y.raw as int,
            ) + spec_fmul(spec_rot_entry(rot, 2, 2), v.z.raw as int)) as i128,
        },
    }
}

/// Every entry of a matrix product of bounded matrices is bounded by
/// four rescaled products of the bounds.
pub proof fn lemma_mat_entry_bound(a: Matrix4, b: Matrix4, m1: int, m2: int, i: int, j: int)
    requires
        a.bounded(m1),
        b.bounded(m2),
        0 <= i < 4,
        0 <= j < 4,
        m1 >= 0,
        m2 >= 0,
    ensures
        abs(spec_mat_entry(a, b, i, j)) as int <= 4 * ((m1 * m2) / (SCALE as int)),
{
    lemma_fmul_bound(a.0[0][j].raw as int, b.0[i][0].raw as int, m1, m2);
    lemma_fmul_bound(a.0[1][j].raw as int, b.0[i][1].raw as int, m1, m2);
    lemma_fmul_bound(a.0[2][j].raw as int, b.0[i][2].raw as int, m1, m2);
    lemma_fmul_bound(a.0[3][j].raw as int, b.0[i][3].raw as int, m1, m2);
}

/// The four products of one matrix-product entry are bounded.
proof fn lemma_entry_terms(a: Matrix4, b: Matrix4, i: int, j: int)
    requires
        0 <= i < 4,
        0 <= j < 4,
        a.bounded(MAT_LIMIT as int),
        b.bounded(MAT_LIMIT as int),
    ensures
        abs(spec_fmul(a.0[0][j].raw as int, b.0[i][0].raw as int)) as int <= 0x1_0000_0000_0000_0000,
        abs(spec_fmul(a.0[1][j].raw as int, b.0[i][1].raw as int)) as int <= 0x1_0000_0000_0000_0000,
        abs(spec_fmul(a.0[2][j].raw as int, b.0[i][2].raw as int)) as int <= 0x1_0000_0000_0000_0000,
        abs(spec_fmul(a.0[3][j].raw as int, b.0[i][3].raw as int)) as int <= 0x1_0000_0000_0000_0000,
{
    lemma_fmul_bound(a.0[0][j].raw as int, b.0[i][0].raw as int, MAT_LIMIT as int, MAT_LIMIT as int);
    lemma_fmul_bound(a.0[1][j].raw as int, b.0[i][1].raw as int, MAT_LIMIT as int, MAT_LIMIT as int);
    lemma_fmul_bound(a.0[2][j].raw as int, b.0[i][2].raw as int, MAT_LIMIT as int, MAT_LIMIT as int);
    lemma_fmul_bound(a.0[3][j].raw as int, b.0[i][3].raw as int, MAT_LIMIT as int, MAT_LIMIT as int);
}

/// The nine products of a vector transform are bounded.
proof fn lemma_transform_terms(m: Matrix4, v: Vector3)
    requires
        m.bounded(MAT_LIMIT as int),
        v.bounded(MAT_LIMIT as int),
    ensures
        forall|i: int, j: int|
            0 <= i < 4 && 0 <= j < 4 ==> abs(
                spec_fmul(#[trigger] m.0[i][j].raw as int, v.x.raw as int),
            ) as int <= 0x1_0000_0000_0000_0000,
        forall|i: int, j: int|
            0 <= i < 4 && 0 <= j < 4 ==> abs(
                spec_fmul(#[trigger] m.0[i][j].raw as int, v.y.raw as int),
            ) as int <= 0x1_0000_0000_0000_0000,
        forall|i: int, j: int|
            0 <= i < 4 && 0 <= j < 4 ==> abs(
                spec_fmul(#[trigger] m.0[i][j].raw as int, v.z.raw as int),
            ) as int <= 0x1_0000_0000_0000_0000,
{
    assert forall|i: int, j: int| 0 <= i < 4 && 0 <= j < 4 implies abs(
        spec_fmul(#[trigger] m.0[i][j].raw as int, v.x.raw as int),
    ) as int <= 0x1_0000_0000_0000_0000 by {
        lemma_fmul_bound(m.0[i][j].raw as int, v.x.raw as int, MAT_LIMIT as int, MAT_LIMIT as int);
    }
    assert forall|i: int, j: int| 0 <= i < 4 && 0 <= j < 4 implies abs(
        spec_fmul(#[trigger] m.0[i][j].raw as int, v.y.raw as int),
    ) as int <= 0x1_0000_0000_0000_0000 by {
        lemma_fmul_bound(m.0[i][j].raw as int, v.y.raw as int, MAT_LIMIT as int, MAT_LIMIT as int);
    }
    assert forall|i: int, j: int| 0 <= i < 4 && 0 <= j < 4 implies abs(
        spec_fmul(#[trigger] m.0[i][j].raw as int, v.z.raw as int),
    ) as int <= 0x1_0000_0000_0000_0000 by {
        lemma_fmul_bound(m.0[i][j].raw as int, v.z.raw as int, MAT_LIMIT as int, MAT_LIMIT as int);
    }
}

} // verus!
