//! The six faces of a point light's cube: where each looks, which way is up
//! in it, and which face a direction falls on.

use crate::error::ShadowError;
use crate::light::NEAR_EPSILON;
use crate::scalar::ONE;
use crate::vector::Vec3;
use crate::vector::COORD_MAX;
use crate::vector::V3;
use vstd::prelude::*;

verus! {

/// The field of view of each face, in degrees.
pub const CUBE_FOV_DEGREES: u32 = 90;

/// A face of the cube, named by the axis it looks along.
#[derive(Clone, Copy, Debug, PartialEq, Eq, Structural)]
pub enum CubeFace {
    PositiveX,
    NegativeX,
    PositiveY,
    NegativeY,
    PositiveZ,
    NegativeZ,
}

pub open spec fn abs_int(a: int) -> int {
    if a < 0 {
        -a
    } else {
        a
    }
}

impl CubeFace {
    /// The face's place in the usual order of cube faces.
    pub open spec fn index_spec(self) -> int {
        match self {
            CubeFace::PositiveX => 0,
            CubeFace::NegativeX => 1,
            CubeFace::PositiveY => 2,
            CubeFace::NegativeY => 3,
            CubeFace::PositiveZ => 4,
            CubeFace::NegativeZ => 5,
        }
    }

    /// The direction in which the face looks.
    pub open spec fn direction_spec(self) -> V3 {
        match self {
            CubeFace::PositiveX => V3 { x: 1, y: 0, z: 0 },
            CubeFace::NegativeX => V3 { x: -1, y: 0, z: 0 },
            CubeFace::PositiveY => V3 { x: 0, y: 1, z: 0 },
            CubeFace::NegativeY => V3 { x: 0, y: -1, z: 0 },
            CubeFace::PositiveZ => V3 { x: 0, y: 0, z: 1 },
            CubeFace::NegativeZ => V3 { x: 0, y: 0, z: -1 },
        }
    }

    /// The up vector of the face's view. The faces to the sides look with
    /// the world's down as their up; the top and bottom faces, which look
    /// along that axis, take the z axis instead.
    pub open spec fn up_spec(self) -> V3 {
        match self {
            CubeFace::PositiveX => V3 { x: 0, y: -1, z: 0 },
            CubeFace::NegativeX => V3 { x: 0, y: -1, z: 0 },
            CubeFace::PositiveY => V3 { x: 0, y: 0, z: 1 },
            CubeFace::NegativeY => V3 { x: 0, y: 0, z: -1 },
            CubeFace::PositiveZ => V3 { x: 0, y: -1, z: 0 },
            CubeFace::NegativeZ => V3 { x: 0, y: -1, z: 0 },
        }
    }

    /// The axis to the right of the face's view.
    pub open spec fn side_spec(self) -> V3 {
        match self {
            CubeFace::PositiveX => V3 { x: 0, y: 0, z: -1 },
            CubeFace::NegativeX => V3 { x: 0, y: 0, z: 1 },
            CubeFace::PositiveY => V3 { x: 1, y: 0, z: 0 },
            CubeFace::NegativeY => V3 { x: 1, y: 0, z: 0 },
            CubeFace::PositiveZ => V3 { x: 1, y: 0, z: 0 },
            CubeFace::NegativeZ => V3 { x: -1, y: 0, z: 0 },
        }
    }

    pub fn index(&self) -> (r: usize)
        ensures
            r == self.index_spec(),
            r < 6,
    {
        match self {
            CubeFace::PositiveX => 0,
            CubeFace::NegativeX => 1,
            CubeFace::PositiveY => 2,
            CubeFace::NegativeY => 3,
            CubeFace::PositiveZ => 4,
            CubeFace::NegativeZ => 5,
        }
    }

    /// The face at a place in the usual order; none from 6 on.
    pub fn from_index(i: usize) -> (r: Option<CubeFace>)
        ensures
            r is Some <==> i < 6,
            r is Some ==> r->0.index_spec() == i,
    {
        match i {
            0 => Some(CubeFace::PositiveX),
            1 => Some(CubeFace::NegativeX),
            2 => Some(CubeFace::PositiveY),
            3 => Some(CubeFace::NegativeY),
            4 => Some(CubeFace::PositiveZ),
            5 => Some(CubeFace::NegativeZ),
            _ => None,
        }
    }

    pub fn direction(&self) -> (r: Vec3)
        ensures
            r@ == self.direction_spec(),
    {
        match self {
            CubeFace::PositiveX => Vec3 { x: 1, y: 0, z: 0 },
            CubeFace::NegativeX => Vec3 { x: -1, y: 0, z: 0 },
            CubeFace::PositiveY => Vec3 { x: 0, y: 1, z: 0 },
            CubeFace::NegativeY => Vec3 { x: 0, y: -1, z: 0 },
            CubeFace::PositiveZ => Vec3 { x: 0, y: 0, z: 1 },
            CubeFace::NegativeZ => Vec3 { x: 0, y: 0, z: -1 },
        }
    }

    pub fn up(&self) -> (r: Vec3)
        ensures
            r@ == self.up_spec(),
    {
        match self {
            CubeFace::PositiveX => Vec3 { x: 0, y: -1, z: 0 },
            CubeFace::NegativeX => Vec3 { x: 0, y: -1, z: 0 },
            CubeFace::PositiveY => Vec3 { x: 0, y: 0, z: 1 },
            CubeFace::NegativeY => Vec3 { x: 0, y: 0, z: -1 },
            CubeFace::PositiveZ => Vec3 { x: 0, y: -1, z: 0 },
            CubeFace::NegativeZ => Vec3 { x: 0, y: -1, z: 0 },
        }
    }

    pub fn side(&self) -> (r: Vec3)
        ensures
            r@ == self.side_spec(),
    {
        match self {
            CubeFace::PositiveX => Vec3 { x: 0, y: 0, z: -1 },
            CubeFace::NegativeX => Vec3 { x: 0, y: 0, z: 1 },
            CubeFace::PositiveY => Vec3 { x: 1, y: 0, z: 0 },
            CubeFace::NegativeY => Vec3 { x: 1, y: 0, z: 0 },
            CubeFace::PositiveZ => Vec3 { x: 1, y: 0, z: 0 },
            CubeFace::NegativeZ => Vec3 { x: -1, y: 0, z: 0 },
        }
    }
}

/// The rotation of a face's view, applied to `v`: the coordinates of `v` to
/// the right, to the top and towards the viewer. A view looks down its
/// negative z axis.
pub open spec fn view_rotate(face: CubeFace, v: V3) -> V3 {
    V3 {
        x: face.side_spec().dot(v),
        y: face.side_spec().cross(face.direction_spec()).dot(v),
        z: -face.direction_spec().dot(v),
    }
}

/// The coordinates of `v` in the view through `face`.
pub fn rotate_into_view(face: CubeFace, v: &Vec3) -> (r: Vec3)
    requires
        v@.within(i64::MAX as int),
    ensures
        r@ == view_rotate(face, v@),
{
    proof {
        lemma_view_rotate(face, v@);
    }
    match face {
        CubeFace::PositiveX => Vec3 { x: -v.z, y: -v.y, z: -v.x },
        CubeFace::NegativeX => Vec3 { x: v.z, y: -v.y, z: v.x },
        CubeFace::PositiveY => Vec3 { x: v.x, y: v.z, z: -v.y },
        CubeFace::NegativeY => Vec3 { x: v.x, y: -v.z, z: v.y },
        CubeFace::PositiveZ => Vec3 { x: v.x, y: -v.y, z: -v.z },
        CubeFace::NegativeZ => Vec3 { x: -v.x, y: -v.y, z: v.z },
    }
}

/// Each face's side axis is the cross product of its direction and its up
/// vector, and its up vector is orthogonal to its direction, so that the
/// view's own up axis is that up vector.
pub proof fn lemma_face_basis(face: CubeFace)
    ensures
        face.side_spec() == face.direction_spec().cross(face.up_spec()),
        face.side_spec().cross(face.direction_spec()) == face.up_spec(),
        face.direction_spec().dot(face.up_spec()) == 0,
        face.direction_spec().dot(face.side_spec()) == 0,
        face.up_spec().dot(face.side_spec()) == 0,
        face.direction_spec().norm2() == 1,
        face.up_spec().norm2() == 1,
        face.side_spec().norm2() == 1,
{
    let d = face.direction_spec();
    let u = face.up_spec();
    let s = face.side_spec();
    match face {
        CubeFace::PositiveX => {
            assert(d == V3 { x: 1, y: 0, z: 0 } && u == V3 { x: 0, y: -1, z: 0 });
            assert(d.cross(u) == s && s.cross(d) == u);
        },
        CubeFace::NegativeX => {
            assert(d == V3 { x: -1, y: 0, z: 0 } && u == V3 { x: 0, y: -1, z: 0 });
            assert(d.cross(u) == s && s.cross(d) == u);
        },
        CubeFace::PositiveY => {
            assert(d == V3 { x: 0, y: 1, z: 0 } && u == V3 { x: 0, y: 0, z: 1 });
            assert(d.cross(u) == s && s.cross(d) == u);
        },
        CubeFace::NegativeY => {
            assert(d == V3 { x: 0, y: -1, z: 0 } && u == V3 { x: 0, y: 0, z: -1 });
            assert(d.cross(u) == s && s.cross(d) == u);
        },
        CubeFace::PositiveZ => {
            assert(d == V3 { x: 0, y: 0, z: 1 } && u == V3 { x: 0, y: -1, z: 0 });
            assert(d.cross(u) == s && s.cross(d) == u);
        },
        CubeFace::NegativeZ => {
            assert(d == V3 { x: 0, y: 0, z: -1 } && u == V3 { x: 0, y: -1, z: 0 });
            assert(d.cross(u) == s && s.cross(d) == u);
        },
    }
}

/// The product of `x` with a sign: -1, 0 or 1.
pub open spec fn signed(c: int, x: int) -> int {
    if c == 0 {
        0
    } else if c > 0 {
        x
    } else {
        -x
    }
}

/// The dot product with a vector of signs picks components and signs.
pub proof fn lemma_dot_signs(a: V3, v: V3)
    requires
        a.within(1),
    ensures
        a.dot(v) == signed(a.x, v.x) + signed(a.y, v.y) + signed(a.z, v.z),
{
    assert(a.x * v.x == signed(a.x, v.x)) by (nonlinear_arith)
        requires
            -1 <= a.x <= 1,
    ;
    assert(a.y * v.y == signed(a.y, v.y)) by (nonlinear_arith)
        requires
            -1 <= a.y <= 1,
    ;
    assert(a.z * v.z == signed(a.z, v.z)) by (nonlinear_arith)
        requires
            -1 <= a.z <= 1,
    ;
}

/// The coordinates of `v` in the view of each face, written out.
pub proof fn lemma_view_rotate(face: CubeFace, v: V3)
    ensures
        view_rotate(face, v) == match face {
            CubeFace::PositiveX => V3 { x: -v.z, y: -v.y, z: -v.x },
            CubeFace::NegativeX => V3 { x: v.z, y: -v.y, z: v.x },
            CubeFace::PositiveY => V3 { x: v.x, y: v.z, z: -v.y },
            CubeFace::NegativeY => V3 { x: v.x, y: -v.z, z: v.y },
            CubeFace::PositiveZ => V3 { x: v.x, y: -v.y, z: -v.z },
            CubeFace::NegativeZ => V3 { x: -v.x, y: -v.y, z: v.z },
        },
{
    lemma_face_basis(face);
    let d = face.direction_spec();
    let u = face.up_spec();
    let s = face.side_spec();
    let r = view_rotate(face, v);
    assert(r.x == s.dot(v) && r.y == u.dot(v) && r.z == -d.dot(v));
    lemma_dot_signs(s, v);
    lemma_dot_signs(u, v);
    lemma_dot_signs(d, v);
    match face {
        CubeFace::PositiveX => {
            assert(d == V3 { x: 1, y: 0, z: 0 } && u == V3 { x: 0, y: -1, z: 0 });
            assert(s == V3 { x: 0, y: 0, z: -1 });
        },
        CubeFace::NegativeX => {
            assert(d == V3 { x: -1, y: 0, z: 0 } && u == V3 { x: 0, y: -1, z: 0 });
            assert(s == V3 { x: 0, y: 0, z: 1 });
        },
        CubeFace::PositiveY => {
            assert(d == V3 { x: 0, y: 1, z: 0 } && u == V3 { x: 0, y: 0, z: 1 });
            assert(s == V3 { x: 1, y: 0, z: 0 });
        },
        CubeFace::NegativeY => {
            assert(d == V3 { x: 0, y: -1, z: 0 } && u == V3 { x: 0, y: 0, z: -1 });
            assert(s == V3 { x: 1, y: 0, z: 0 });
        },
        CubeFace::PositiveZ => {
            assert(d == V3 { x: 0, y: 0, z: 1 } && u == V3 { x: 0, y: -1, z: 0 });
            assert(s == V3 { x: 1, y: 0, z: 0 });
        },
        CubeFace::NegativeZ => {
            assert(d == V3 { x: 0, y: 0, z: -1 } && u == V3 { x: 0, y: -1, z: 0 });
            assert(s == V3 { x: -1, y: 0, z: 0 });
        },
    }
}

/// The view of each face turns the direction in which the face looks into
/// the forward axis of the view.
pub proof fn lemma_face_forward(face: CubeFace)
    ensures
        view_rotate(face, face.direction_spec()) == (V3 { x: 0, y: 0, z: -1 }),
{
    lemma_view_rotate(face, face.direction_spec());
}

/// The view of each face is a rotation: it keeps the length of a vector.
pub proof fn lemma_face_rotation(face: CubeFace, v: V3)
    ensures
        view_rotate(face, v).norm2() == v.norm2(),
{
    let r = view_rotate(face, v);
    lemma_view_rotate(face, v);
    assert(r.x * r.x + r.y * r.y + r.z * r.z == v.x * v.x + v.y * v.y + v.z * v.z)
        by (nonlinear_arith)
        requires
            (r.x == v.x || r.x == -v.x) && (r.y == v.y || r.y == -v.y) && (r.z == v.z || r.z
                == -v.z) || (r.x == v.z || r.x == -v.z) && (r.y == v.y || r.y == -v.y) && (r.z
                == v.x || r.z == -v.x) || (r.x == v.x || r.x == -v.x) && (r.y == v.z || r.y
                == -v.z) && (r.z == v.y || r.z == -v.y),
    ;
}

/// The face on which the direction `v` falls: the one along the axis on
/// which `v` is longest. Between equals x goes before y, and y before z.
pub open spec fn select_face_spec(v: V3) -> CubeFace {
    let ax = abs_int(v.x);
    let ay = abs_int(v.y);
    let az = abs_int(v.z);
    if ax >= ay && ax >= az {
        if v.x >= 0 {
            CubeFace::PositiveX
        } else {
            CubeFace::NegativeX
        }
    } else if ay >= az {
        if v.y >= 0 {
            CubeFace::PositiveY
        } else {
            CubeFace::NegativeY
        }
    } else {
        if v.z >= 0 {
            CubeFace::PositiveZ
        } else {
            CubeFace::NegativeZ
        }
    }
}

/// A direction other than zero falls inside the square of its face: seen
/// through the face it lies in front of the viewer, and it is no further to
/// the side or to the top than it is in front.
pub proof fn lemma_select_face_covers(v: V3)
    requires
        !v.is_zero(),
    ensures
        ({
            let f = select_face_spec(v);
            let r = view_rotate(f, v);
            &&& -r.z > 0
            &&& -r.z == max3(abs_int(v.x), abs_int(v.y), abs_int(v.z))
            &&& abs_int(r.x) <= -r.z
            &&& abs_int(r.y) <= -r.z
        }),
{
    lemma_view_rotate(select_face_spec(v), v);
}

pub open spec fn max3(a: int, b: int, c: int) -> int {
    if a >= b && a >= c {
        a
    } else if b >= c {
        b
    } else {
        c
    }
}

/// The face on which the direction `v` falls.
pub fn select_face(v: &Vec3) -> (r: CubeFace)
    requires
        v@.within(i64::MAX as int),
    ensures
        r == select_face_spec(v@),
{
    let ax: i64 = if v.x < 0 { -v.x } else { v.x };
    let ay: i64 = if v.y < 0 { -v.y } else { v.y };
    let az: i64 = if v.z < 0 { -v.z } else { v.z };
    if ax >= ay && ax >= az {
        if v.x >= 0 {
            CubeFace::PositiveX
        } else {
            CubeFace::NegativeX
        }
    } else if ay >= az {
        if v.y >= 0 {
            CubeFace::PositiveY
        } else {
            CubeFace::NegativeY
        }
    } else {
        if v.z >= 0 {
            CubeFace::PositiveZ
        } else {
            CubeFace::NegativeZ
        }
    }
}

/// The view through one face of the cube: from the light towards a target
/// one step along the face's direction.
#[derive(Clone, Copy, Debug, PartialEq, Eq, Structural)]
pub struct FaceView {
    pub face: CubeFace,
    pub eye: Vec3,
    pub target: Vec3,
    pub up: Vec3,
}

/// The light-space transform of a point light: a perspective projection
/// with a square field of view of 90 degrees, shared by six views from the
/// light's position.
#[derive(Clone, Copy, Debug, PartialEq, Eq, Structural)]
pub struct CubeTransform {
    pub eye: Vec3,
    pub near: i64,
    pub far: i64,
    pub fov_degrees: u32,
    /// Width over height, in fixed point.
    pub aspect: u64,
}

/// Whether a point light may stand at `position` and reach `far_plane`.
pub open spec fn point_valid(position: V3, far_plane: int) -> bool {
    position.within(COORD_MAX as int) && NEAR_EPSILON < far_plane <= COORD_MAX
}

/// The view from `eye` through `face`.
pub open spec fn face_view_spec(eye: Vec3, face: CubeFace) -> FaceView {
    FaceView {
        face,
        eye,
        target: Vec3 {
            x: (eye.x + face.direction_spec().x) as i64,
            y: (eye.y + face.direction_spec().y) as i64,
            z: (eye.z + face.direction_spec().z) as i64,
        },
        up: Vec3 {
            x: face.up_spec().x as i64,
            y: face.up_spec().y as i64,
            z: face.up_spec().z as i64,
        },
    }
}

impl CubeTransform {
    pub open spec fn wf(self) -> bool {
        &&& point_valid(self.eye@, self.far as int)
        &&& self.near == NEAR_EPSILON
        &&& self.fov_degrees == CUBE_FOV_DEGREES
        &&& self.aspect == ONE
    }

    /// The view through one face.
    pub fn face_view(&self, face: CubeFace) -> (r: FaceView)
        requires
            self.wf(),
        ensures
            r == face_view_spec(self.eye, face),
            r.target@ == self.eye@.plus(face.direction_spec()),
            r.up@ == face.up_spec(),
    {
        let d = face.direction();
        FaceView { face, eye: self.eye, target: self.eye.plus(&d), up: face.up() }
    }

    /// The six views, in the usual order of cube faces.
    pub fn face_views(&self) -> (r: Vec<FaceView>)
        requires
            self.wf(),
        ensures
            r.len() == 6,
            forall|i: int|
                0 <= i < 6 ==> (#[trigger] r[i]).face.index_spec() == i && r[i] == face_view_spec(
                    self.eye,
                    r[i].face,
                ),
    {
        let mut views: Vec<FaceView> = Vec::new();
        let mut i: usize = 0;
        while i < 6
            invariant
                i <= 6,
                self.wf(),
                views.len() == i,
                forall|j: int|
                    0 <= j < i ==> (#[trigger] views[j]).face.index_spec() == j && views[j]
                        == face_view_spec(self.eye, views[j].face),
            decreases 6 - i,
        {
            let face = CubeFace::from_index(i).unwrap();
            let view = self.face_view(face);
            views.push(view);
            i = i + 1;
        }
        views
    }
}

/// Builds the light-space transform of a point light at `position` that
/// reaches as far as `far_plane`. The light is rejected where its position
/// lies outside the world or its far plane not beyond the near plane.
pub fn point_transform(position: &Vec3, far_plane: i64) -> (r: Result<CubeTransform, ShadowError>)
    ensures
        r is Ok <==> point_valid(position@, far_plane as int),
        r is Err ==> r->Err_0 == ShadowError::InvalidLightState,
        r is Ok ==> r->Ok_0 == (CubeTransform {
            eye: *position,
            near: NEAR_EPSILON,
            far: far_plane,
            fov_degrees: CUBE_FOV_DEGREES,
            aspect: ONE,
        }) && r->Ok_0.wf(),
{
    if !position.within(COORD_MAX) || far_plane <= NEAR_EPSILON || far_plane > COORD_MAX {
        return Err(ShadowError::InvalidLightState);
    }
    Ok(
        CubeTransform {
            eye: *position,
            near: NEAR_EPSILON,
            far: far_plane,
            fov_degrees: CUBE_FOV_DEGREES,
            aspect: ONE,
        },
    )
}

} // verus!
