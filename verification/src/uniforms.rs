//! What the shading programs are told about a light's shadow: the values
//! to bind, each under its name. The library names the values; whoever
//! owns the programs binds them.

use crate::cascade::Cascade;
use crate::cube::CubeFace;
use crate::sampler::BiasRange;
use crate::transform::LightTransform;
use crate::vector::Vec3;
use vstd::prelude::*;

verus! {

/// A value to bind in a shading program.
#[derive(Clone, Copy, Debug, PartialEq, Eq, Structural)]
pub enum Uniform {
    /// The light-space matrix of a directional light, or of the cascade
    /// with this index.
    LightSpaceMatrix { index: usize },
    /// The light-space matrix of one face of a point light's cube.
    FaceMatrix { face: CubeFace },
    /// The far plane by which the depths of a cube are normalised.
    FarPlane { distance: i64 },
    /// The position of a point light.
    LightPosition { position: Vec3 },
    /// The far cut of the cascade with this index.
    CascadeFar { index: usize, depth: u64 },
    /// The least and the greatest bias.
    Bias { range: BiasRange },
    /// The texture unit of the shadow map, or of the map of the cascade
    /// with this index.
    ShadowMapSlot { index: usize, unit: u32 },
}

impl Uniform {
    /// The name under which the value is bound. The values of an array
    /// share the name of the array.
    pub fn name(&self) -> (r: &'static str)
        ensures
            r@ == match self {
                Uniform::LightSpaceMatrix { .. } => "lightSpaceMatrix"@,
                Uniform::FaceMatrix { .. } => "shadowMatrices"@,
                Uniform::FarPlane { .. } => "far_plane"@,
                Uniform::LightPosition { .. } => "lightPos"@,
                Uniform::CascadeFar { .. } => "cascadePlaneDistances"@,
                Uniform::Bias { .. } => "shadowBias"@,
                Uniform::ShadowMapSlot { .. } => "shadowMap"@,
            },
    {
        match self {
            Uniform::LightSpaceMatrix { .. } => "lightSpaceMatrix",
            Uniform::FaceMatrix { .. } => "shadowMatrices",
            Uniform::FarPlane { .. } => "far_plane",
            Uniform::LightPosition { .. } => "lightPos",
            Uniform::CascadeFar { .. } => "cascadePlaneDistances",
            Uniform::Bias { .. } => "shadowBias",
            Uniform::ShadowMapSlot { .. } => "shadowMap",
        }
    }

    /// The place of the value in its array; none for a value that stands
    /// alone.
    pub open spec fn place_spec(self) -> Option<usize> {
        match self {
            Uniform::LightSpaceMatrix { index } => Some(index),
            Uniform::FaceMatrix { face } => Some(face.index_spec() as usize),
            Uniform::CascadeFar { index, .. } => Some(index),
            Uniform::ShadowMapSlot { index, .. } => Some(index),
            Uniform::FarPlane { .. } => None,
            Uniform::LightPosition { .. } => None,
            Uniform::Bias { .. } => None,
        }
    }

    /// The place of the value in its array.
    pub fn place(&self) -> (r: Option<usize>)
        ensures
            r == self.place_spec(),
    {
        match self {
            Uniform::LightSpaceMatrix { index } => Some(*index),
            Uniform::FaceMatrix { face } => Some(face.index()),
            Uniform::CascadeFar { index, .. } => Some(*index),
            Uniform::ShadowMapSlot { index, .. } => Some(*index),
            Uniform::FarPlane { .. } => None,
            Uniform::LightPosition { .. } => None,
            Uniform::Bias { .. } => None,
        }
    }
}

/// The values for a light without cascades.
pub open spec fn light_uniforms_spec(t: LightTransform, bias: BiasRange, unit: u32) -> Seq<Uniform> {
    match t {
        LightTransform::Directional(_) => seq![
            Uniform::LightSpaceMatrix { index: 0 },
            Uniform::Bias { range: bias },
            Uniform::ShadowMapSlot { index: 0, unit },
        ],
        LightTransform::Point(c) => seq![
            Uniform::FaceMatrix { face: CubeFace::PositiveX },
            Uniform::FaceMatrix { face: CubeFace::NegativeX },
            Uniform::FaceMatrix { face: CubeFace::PositiveY },
            Uniform::FaceMatrix { face: CubeFace::NegativeY },
            Uniform::FaceMatrix { face: CubeFace::PositiveZ },
            Uniform::FaceMatrix { face: CubeFace::NegativeZ },
            Uniform::FarPlane { distance: c.far },
            Uniform::LightPosition { position: c.eye },
            Uniform::Bias { range: bias },
            Uniform::ShadowMapSlot { index: 0, unit },
        ],
    }
}

/// The values to bind for a light without cascades: its matrix or
/// matrices, for a point light the far plane and the position, the bias
/// pair and the texture unit of the shadow map.
pub fn light_uniforms(t: &LightTransform, bias: BiasRange, unit: u32) -> (r: Vec<Uniform>)
    ensures
        r@ == light_uniforms_spec(*t, bias, unit),
{
    let mut out: Vec<Uniform> = Vec::new();
    match t {
        LightTransform::Directional(_) => {
            out.push(Uniform::LightSpaceMatrix { index: 0 });
        },
        LightTransform::Point(c) => {
            out.push(Uniform::FaceMatrix { face: CubeFace::PositiveX });
            out.push(Uniform::FaceMatrix { face: CubeFace::NegativeX });
            out.push(Uniform::FaceMatrix { face: CubeFace::PositiveY });
            out.push(Uniform::FaceMatrix { face: CubeFace::NegativeY });
            out.push(Uniform::FaceMatrix { face: CubeFace::PositiveZ });
            out.push(Uniform::FaceMatrix { face: CubeFace::NegativeZ });
            out.push(Uniform::FarPlane { distance: c.far });
            out.push(Uniform::LightPosition { position: c.eye });
        },
    }
    out.push(Uniform::Bias { range: bias });
    out.push(Uniform::ShadowMapSlot { index: 0, unit });
    assert(out@ =~= light_uniforms_spec(*t, bias, unit));
    out
}

/// The values for the first `k` cascades: for each its matrix, its far cut
/// and the texture unit of its map, the units counted on from `first`.
pub open spec fn cascade_values(cs: Seq<Cascade>, first: u32, k: nat) -> Seq<Uniform>
    decreases k,
{
    if k == 0 {
        Seq::empty()
    } else {
        let i = (k - 1) as int;
        cascade_values(cs, first, (k - 1) as nat) + seq![
            Uniform::LightSpaceMatrix { index: i as usize },
            Uniform::CascadeFar { index: i as usize, depth: cs[i].split.far },
            Uniform::ShadowMapSlot { index: i as usize, unit: (first + i) as u32 },
        ]
    }
}

/// The values to bind for a light with cascades: those of each cascade,
/// then the bias pair. None where the texture units run out.
pub fn cascade_uniforms(cascades: &Vec<Cascade>, bias: BiasRange, first_unit: u32) -> (r: Option<
    Vec<Uniform>,
>)
    ensures
        r is Some <==> first_unit + cascades.len() <= u32::MAX + 1,
        r is Some ==> r->0@ == cascade_values(cascades@, first_unit, cascades.len() as nat) + seq![
            Uniform::Bias { range: bias },
        ],
{
    if cascades.len() as u64 > u32::MAX as u64 + 1 - first_unit as u64 {
        return None;
    }
    let mut out: Vec<Uniform> = Vec::new();
    let mut i: usize = 0;
    while i < cascades.len()
        invariant
            i <= cascades.len(),
            first_unit + cascades.len() <= u32::MAX + 1,
            out@ == cascade_values(cascades@, first_unit, i as nat),
        decreases cascades.len() - i,
    {
        let ghost before = out@;
        out.push(Uniform::LightSpaceMatrix { index: i });
        out.push(Uniform::CascadeFar { index: i, depth: cascades[i].split.far });
        out.push(Uniform::ShadowMapSlot { index: i, unit: first_unit + i as u32 });
        assert(out@ =~= before + seq![
            Uniform::LightSpaceMatrix { index: i },
            Uniform::CascadeFar { index: i, depth: cascades[i as int].split.far },
            Uniform::ShadowMapSlot { index: i, unit: (first_unit + i) as u32 },
        ]);
        i = i + 1;
    }
    out.push(Uniform::Bias { range: bias });
    Some(out)
}

} // verus!
