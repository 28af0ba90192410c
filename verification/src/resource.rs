//! The render target behind a shadow map: what to ask the allocator for,
//! what to accept from it, and when to ask again.

use crate::depth_map::MAX_RESOLUTION;
use crate::error::ShadowError;
use crate::light::Light;
use vstd::prelude::*;

verus! {

/// The shape of a shadow map.
#[derive(Clone, Copy, Debug, PartialEq, Eq, Structural)]
pub enum MapKind {
    /// One depth texture, for a directional light or one cascade.
    Flat,
    /// A cube of six depth textures, for a point light.
    Cube,
}

/// How a depth is stored in a texel.
#[derive(Clone, Copy, Debug, PartialEq, Eq, Structural)]
pub enum DepthFormat {
    /// A single channel of floating point.
    Float,
    /// A single channel of fixed point.
    Fixed,
}

/// A request to the allocator for a depth-only render target.
#[derive(Clone, Copy, Debug, PartialEq, Eq, Structural)]
pub struct TargetRequest {
    pub kind: MapKind,
    pub resolution: u32,
    pub format: DepthFormat,
}

/// A depth-only render target that the allocator has handed out. It
/// belongs to one light, for as long as the light lives.
#[derive(Clone, Copy, Debug, PartialEq, Eq, Structural)]
pub struct ShadowTarget {
    pub kind: MapKind,
    pub resolution: u32,
    pub framebuffer: u32,
    pub texture: u32,
}

/// What to do with a target when a resolution is asked for.
#[derive(Clone, Copy, Debug, PartialEq, Eq, Structural)]
pub enum TargetAction {
    /// The target has the resolution: keep it.
    Keep,
    /// The target has another resolution: release it and ask for a new one.
    Recreate { request: TargetRequest },
}

/// The shape of the shadow map of a light.
pub open spec fn kind_for_spec(light: Light) -> MapKind {
    match light {
        Light::Directional { .. } => MapKind::Flat,
        Light::Point { .. } => MapKind::Cube,
    }
}

/// Whether a target of this resolution can be asked for.
pub open spec fn resolution_valid(resolution: int) -> bool {
    1 <= resolution <= MAX_RESOLUTION
}

/// Whether the allocator has handed out a usable target: it gave both
/// handles, and it reports the target complete.
pub open spec fn handles_valid(framebuffer: u32, texture: u32, complete: bool) -> bool {
    framebuffer != 0 && texture != 0 && complete
}

/// The shape of the shadow map of a light.
pub fn kind_for(light: &Light) -> (r: MapKind)
    ensures
        r == kind_for_spec(*light),
{
    match light {
        Light::Directional { .. } => MapKind::Flat,
        Light::Point { .. } => MapKind::Cube,
    }
}

/// The request for the shadow map of a light. A resolution of zero, or one
/// beyond `MAX_RESOLUTION`, cannot be allocated.
pub fn request_target(light: &Light, resolution: u32, format: DepthFormat) -> (r: Result<
    TargetRequest,
    ShadowError,
>)
    ensures
        r is Ok <==> resolution_valid(resolution as int),
        r is Err ==> r->Err_0 == ShadowError::ResourceAllocationFailure,
        r is Ok ==> r->Ok_0 == (TargetRequest { kind: kind_for_spec(*light), resolution, format }),
{
    if resolution == 0 || resolution as usize > MAX_RESOLUTION {
        return Err(ShadowError::ResourceAllocationFailure);
    }
    Ok(TargetRequest { kind: kind_for(light), resolution, format })
}

impl ShadowTarget {
    /// The target has both handles and a resolution within the limits.
    pub open spec fn wf(self) -> bool {
        self.framebuffer != 0 && self.texture != 0 && resolution_valid(self.resolution as int)
    }

    /// Takes over what the allocator handed out for `request`. The
    /// allocation has failed where a handle is missing or the target is
    /// not complete.
    pub fn adopt(request: TargetRequest, framebuffer: u32, texture: u32, complete: bool) -> (r:
        Result<ShadowTarget, ShadowError>)
        ensures
            r is Ok <==> handles_valid(framebuffer, texture, complete) && resolution_valid(
                request.resolution as int,
            ),
            r is Err ==> r->Err_0 == ShadowError::ResourceAllocationFailure,
            r is Ok ==> r->Ok_0 == (ShadowTarget {
                kind: request.kind,
                resolution: request.resolution,
                framebuffer,
                texture,
            }) && r->Ok_0.wf(),
    {
        if framebuffer == 0 || texture == 0 || !complete || request.resolution == 0
            || request.resolution as usize > MAX_RESOLUTION {
            return Err(ShadowError::ResourceAllocationFailure);
        }
        Ok(
            ShadowTarget {
                kind: request.kind,
                resolution: request.resolution,
                framebuffer,
                texture,
            },
        )
    }

    /// A target is created anew only where the resolution changes.
    pub fn at_resolution(&self, resolution: u32, format: DepthFormat) -> (r: TargetAction)
        ensures
            resolution == self.resolution ==> r == TargetAction::Keep,
            resolution != self.resolution ==> r == (TargetAction::Recreate {
                request: TargetRequest { kind: self.kind, resolution, format },
            }),
    {
        if resolution == self.resolution {
            TargetAction::Keep
        } else {
            TargetAction::Recreate {
                request: TargetRequest { kind: self.kind, resolution, format },
            }
        }
    }
}

} // verus!
