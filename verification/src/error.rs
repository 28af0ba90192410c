//! The ways in which building a shadow can fail.

use vstd::prelude::*;

verus! {

/// Why a shadow could not be set up or computed.
#[derive(Clone, Copy, Debug, PartialEq, Eq, Structural)]
pub enum ShadowError {
    /// A light whose geometry is degenerate or cannot be represented.
    InvalidLightState,
    /// A render target could not be created.
    ResourceAllocationFailure,
    /// A camera whose near plane is not in front of its far plane, or a
    /// request for no cascade at all.
    DegenerateFrustum,
}

impl ShadowError {
    /// Whether the error ends the setup of the scene. The others cost one
    /// light its shadow for a frame, and the light is then treated as
    /// unshadowed.
    pub open spec fn aborts_setup_spec(self) -> bool {
        self != ShadowError::InvalidLightState
    }

    /// Whether the error ends the setup of the scene.
    pub fn aborts_setup(&self) -> (r: bool)
        ensures
            r == self.aborts_setup_spec(),
    {
        match self {
            ShadowError::InvalidLightState => false,
            ShadowError::ResourceAllocationFailure => true,
            ShadowError::DegenerateFrustum => true,
        }
    }

    /// A short description for a diagnostic.
    pub fn describe(&self) -> (r: &'static str)
        ensures
            r@ == match self {
                ShadowError::InvalidLightState => "invalid light state"@,
                ShadowError::ResourceAllocationFailure => "render target allocation failed"@,
                ShadowError::DegenerateFrustum => "degenerate frustum"@,
            },
    {
        match self {
            ShadowError::InvalidLightState => "invalid light state",
            ShadowError::ResourceAllocationFailure => "render target allocation failed",
            ShadowError::DegenerateFrustum => "degenerate frustum",
        }
    }
}

} // verus!
