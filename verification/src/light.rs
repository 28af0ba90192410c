//! Lights: a direction for a light at infinity, a position and a reach for
//! a light in the scene.

use crate::error::ShadowError;
use crate::vector::Vec3;
use crate::vector::COORD_MAX;
use crate::vector::DIR_MAX;
use vstd::prelude::*;

verus! {

/// The near plane of a point light's projection: the smallest positive
/// distance.
pub const NEAR_EPSILON: i64 = 1;

/// A source of light.
#[derive(Clone, Copy, Debug, PartialEq, Eq, Structural)]
pub enum Light {
    /// A light at infinity, shining along `direction`.
    Directional { direction: Vec3 },
    /// A light at `position` that reaches as far as `far_plane`.
    Point { position: Vec3, far_plane: i64 },
}

impl Light {
    /// A direction is usable when it is not the zero vector and its
    /// components are at most `DIR_MAX` in magnitude; a point light when its
    /// position is a world coordinate and its far plane lies beyond the
    /// near plane.
    pub open spec fn valid(self) -> bool {
        match self {
            Light::Directional { direction } => {
                !direction@.is_zero() && direction@.within(DIR_MAX as int)
            },
            Light::Point { position, far_plane } => {
                position@.within(COORD_MAX as int) && NEAR_EPSILON < far_plane <= COORD_MAX
            },
        }
    }

    /// Accepts a usable light and rejects every other.
    pub fn validate(&self) -> (r: Result<(), ShadowError>)
        ensures
            r is Ok <==> self.valid(),
            r is Err ==> r == Err::<(), ShadowError>(ShadowError::InvalidLightState),
    {
        let ok = match self {
            Light::Directional { direction } => !direction.is_zero() && direction.within(DIR_MAX),
            Light::Point { position, far_plane } => {
                position.within(COORD_MAX) && NEAR_EPSILON < *far_plane && *far_plane
                    <= COORD_MAX
            },
        };
        if ok {
            Ok(())
        } else {
            Err(ShadowError::InvalidLightState)
        }
    }

    pub fn is_directional(&self) -> (r: bool)
        ensures
            r == (self is Directional),
    {
        match self {
            Light::Directional { .. } => true,
            Light::Point { .. } => false,
        }
    }

    pub fn is_point(&self) -> (r: bool)
        ensures
            r == (self is Point),
    {
        match self {
            Light::Directional { .. } => false,
            Light::Point { .. } => true,
        }
    }

    /// Moves a point light; a directional light has no position and stays as
    /// it is. The kind of the light never changes.
    pub fn move_to(&mut self, position: Vec3)
        ensures
            *old(self) is Directional ==> *final(self) == *old(self),
            *old(self) matches Light::Point { far_plane, .. } ==> *final(self) == (Light::Point {
                position,
                far_plane,
            }),
    {
        match *self {
            Light::Directional { .. } => {},
            Light::Point { far_plane, .. } => {
                *self = Light::Point { position, far_plane };
            },
        }
    }

    /// Turns a directional light; a point light shines all around and stays
    /// as it is. The kind of the light never changes.
    pub fn turn_to(&mut self, direction: Vec3)
        ensures
            *old(self) is Point ==> *final(self) == *old(self),
            *old(self) is Directional ==> *final(self) == (Light::Directional { direction }),
    {
        match *self {
            Light::Directional { .. } => {
                *self = Light::Directional { direction };
            },
            Light::Point { .. } => {},
        }
    }
}

} // verus!
