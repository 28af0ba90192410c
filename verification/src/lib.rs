//! Shadow mapping over exact integer arithmetic.
//!
//! Given a scene, a camera and lights, the library finds for each fragment
//! of a visible surface how much of a light reaches it: it builds the
//! light-space transform of a light, cuts the camera's frustum into
//! cascades, writes the depths of occluders into a shadow map and filters
//! the map into a shadow factor.
//!
//! Positions and directions live on an integer lattice, whose step the
//! caller chooses; weights, cosines and shadow factors are fixed-point
//! numbers in units of `1 / scalar::ONE`. Every result is stated exactly,
//! roundings included.
//!
//! - `vector`, `bounds`, `scalar`, `bignat`: the arithmetic underneath.
//! - `light`, `transform`, `cube`: lights and their transforms.
//! - `split`, `frustum`, `cascade`, `snap`, `stability`: cascaded shadow
//!   maps.
//! - `depth_map`, `project`, `depth_pass`: shadow maps and how they are
//!   filled.
//! - `sampler`, `query`, `soundness`: the shadow factor of a fragment.
//! - `resource`, `pass_plan`, `uniforms`: what is asked of the graphics
//!   device.
//! - `input`, `mesh`: the keys and the vertex buffers of a viewer.

pub mod bignat;
pub mod bounds;
pub mod cascade;
pub mod cube;
pub mod depth_map;
pub mod depth_pass;
pub mod error;
pub mod frustum;
pub mod input;
pub mod light;
pub mod mesh;
pub mod pass_plan;
pub mod project;
pub mod query;
pub mod resource;
pub mod sampler;
pub mod scalar;
pub mod snap;
pub mod soundness;
pub mod split;
pub mod stability;
pub mod transform;
pub mod uniforms;
pub mod vector;
