//! Entity identification, classification and marker components.
use vstd::prelude::*;

verus! {

/// Human-readable name for an entity.
#[derive(Debug, Clone, PartialEq, Eq)]
pub struct EntityName(pub String);

/// Classification of a physics body, used for filtering, rendering
/// decisions and scenario-specific behaviour.
#[derive(Clone, Copy, PartialEq, Eq, Structural, Debug, Hash)]
pub enum BodyType {
    /// Main-sequence or evolved star.
    Star,
    /// Planetary body (rocky or gas giant).
    Planet,
    /// Natural satellite.
    Moon,
    /// Small rocky or metallic body.
    Asteroid,
    /// Generic point particle (no rotation).
    Particle,
    /// SPH fluid element.
    FluidParticle,
    /// Stellar remnant: white dwarf.
    WhiteDwarf,
    /// Stellar remnant: neutron star.
    NeutronStar,
    /// Stellar remnant: black hole.
    BlackHole,
}

impl Default for BodyType {
    /// A body is a planet unless stated otherwise.
    fn default() -> (b: Self)
        ensures
            b == BodyType::Planet,
    {
        BodyType::Planet
    }
}

/// Marker: the entity gravitationally lenses background light, using its
/// own mass and bounding radius as lens parameters.
#[derive(Clone, Copy, Debug)]
pub struct GravitationalLens;

/// Marker: the entity takes part in electromagnetic force calculations.
#[derive(Clone, Copy, Debug, Default)]
pub struct ChargedBody;

/// Marker: the entity receives general-relativistic corrections.
#[derive(Clone, Copy, Debug, Default)]
pub struct RelativisticBody;

/// Marker: the entity takes part in the thermal simulation.
#[derive(Clone, Copy, Debug, Default)]
pub struct ThermalBody;

/// Number of points sampled along a predicted orbit by default.
pub const DEFAULT_ORBIT_POINT_COUNT: usize = 128;

/// Predicted Keplerian orbit drawn for an entity.
#[derive(Clone, Debug)]
pub struct OrbitTrail {
    /// Number of points to sample along the predicted orbit.
    pub orbit_point_count: usize,
}

impl OrbitTrail {
    /// An orbit trail sampled at `orbit_point_count` points.
    pub fn new(orbit_point_count: usize) -> (t: Self)
        ensures
            t.orbit_point_count == orbit_point_count,
    {
        OrbitTrail { orbit_point_count }
    }
}

impl Default for OrbitTrail {
    fn default() -> (t: Self)
        ensures
            t.orbit_point_count == DEFAULT_ORBIT_POINT_COUNT,
    {
        OrbitTrail { orbit_point_count: DEFAULT_ORBIT_POINT_COUNT }
    }
}

/// Method of numerical integration used by the simulation.
#[derive(Clone, Copy, PartialEq, Eq, Structural, Debug)]
pub enum IntegrationMethod {
    /// Semi-implicit Euler: symplectic, first order.
    SemiImplicitEuler,
    /// Velocity Verlet: symplectic, second order.
    VelocityVerlet,
    /// Classical fourth-order Runge-Kutta.
    RungeKutta4,
}

} // verus!
