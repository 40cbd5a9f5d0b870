//! What a surface does with a ray that hits it.
//!
//! There are exactly three kinds of surface. The directions and colours of a
//! scatter event are numeric work for the caller; which of the candidate rays
//! leaves the surface, or whether the light is swallowed, is decided here from
//! the outcome of the caller's comparisons.

use vstd::prelude::*;

verus! {

/// The kind of a surface.
#[derive(Clone, Copy, Debug, PartialEq, Eq, Structural)]
pub enum MaterialKind {
    /// Diffuse: scatters around the normal.
    Lambertian,
    /// Mirror-like, blurred by its fuzz.
    Metal,
    /// Transparent: reflects or refracts.
    Dielectric,
}

/// The comparisons that a scatter event rests on. Each material reads only
/// those that concern it.
#[derive(Clone, Copy, Debug, PartialEq, Eq, Structural)]
pub struct Incidence {
    /// Metal: the fuzzed reflection points away from the surface (its dot
    /// product with the normal is strictly positive).
    pub leaves_surface: bool,
    /// Dielectric: the refraction formula has a real solution.
    pub refracts: bool,
    /// Dielectric: the reflectance is at most the uniform draw.
    pub reflectance_at_most_draw: bool,
}

/// The ray with which light goes on after a hit, if it does.
#[derive(Clone, Copy, Debug, PartialEq, Eq, Structural)]
pub enum Scatter {
    /// The light ends here.
    Absorbed,
    /// It goes on along the normal plus a random offset.
    Diffuse,
    /// It goes on along the reflected direction.
    Reflected,
    /// It goes on along the refracted direction.
    Refracted,
}

/// The scatter policy. A diffuse surface always scatters. Metal scatters its
/// reflection while that points away from the surface, and absorbs otherwise.
/// A dielectric never absorbs: it refracts where refraction is possible and
/// the reflectance does not exceed the draw, and reflects in every other case.
pub open spec fn scatter_of(kind: MaterialKind, incidence: Incidence) -> Scatter {
    match kind {
        MaterialKind::Lambertian => Scatter::Diffuse,
        MaterialKind::Metal => if incidence.leaves_surface {
            Scatter::Reflected
        } else {
            Scatter::Absorbed
        },
        MaterialKind::Dielectric => if incidence.refracts && incidence.reflectance_at_most_draw {
            Scatter::Refracted
        } else {
            Scatter::Reflected
        },
    }
}

/// Decides how a surface of the given kind scatters.
pub fn scatter(kind: MaterialKind, incidence: Incidence) -> (outcome: Scatter)
    ensures
        outcome == scatter_of(kind, incidence),
        outcome is Absorbed <==> kind is Metal && !incidence.leaves_surface,
        outcome is Refracted ==> kind is Dielectric,
        outcome is Diffuse <==> kind is Lambertian,
{
    match kind {
        MaterialKind::Lambertian => Scatter::Diffuse,
        MaterialKind::Metal => {
            if incidence.leaves_surface {
                Scatter::Reflected
            } else {
                Scatter::Absorbed
            }
        },
        MaterialKind::Dielectric => {
            if incidence.refracts && incidence.reflectance_at_most_draw {
                Scatter::Refracted
            } else {
                Scatter::Reflected
            }
        },
    }
}

} // verus!
