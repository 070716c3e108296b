//! What the kinds of material decide about a ray that strikes them.  The
//! directions and colours are the caller's arithmetic; the quantities that
//! a decision compares come in as ordered codes.

use crate::integrator::Interaction;
use vstd::prelude::*;

verus! {

/// The code of the number one.
pub const ONE: i32 = 0x3f80_0000;

/// The kinds of material.
#[derive(Clone, Copy, Debug, PartialEq, Eq, Structural)]
pub enum Material {
    /// A diffuse surface.
    Lambertian,
    /// A mirror, more or less polished.
    Metal,
    /// A clear medium that refracts.
    Dielectric,
    /// A surface that gives off light.
    DiffuseLight,
}

/// How a dielectric sends a ray on.
#[derive(Clone, Copy, Debug, PartialEq, Eq, Structural)]
pub enum Bounce {
    Reflect,
    Refract,
}

impl Material {
    /// Whether the material scatters a ray: a diffuse surface and a
    /// dielectric always do, a light never does, and a metal does if the
    /// mirrored direction leaves the surface, that is if its dot product
    /// with the normal, given by its code, is positive.
    pub open spec fn spec_scatter(self, reflected_dot_normal: i32) -> bool {
        match self {
            Material::Lambertian => true,
            Material::Metal => reflected_dot_normal > 0,
            Material::Dielectric => true,
            Material::DiffuseLight => false,
        }
    }

    pub fn scatter(&self, reflected_dot_normal: i32) -> (scattered: bool)
        ensures
            scattered == self.spec_scatter(reflected_dot_normal),
    {
        match self {
            Material::Lambertian => true,
            Material::Metal => reflected_dot_normal > 0,
            Material::Dielectric => true,
            Material::DiffuseLight => false,
        }
    }

    /// Whether the material gives off light of its own; all others emit
    /// black.
    pub fn emitted(&self) -> (emits: bool)
        ensures
            emits == (*self == Material::DiffuseLight),
    {
        match self {
            Material::DiffuseLight => true,
            _ => false,
        }
    }

    /// What a ray that struck a surface of this material met.
    pub fn interaction(&self, reflected_dot_normal: i32) -> (met: Interaction)
        ensures
            met == if self.spec_scatter(reflected_dot_normal) {
                Interaction::Scattered
            } else {
                Interaction::Absorbed
            },
    {
        if self.scatter(reflected_dot_normal) {
            Interaction::Scattered
        } else {
            Interaction::Absorbed
        }
    }
}

/// Whether a dielectric reflects or refracts.  `sine` is the code of the
/// sine that the law of refraction asks for on the far side; if it exceeds
/// one, no refracted ray exists.  Otherwise the ray is reflected if the
/// reflectance exceeds the number drawn.
pub fn bounce(sine: i32, reflectance: i32, draw: i32) -> (bounce: Bounce)
    ensures
        bounce == if sine > ONE || reflectance > draw {
            Bounce::Reflect
        } else {
            Bounce::Refract
        },
{
    let cannot_refract = sine > ONE;
    if cannot_refract || reflectance > draw {
        Bounce::Reflect
    } else {
        Bounce::Refract
    }
}

/// Whether a direction is too close to zero to be one: each of its three
/// components, given by its code, lies strictly between the opposite of the
/// threshold and the threshold.
pub fn near_zero(x: i32, y: i32, z: i32, threshold: i32) -> (degenerate: bool)
    ensures
        degenerate == (-threshold < x < threshold && -threshold < y < threshold && -threshold
            < z < threshold),
{
    let low: i64 = -(threshold as i64);
    low < x as i64 && x < threshold && low < y as i64 && y < threshold && low < z as i64 && z
        < threshold
}

} // verus!
