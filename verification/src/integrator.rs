//! The bounce rule of the recursive radiance estimator.
//!
//! The estimator follows a ray through the scene.  What the ray meets is
//! computed by the caller; what that means for the radiance, and whether the
//! path goes on, is decided here.

use vstd::prelude::*;

verus! {

/// The default bounce budget of a path.
pub const MAX_DEPTH: i32 = 50;

/// What a ray met in the scene.
#[derive(Clone, Copy, Debug, PartialEq, Eq, Structural)]
pub enum Interaction {
    /// Nothing was hit.
    Miss,
    /// A surface was hit whose material did not scatter the ray.
    Absorbed,
    /// A surface was hit whose material scattered the ray.
    Scattered,
}

/// The radiance that a ray carries back.
#[derive(Clone, Copy, Debug, PartialEq, Eq, Structural)]
pub enum Radiance {
    /// No light at all.
    Black,
    /// The colour of the background.
    Background,
    /// What the surface emits at the hit.
    Emitted,
    /// What the surface emits, plus the attenuation times the radiance of the
    /// scattered ray, which is followed with the budget `depth`.
    EmittedAndScattered { depth: i32 },
}

/// The radiance rule as a function of the budget and of what the ray met.
pub open spec fn spec_ray_color(depth: i32, interaction: Interaction) -> Radiance {
    if depth <= 0 {
        Radiance::Black
    } else {
        match interaction {
            Interaction::Miss => Radiance::Background,
            Interaction::Absorbed => Radiance::Emitted,
            Interaction::Scattered => Radiance::EmittedAndScattered { depth: (depth - 1) as i32 },
        }
    }
}

/// Whether a path with the budget `depth` gathers no more light, so that the
/// scene need not be queried.
pub fn exhausted(depth: i32) -> (done: bool)
    ensures
        done == (depth <= 0),
        done ==> forall|interaction: Interaction|
            spec_ray_color(depth, interaction) == Radiance::Black,
{
    depth <= 0
}

/// The radiance of a ray with the budget `depth` that met `interaction`.
///
/// A path whose budget is used up carries no light, whatever it met.  A miss
/// gives the background, an absorbing surface what it emits, and a scattering
/// surface adds the attenuated radiance of the scattered ray, which has one
/// bounce less to spend.
pub fn ray_color(depth: i32, interaction: Interaction) -> (radiance: Radiance)
    ensures
        radiance == spec_ray_color(depth, interaction),
        depth <= 0 ==> radiance == Radiance::Black,
        radiance matches Radiance::EmittedAndScattered { depth: rest } ==> 0 <= rest < depth,
{
    if depth <= 0 {
        return Radiance::Black;
    }
    match interaction {
        Interaction::Miss => Radiance::Background,
        Interaction::Absorbed => Radiance::Emitted,
        Interaction::Scattered => Radiance::EmittedAndScattered { depth: depth - 1 },
    }
}

/// The most bounces that a path with the budget `depth` can make: the budget
/// itself, or none for a budget that is not positive.
pub open spec fn max_bounces(depth: i32) -> nat {
    if depth <= 0 {
        0
    } else {
        depth as nat
    }
}

/// How many surfaces a path with the budget `depth` is scattered by, when the
/// rays it follows meet `interactions` in turn.
pub open spec fn bounces(depth: i32, interactions: Seq<Interaction>) -> nat
    decreases interactions.len(),
{
    if interactions.len() == 0 {
        0
    } else {
        match spec_ray_color(depth, interactions[0]) {
            Radiance::EmittedAndScattered { depth: rest } => 1 + bounces(
                rest,
                interactions.drop_first(),
            ),
            _ => 0,
        }
    }
}

/// Whatever the rays of a path meet, the path ends after at most as many
/// bounces as its budget allows.
pub proof fn lemma_bounces_bounded(depth: i32, interactions: Seq<Interaction>)
    ensures
        bounces(depth, interactions) <= max_bounces(depth),
    decreases interactions.len(),
{
    if interactions.len() > 0 {
        match spec_ray_color(depth, interactions[0]) {
            Radiance::EmittedAndScattered { depth: rest } => {
                lemma_bounces_bounded(rest, interactions.drop_first());
            },
            _ => {},
        }
    }
}

} // verus!
