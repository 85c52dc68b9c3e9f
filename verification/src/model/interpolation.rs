use vstd::prelude::*;

verus! {

/// How a keyframe segment interpolates from its keyframe to the next one.
#[derive(Debug, Clone, Copy, PartialEq, Eq, Hash, Structural)]
pub enum Interpolation {
    Linear,
    Hold,
    Smooth,
}

impl Interpolation {
    /// All interpolation modes, in declaration order.
    pub const ALL: [Interpolation; 3] = [
        Interpolation::Linear,
        Interpolation::Hold,
        Interpolation::Smooth,
    ];
}

impl Default for Interpolation {
    /// The default interpolation is `Smooth`.
    fn default() -> (r: Self)
        ensures
            r == Interpolation::Smooth,
    {
        Interpolation::Smooth
    }
}

} // verus!
