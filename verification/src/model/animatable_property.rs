use vstd::prelude::*;

verus! {

/// Which animatable clip property a keyframe lane drives.
#[derive(Debug, Clone, Copy, PartialEq, Eq, Hash, Structural)]
pub enum AnimatableProperty {
    Opacity,
    Position,
    Scale,
    Rotation,
    Crop,
    Volume,
}

impl AnimatableProperty {
    /// All animatable properties, in declaration order.
    pub const ALL: [AnimatableProperty; 6] = [
        AnimatableProperty::Opacity,
        AnimatableProperty::Position,
        AnimatableProperty::Scale,
        AnimatableProperty::Rotation,
        AnimatableProperty::Crop,
        AnimatableProperty::Volume,
    ];
}

} // verus!
