use vstd::prelude::*;

verus! {

/// The decibel ranges of clip volume. Three separate pairs: the editing range,
/// the rubber-band drawing axis, and the keyframe-storage floor.
pub struct VolumeScale;

impl VolumeScale {
    /// Editing-range floor in dB: below it audio is hard-muted.
    pub const FLOOR_DB: i32 = -60;
    /// Editing-range ceiling in dB: up to +15 dB of amplification.
    pub const CEILING_DB: i32 = 15;
    /// Top of the rubber-band drawing axis in dB.
    pub const RUBBER_BAND_TOP_DB: i32 = 6;
    /// Bottom of the rubber-band drawing axis in dB.
    pub const RUBBER_BAND_BOTTOM_DB: i32 = -60;
    /// Floor for dB values stored in volume keyframes (provisionally the editing floor).
    pub const KEYFRAME_STORAGE_FLOOR_DB: i32 = -60;
}

} // verus!
