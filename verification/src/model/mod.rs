use vstd::prelude::*;

pub mod animatable_property;
pub mod clip;
pub mod clip_type;
pub mod edit_types;
pub mod interpolation;
pub mod keyframe;
pub mod library;
pub mod manifest;
pub mod media_asset;
pub mod media_folders;
pub mod text_style;
pub mod volume;

verus! {

/// The name of the model package.
pub const CRATE_NAME: &'static str = "palmier-model";

} // verus!
