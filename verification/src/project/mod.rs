use vstd::prelude::*;

pub mod bundle;
pub mod dialog;
pub mod document;
pub mod registry;
pub mod resolver;
pub mod samples;

verus! {

/// The bundle's required timeline file name.
pub const PROJECT_FILE: &'static str = "project.json";

/// The bundle's media manifest file name.
pub const MEDIA_FILE: &'static str = "media.json";

} // verus!
