use vstd::prelude::*;

verus! {

/// The manifest schema version written for a fresh manifest.
pub const CURRENT_MANIFEST_VERSION: u32 = 2;

/// The version a manifest that carries no version field is read as.
pub const LEGACY_MANIFEST_VERSION: u32 = 1;

/// Where the backing file of a media entry lives.
#[derive(Debug, Clone, PartialEq, Eq)]
pub enum MediaSource {
    /// An absolute path outside the project bundle.
    External { absolute_path: String },
    /// A path under the project bundle (already including the `media/` segment).
    Project { relative_path: String },
}

/// A folder in the media-library tree; `parent_id` is `None` at top level.
#[derive(Debug, Clone, PartialEq, Eq)]
pub struct MediaFolder {
    pub id: String,
    pub name: String,
    pub parent_id: Option<String>,
}

} // verus!
