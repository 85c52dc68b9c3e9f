use vstd::prelude::*;

verus! {

/// The bundle directory extension, without the dot.
pub const FILE_EXTENSION: &'static str = "palmier";
/// The required timeline document.
pub const TIMELINE_FILE: &'static str = "project.json";
/// The optional media manifest.
pub const MANIFEST_FILE: &'static str = "media.json";
/// The optional generation log.
pub const GENERATION_LOG_FILE: &'static str = "generation-log.json";
/// The optional JPEG poster.
pub const THUMBNAIL_FILE: &'static str = "thumbnail.jpg";
/// The internalized-media directory.
pub const MEDIA_DIR: &'static str = "media";
/// The per-session chat directory.
pub const CHAT_DIR: &'static str = "chat";
/// The project registry file name.
pub const REGISTRY_FILE: &'static str = "project-registry.json";

} // verus!
