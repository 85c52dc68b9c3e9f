use vstd::prelude::*;

verus! {

/// Model identifier written into the `.embed` header (`Header.model`).
pub const MODEL: &'static str = "siglip2-base-patch16-256";

/// `Header.modelVersion`. Bumped to 2 so an index built by another encoder is
/// treated as stale and rebuilt.
pub const MODEL_VERSION: i64 = 2;

/// `Header.samplerVersion`.
pub const SAMPLER_VERSION: i64 = 1;

/// Embedding dimensionality (`Header.dim`).
pub const EMBEDDING_DIM: usize = 768;

/// Square image input edge in pixels (squash-resize target).
pub const IMAGE_SIZE: usize = 256;

/// Text context length: queries are padded or truncated to this many token ids.
pub const CONTEXT_LENGTH: usize = 64;

} // verus!
