use vstd::prelude::*;

use crate::search::model_spec::{CONTEXT_LENGTH, EMBEDDING_DIM, IMAGE_SIZE, MODEL, MODEL_VERSION};

verus! {

/// Base URL the proposed default manifest downloads from.
pub const ONNX_COMMUNITY_BASE_URL: &'static str =
    "https://huggingface.co/onnx-community/siglip2-base-patch16-256-ONNX/resolve/main";

/// Marker for a SHA-256 that is filled in once the hosted files are chosen.
pub const SHA_PLACEHOLDER: &'static str = "<fill-from-download>";

/// File name of the vision encoder in the default manifest.
pub const VISION_MODEL_FILE: &'static str = "onnx/vision_model_fp16.onnx";

/// File name of the text encoder in the default manifest.
pub const TEXT_MODEL_FILE: &'static str = "onnx/text_model_fp16.onnx";

/// File name of the tokenizer in the default manifest.
pub const TOKENIZER_FILE: &'static str = "tokenizer.json";

/// One downloadable file with its integrity metadata.
#[derive(Debug, Clone, PartialEq, Eq)]
pub struct ManifestFile {
    pub name: String,
    pub sha256: String,
    pub bytes: u64,
}

/// The three files a model download consists of.
#[derive(Debug, Clone, PartialEq, Eq)]
pub struct OnnxFiles {
    pub vision_model: ManifestFile,
    pub text_model: ManifestFile,
    pub tokenizer: ManifestFile,
}

/// The model download manifest.
#[derive(Debug, Clone, PartialEq, Eq)]
pub struct OnnxManifest {
    pub model: String,
    pub version: i64,
    pub embedding_dim: usize,
    pub image_size: usize,
    pub context_length: usize,
    pub base_url: String,
    pub files: OnnxFiles,
}

/// A file entry whose hash and size are still placeholders.
pub open spec fn is_placeholder_file(f: ManifestFile, name: Seq<char>) -> bool {
    &&& f.name@ == name
    &&& f.sha256@ == SHA_PLACEHOLDER@
    &&& f.bytes == 0
}

fn placeholder_file(name: &str) -> (r: ManifestFile)
    ensures
        is_placeholder_file(r, name@),
{
    ManifestFile { name: name.to_string(), sha256: SHA_PLACEHOLDER.to_string(), bytes: 0 }
}

impl OnnxManifest {
    /// The proposed default manifest: the model constants come from the model
    /// spec, so they cannot drift from the `.embed` header contract; hashes and
    /// sizes are placeholders.
    pub fn proposed_default() -> (r: Self)
        ensures
            r.model@ == MODEL@,
            r.version == MODEL_VERSION,
            r.embedding_dim == EMBEDDING_DIM,
            r.image_size == IMAGE_SIZE,
            r.context_length == CONTEXT_LENGTH,
            r.base_url@ == ONNX_COMMUNITY_BASE_URL@,
            is_placeholder_file(r.files.vision_model, VISION_MODEL_FILE@),
            is_placeholder_file(r.files.text_model, TEXT_MODEL_FILE@),
            is_placeholder_file(r.files.tokenizer, TOKENIZER_FILE@),
    {
        OnnxManifest {
            model: MODEL.to_string(),
            version: MODEL_VERSION,
            embedding_dim: EMBEDDING_DIM,
            image_size: IMAGE_SIZE,
            context_length: CONTEXT_LENGTH,
            base_url: ONNX_COMMUNITY_BASE_URL.to_string(),
            files: OnnxFiles {
                vision_model: placeholder_file(VISION_MODEL_FILE),
                text_model: placeholder_file(TEXT_MODEL_FILE),
                tokenizer: placeholder_file(TOKENIZER_FILE),
            },
        }
    }
}

} // verus!
