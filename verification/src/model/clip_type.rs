use vstd::prelude::*;

use crate::text::str_eq;

verus! {

/// The kind of media a clip or a track holds.
#[derive(Debug, Clone, Copy, PartialEq, Eq, Hash, Structural)]
pub enum ClipType {
    Video,
    Audio,
    Image,
    Text,
    Lottie,
}

/// Which clip type a bare, case-sensitive file extension (no leading dot) maps to.
pub open spec fn spec_clip_type_for_extension(ext: Seq<char>) -> Option<ClipType> {
    if ext == "mov"@ || ext == "mp4"@ || ext == "m4v"@ {
        Some(ClipType::Video)
    } else if ext == "mp3"@ || ext == "wav"@ || ext == "aac"@ || ext == "m4a"@ {
        Some(ClipType::Audio)
    } else if ext == "png"@ || ext == "jpg"@ || ext == "jpeg"@ || ext == "tiff"@ || ext
        == "heic"@ || ext == "webp"@ {
        Some(ClipType::Image)
    } else if ext == "json"@ || ext == "lottie"@ {
        Some(ClipType::Lottie)
    } else {
        None
    }
}

impl ClipType {
    /// All clip types, in declaration order.
    pub const ALL: [ClipType; 5] = [
        ClipType::Video,
        ClipType::Audio,
        ClipType::Image,
        ClipType::Text,
        ClipType::Lottie,
    ];

    /// A visual type renders to the canvas; audio is the only non-visual type.
    pub open spec fn spec_is_visual(self) -> bool {
        !(self is Audio)
    }

    /// Whether this type renders to the canvas (video, image, text, lottie).
    pub fn is_visual(self) -> (r: bool)
        ensures
            r == self.spec_is_visual(),
    {
        match self {
            ClipType::Audio => false,
            _ => true,
        }
    }

    /// Whether a clip of this type may sit on a track of type `other`.
    pub open spec fn spec_is_compatible(self, other: ClipType) -> bool {
        self == other || (self.spec_is_visual() && other.spec_is_visual())
    }

    /// Whether a clip of this type may live on a track of `other`: every visual
    /// type is interchangeable with every other visual type; audio only with audio.
    pub fn is_compatible(self, other: ClipType) -> (r: bool)
        ensures
            r == self.spec_is_compatible(other),
    {
        self == other || (self.is_visual() && other.is_visual())
    }

    /// Map a case-sensitive file extension without its leading dot to a clip type.
    pub fn from_file_extension(ext: &str) -> (r: Option<ClipType>)
        ensures
            r == spec_clip_type_for_extension(ext@),
    {
        if str_eq(ext, "mov") || str_eq(ext, "mp4") || str_eq(ext, "m4v") {
            Some(ClipType::Video)
        } else if str_eq(ext, "mp3") || str_eq(ext, "wav") || str_eq(ext, "aac") || str_eq(
            ext,
            "m4a",
        ) {
            Some(ClipType::Audio)
        } else if str_eq(ext, "png") || str_eq(ext, "jpg") || str_eq(ext, "jpeg") || str_eq(
            ext,
            "tiff",
        ) || str_eq(ext, "heic") || str_eq(ext, "webp") {
            Some(ClipType::Image)
        } else if str_eq(ext, "json") || str_eq(ext, "lottie") {
            Some(ClipType::Lottie)
        } else {
            None
        }
    }
}

/// Compatibility is symmetric: a clip of `a` fits a track of `b` exactly when a
/// clip of `b` fits a track of `a`.
pub proof fn law_compatibility_symmetric(a: ClipType, b: ClipType)
    ensures
        a.spec_is_compatible(b) == b.spec_is_compatible(a),
{
}

/// Compatibility is reflexive and transitive, so the types split into two
/// classes: audio, and the four visual types.
pub proof fn law_compatibility_equivalence(a: ClipType, b: ClipType, c: ClipType)
    ensures
        a.spec_is_compatible(a),
        a.spec_is_compatible(b) && b.spec_is_compatible(c) ==> a.spec_is_compatible(c),
        a.spec_is_compatible(ClipType::Audio) <==> a == ClipType::Audio,
{
}

} // verus!
