use vstd::prelude::*;

verus! {

/// Sampler format version, stored in every `.embed` header; changing it
/// forces a clean re-index.
pub const SAMPLER_VERSION: i64 = 1;

/// Errors the frame sampler can surface.
#[derive(Debug, Clone, PartialEq, Eq)]
pub enum SampleError {
    /// Open, decode or scale failure, or no decodable video stream.
    Decode(String),
}

impl SampleError {
    /// The message shown for the error: `decode: <detail>`.
    pub fn message(&self) -> (r: String)
        ensures
            match self {
                SampleError::Decode(m) => r@ == "decode: "@ + m@,
            },
    {
        match self {
            SampleError::Decode(m) => {
                let mut s = "decode: ".to_string();
                s.append(m.as_str());
                s
            },
        }
    }
}

/// A shot-aware frame stream over a video; decoding runs in the application.
pub struct FrameSampler;

impl FrameSampler {
    /// The sampler format version.
    pub fn version() -> (r: i64)
        ensures
            r == SAMPLER_VERSION,
    {
        SAMPLER_VERSION
    }
}

} // verus!
