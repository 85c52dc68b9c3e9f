use vstd::prelude::*;

verus! {

/// The live generation state of an asset; `Failed` carries the error message.
#[derive(Debug, Clone, PartialEq, Eq)]
pub enum GenerationStatus {
    /// No generation is in flight.
    Idle,
    Generating,
    Downloading,
    Rendering,
    Failed(String),
}

impl Default for GenerationStatus {
    fn default() -> (r: Self)
        ensures
            r is Idle,
    {
        GenerationStatus::Idle
    }
}

impl GenerationStatus {
    /// A generation is in flight while it is queued or running.
    pub open spec fn spec_is_in_flight(&self) -> bool {
        self is Generating || self is Downloading || self is Rendering
    }

    /// Whether a generation is in flight (generating, downloading or rendering).
    pub fn is_in_flight(&self) -> (r: bool)
        ensures
            r == self.spec_is_in_flight(),
    {
        match self {
            GenerationStatus::Generating => true,
            GenerationStatus::Downloading => true,
            GenerationStatus::Rendering => true,
            _ => false,
        }
    }
}

} // verus!
