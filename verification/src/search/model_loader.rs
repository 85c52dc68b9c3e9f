use vstd::prelude::*;

use crate::path::{join, spec_join};
use crate::sys::{exists_reply, lemma_exists_reply, path_exists};

verus! {

/// File name of the vision encoder in an installed model directory.
pub const VISION_MODEL_NAME: &'static str = "vision_model.onnx";

/// File name of the text encoder in an installed model directory.
pub const TEXT_MODEL_NAME: &'static str = "text_model.onnx";

/// File name of the tokenizer in an installed model directory.
pub const TOKENIZER_NAME: &'static str = "tokenizer.json";

/// The on-disk location of an installed model: one directory holding the two
/// encoders and the tokenizer.
#[derive(Debug, Clone, PartialEq, Eq)]
pub struct InstalledModel {
    pub dir: String,
}

impl InstalledModel {
    /// `<dir>/vision_model.onnx`.
    pub fn vision_model_path(&self) -> (r: String)
        ensures
            r@ == spec_join(self.dir@, VISION_MODEL_NAME@),
    {
        join(self.dir.as_str(), VISION_MODEL_NAME)
    }

    /// `<dir>/text_model.onnx`.
    pub fn text_model_path(&self) -> (r: String)
        ensures
            r@ == spec_join(self.dir@, TEXT_MODEL_NAME@),
    {
        join(self.dir.as_str(), TEXT_MODEL_NAME)
    }

    /// `<dir>/tokenizer.json`.
    pub fn tokenizer_path(&self) -> (r: String)
        ensures
            r@ == spec_join(self.dir@, TOKENIZER_NAME@),
    {
        join(self.dir.as_str(), TOKENIZER_NAME)
    }

    /// Whether all three files exist on disk, asked of the file system in turn
    /// (vision model, text model, tokenizer) until one is reported missing:
    /// true exactly when the file system reported every one of them present.
    pub fn is_complete(&self) -> (r: bool)
        ensures
            model_files_reply(self.dir@, r),
    {
        let v = self.vision_model_path();
        let t = self.text_model_path();
        let k = self.tokenizer_path();
        let vs = v.as_str();
        let a = path_exists(vs);
        proof {
            lemma_exists_reply(vs, a);
        }
        if !a {
            return false;
        }
        let ts = t.as_str();
        let b = path_exists(ts);
        proof {
            lemma_exists_reply(ts, b);
        }
        if !b {
            return false;
        }
        let ks = k.as_str();
        let c = path_exists(ks);
        proof {
            lemma_exists_reply(ks, c);
        }
        c
    }

    /// The installed model at `dir` when all three files are present there:
    /// found exactly when the file system reported every one of them present.
    pub fn probe(dir: &str) -> (r: Option<Self>)
        ensures
            r matches Some(m) ==> m.dir@ == dir@,
            exists|found: bool| #[trigger] model_files_reply(dir@, found) && (r is Some <==> found),
    {
        let m = InstalledModel { dir: dir.to_string() };
        let found = m.is_complete();
        if found {
            Some(m)
        } else {
            None
        }
    }
}

/// A model is found only when the file system reported all three of its
/// files present: whatever `probe(dir)` gives, a found model sits at `dir`
/// and the file system answered that its vision model, text model and
/// tokenizer each exist; when nothing is found, the file system answered that
/// one of the three does not exist.
pub proof fn law_probe_needs_all_three_files(dir: &str, r: Option<InstalledModel>)
    requires
        call_ensures(InstalledModel::probe, (dir,), r),
    ensures
        r matches Some(m) ==> m.dir@ == dir@ && exists_reply(spec_join(dir@, VISION_MODEL_NAME@), true)
            && exists_reply(spec_join(dir@, TEXT_MODEL_NAME@), true) && exists_reply(
            spec_join(dir@, TOKENIZER_NAME@),
            true,
        ),
        r is None ==> exists_reply(spec_join(dir@, VISION_MODEL_NAME@), false) || exists_reply(
            spec_join(dir@, TEXT_MODEL_NAME@),
            false,
        ) || exists_reply(spec_join(dir@, TOKENIZER_NAME@), false),
{
    let found = choose|found: bool| #[trigger] model_files_reply(dir@, found) && (r is Some <==> found);
    let a = choose|a: bool|
        #[trigger] exists_reply(spec_join(dir@, VISION_MODEL_NAME@), a) && if !a {
            !found
        } else {
            exists|b: bool|
                #[trigger] exists_reply(spec_join(dir@, TEXT_MODEL_NAME@), b) && if !b {
                    !found
                } else {
                    exists|c: bool| #[trigger] exists_reply(spec_join(dir@, TOKENIZER_NAME@), c) && found == c
                }
        };
    if a {
        let b = choose|b: bool|
            #[trigger] exists_reply(spec_join(dir@, TEXT_MODEL_NAME@), b) && if !b {
                !found
            } else {
                exists|c: bool| #[trigger] exists_reply(spec_join(dir@, TOKENIZER_NAME@), c) && found == c
            };
        if b {
            let c = choose|c: bool| #[trigger] exists_reply(spec_join(dir@, TOKENIZER_NAME@), c) && found == c;
        }
    }
}

/// `answer` is how the file system answered whether the model files of `dir`
/// are all present, asked in turn for the vision model, the text model and the
/// tokenizer and stopping at the first reported missing: true exactly when
/// each of the three was reported present.
pub open spec fn model_files_reply(dir: Seq<char>, answer: bool) -> bool {
    exists|a: bool|
        #[trigger] exists_reply(spec_join(dir, VISION_MODEL_NAME@), a) && if !a {
            !answer
        } else {
            exists|b: bool|
                #[trigger] exists_reply(spec_join(dir, TEXT_MODEL_NAME@), b) && if !b {
                    !answer
                } else {
                    exists|c: bool| #[trigger] exists_reply(spec_join(dir, TOKENIZER_NAME@), c) && answer == c
                }
        }
}

// ---------------------------------------------------------------------------
// The loader state machine
// ---------------------------------------------------------------------------

/// The visual model's load state. A download's progress fraction (`0.0..=1.0`)
/// is held as its `f64` bit pattern (`f64::to_bits`).
#[derive(Debug, Clone, PartialEq)]
pub enum ModelState {
    /// `prepare` has not run yet.
    Unknown,
    /// No installed model on disk; a download is required.
    NotInstalled,
    /// A download is in flight, with the fraction done.
    Downloading(u64),
    /// An installed model was found and is loading.
    Preparing,
    /// The embedder is loaded and usable.
    Ready,
    /// Loading or downloading failed, with the reason.
    Failed(String),
}

impl ModelState {
    /// Whether the embedder is loaded and usable.
    pub fn is_ready(&self) -> (r: bool)
        ensures
            r == (*self is Ready),
    {
        match self {
            ModelState::Ready => true,
            _ => false,
        }
    }
}

/// The `f64` bit pattern of `1.0`.
pub open spec fn one_bits() -> u64 {
    0x3FF0_0000_0000_0000u64
}

/// Whether an `f64` bit pattern is a NaN: all exponent bits set and a
/// non-zero fraction.
pub open spec fn is_nan_bits(b: u64) -> bool {
    let m = b % 0x8000_0000_0000_0000u64;
    m > 0x7FF0_0000_0000_0000u64
}

/// `f64::clamp(x, 0.0, 1.0)` on bit patterns: NaN and `-0.0` stay, any other
/// negative value becomes `0.0`, anything above `1.0` becomes `1.0`.
pub open spec fn clamp_unit_bits(b: u64) -> u64 {
    if is_nan_bits(b) {
        b
    } else if b >= 0x8000_0000_0000_0000u64 {
        if b == 0x8000_0000_0000_0000u64 { b } else { 0 }
    } else if b > one_bits() {
        one_bits()
    } else {
        b
    }
}

fn clamp_unit(b: u64) -> (r: u64)
    ensures
        r == clamp_unit_bits(b),
{
    let m = b % 0x8000_0000_0000_0000u64;
    if m > 0x7FF0_0000_0000_0000u64 {
        b
    } else if b >= 0x8000_0000_0000_0000u64 {
        if b == 0x8000_0000_0000_0000u64 {
            b
        } else {
            0
        }
    } else if b > 0x3FF0_0000_0000_0000u64 {
        0x3FF0_0000_0000_0000u64
    } else {
        b
    }
}

/// Whether `prepare` acts on a loader in `state` with the `enabled` flag: only
/// an enabled loader that has not prepared yet.
pub open spec fn prepare_acts(state: ModelState, enabled: bool) -> bool {
    enabled && state is Unknown
}

/// One `prepare` step from `before` to `after`, given whether an installed model
/// was found: when it acts, no model means `NotInstalled` and a found model is
/// loaded, which without an ONNX runtime in this build ends in `Failed`;
/// otherwise nothing changes.
pub open spec fn prepare_step(before: (ModelState, bool), found: bool, after: (ModelState, bool)) -> bool {
    &&& after.1 == before.1
    &&& if prepare_acts(before.0, before.1) {
        if found {
            after.0 is Failed
        } else {
            after.0 is NotInstalled
        }
    } else {
        after.0 == before.0
    }
}

/// The visual model loader: its state and whether visual search is enabled.
#[derive(Debug)]
pub struct VisualModelLoader {
    state: ModelState,
    enabled: bool,
}

impl View for VisualModelLoader {
    type V = (ModelState, bool);

    closed spec fn view(&self) -> (ModelState, bool) {
        (self.state, self.enabled)
    }
}

impl Default for VisualModelLoader {
    /// An enabled loader in `Unknown`.
    fn default() -> (r: Self)
        ensures
            r@ == (ModelState::Unknown, true),
    {
        VisualModelLoader::new(true)
    }
}

impl VisualModelLoader {
    /// A loader in `Unknown`.
    pub fn new(enabled: bool) -> (r: Self)
        ensures
            r@ == (ModelState::Unknown, enabled),
    {
        VisualModelLoader { state: ModelState::Unknown, enabled }
    }

    /// A loader in a given state.
    pub fn from_parts(state: ModelState, enabled: bool) -> (r: Self)
        ensures
            r@ == (state, enabled),
    {
        VisualModelLoader { state, enabled }
    }

    /// The current state.
    pub fn state(&self) -> (r: &ModelState)
        ensures
            *r == self@.0,
    {
        &self.state
    }

    /// Whether the embedder is loaded and usable.
    pub fn is_ready(&self) -> (r: bool)
        ensures
            r == (self@.0 is Ready),
    {
        self.state.is_ready()
    }

    /// Whether visual search is enabled.
    pub fn enabled(&self) -> (r: bool)
        ensures
            r == self@.1,
    {
        self.enabled
    }

    /// Sets the flag; disabling drops a loaded or loading model back to
    /// `Unknown`.
    pub fn set_enabled(&mut self, value: bool)
        ensures
            final(self)@.1 == value,
            final(self)@.0 == (if !value && (old(self)@.0 is Ready || old(self)@.0 is Preparing) {
                ModelState::Unknown
            } else {
                old(self)@.0
            }),
    {
        self.enabled = value;
        if !value {
            match self.state {
                ModelState::Ready | ModelState::Preparing => {
                    self.state = ModelState::Unknown;
                },
                _ => {},
            }
        }
    }

    /// Loads an installed model (`installed`, as found by the caller's probe) if
    /// the loader is enabled and has not prepared yet; never downloads. No model
    /// gives `NotInstalled`. This build carries no ONNX runtime, so a found
    /// model ends in `Failed`, with a reason that says whether its files are all
    /// present.
    pub fn prepare(&mut self, installed: Option<InstalledModel>)
        ensures
            prepare_step(old(self)@, installed is Some, final(self)@),
    {
        if !self.enabled {
            return;
        }
        match self.state {
            ModelState::Unknown => {},
            _ => {
                return;
            },
        }
        match installed {
            None => {
                self.state = ModelState::NotInstalled;
            },
            Some(m) => {
                self.state = ModelState::Preparing;
                self.load(&m);
            },
        }
    }

    fn load(&mut self, installed: &InstalledModel)
        ensures
            final(self)@.0 is Failed,
            final(self)@.1 == old(self)@.1,
    {
        if installed.is_complete() {
            self.state = ModelState::Failed(
                "model files present but `ort` feature not enabled — rebuild with --features ort".to_string(),
            );
        } else {
            self.state = ModelState::Failed("installed model incomplete".to_string());
        }
    }

    /// Enters `Downloading` at `0.0`, unless a download, a load or a loaded
    /// model is already there. Fetching is the caller's.
    pub fn download_stub(&mut self)
        ensures
            final(self)@.1 == old(self)@.1,
            final(self)@.0 == (if old(self)@.0 is Downloading || old(self)@.0 is Preparing || old(self)@.0 is Ready {
                old(self)@.0
            } else {
                ModelState::Downloading(0)
            }),
    {
        match self.state {
            ModelState::Downloading(_) | ModelState::Preparing | ModelState::Ready => {},
            _ => {
                self.state = ModelState::Downloading(0);
            },
        }
    }

    /// Records download progress (`fraction_bits`, an `f64` bit pattern, clamped
    /// into `0.0..=1.0`); nothing changes unless a download is in flight.
    pub fn set_download_progress(&mut self, fraction_bits: u64)
        ensures
            final(self)@.1 == old(self)@.1,
            final(self)@.0 == (if old(self)@.0 is Downloading {
                ModelState::Downloading(clamp_unit_bits(fraction_bits))
            } else {
                old(self)@.0
            }),
    {
        match self.state {
            ModelState::Downloading(_) => {
                self.state = ModelState::Downloading(clamp_unit(fraction_bits));
            },
            _ => {},
        }
    }

    /// Marks a failure with its reason.
    pub fn fail(&mut self, reason: &str)
        ensures
            final(self)@.1 == old(self)@.1,
            final(self)@.0 matches ModelState::Failed(m) && m@ == reason@,
    {
        self.state = ModelState::Failed(reason.to_string());
    }
}

/// `prepare` is idempotent: once it has run, a second run changes nothing,
/// whatever the second probe finds.
pub proof fn law_prepare_once(
    before: (ModelState, bool),
    found: bool,
    middle: (ModelState, bool),
    found_again: bool,
    after: (ModelState, bool),
)
    requires
        prepare_step(before, found, middle),
        prepare_step(middle, found_again, after),
    ensures
        after == middle,
{
}

/// Disabling a loader leaves it in a state from which `prepare` does nothing
/// until it is enabled again.
pub proof fn law_disabled_never_prepares(before: (ModelState, bool), found: bool, after: (ModelState, bool))
    requires
        !before.1,
        prepare_step(before, found, after),
    ensures
        after == before,
{
}

} // verus!
