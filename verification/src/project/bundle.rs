use vstd::prelude::*;

pub mod project;

use crate::project::bundle::project::{MANIFEST_FILE, TIMELINE_FILE};
use crate::sys::io_error_text;

verus! {

/// An error reading or writing a `.palmier` bundle.
#[derive(Debug)]
pub enum BundleError {
    /// A required file (`project.json`, or a present `media.json`) is missing or
    /// fails to decode.
    Corrupt { file: &'static str, detail: String },
    /// The required `project.json` could not be encoded on save.
    WriteUnknown { file: &'static str, detail: String },
    /// An underlying file-system error.
    Io(std::io::Error),
}

impl BundleError {
    /// The error's text: `corrupt bundle: <file>: <detail>`, `write failed:
    /// <file>: <detail>`, or `io error: ` and the I/O error's own text.
    pub fn message(&self) -> (r: String)
        ensures
            match *self {
                BundleError::Corrupt { file, detail } => r@ == "corrupt bundle: "@ + file@ + ": "@ + detail@,
                BundleError::WriteUnknown { file, detail } => r@ == "write failed: "@ + file@ + ": "@ + detail@,
                BundleError::Io(_) => exists|t: Seq<char>| r@ == "io error: "@ + t,
            },
    {
        match self {
            BundleError::Corrupt { file, detail } => {
                let mut s = "corrupt bundle: ".to_string();
                s.append(file);
                s.append(": ");
                s.append(detail.as_str());
                s
            },
            BundleError::WriteUnknown { file, detail } => {
                let mut s = "write failed: ".to_string();
                s.append(file);
                s.append(": ");
                s.append(detail.as_str());
                s
            },
            BundleError::Io(e) => {
                let mut s = "io error: ".to_string();
                let t = io_error_text(e);
                s.append(t.as_str());
                s
            },
        }
    }
}

/// How reading one bundle file turned out.
#[derive(Debug)]
pub enum FileOutcome {
    /// The file does not exist.
    Missing,
    /// The file was read and decoded.
    Decoded,
    /// The file was read but does not decode; carries the decoder's message.
    Undecodable(String),
    /// The file exists but could not be read.
    Unreadable(std::io::Error),
}

/// The verdict on `project.json`, which a bundle requires: missing or
/// undecodable is a corrupt bundle, unreadable is an I/O error.
pub fn project_file_verdict(outcome: FileOutcome) -> (r: Result<(), BundleError>)
    ensures
        match outcome {
            FileOutcome::Decoded => r is Ok,
            FileOutcome::Missing => (r matches Err(BundleError::Corrupt { file, detail }) && file@
                == TIMELINE_FILE@ && detail@ == "missing"@),
            FileOutcome::Undecodable(m) => (r matches Err(BundleError::Corrupt { file, detail })
                && file@ == TIMELINE_FILE@ && detail@ == m@),
            FileOutcome::Unreadable(_) => (r matches Err(BundleError::Io(_))),
        },
{
    match outcome {
        FileOutcome::Decoded => Ok(()),
        FileOutcome::Missing => Err(
            BundleError::Corrupt { file: TIMELINE_FILE, detail: "missing".to_string() },
        ),
        FileOutcome::Undecodable(m) => Err(BundleError::Corrupt { file: TIMELINE_FILE, detail: m }),
        FileOutcome::Unreadable(e) => Err(BundleError::Io(e)),
    }
}

/// The verdict on `media.json`, which is optional: absent gives no manifest
/// (`Ok(false)`), decoded gives one (`Ok(true)`), but a present file that does
/// not decode is a corrupt bundle and an unreadable one an I/O error.
pub fn manifest_file_verdict(outcome: FileOutcome) -> (r: Result<bool, BundleError>)
    ensures
        match outcome {
            FileOutcome::Decoded => r matches Ok(true),
            FileOutcome::Missing => r matches Ok(false),
            FileOutcome::Undecodable(m) => (r matches Err(BundleError::Corrupt { file, detail })
                && file@ == MANIFEST_FILE@ && detail@ == m@),
            FileOutcome::Unreadable(_) => (r matches Err(BundleError::Io(_))),
        },
{
    match outcome {
        FileOutcome::Decoded => Ok(true),
        FileOutcome::Missing => Ok(false),
        FileOutcome::Undecodable(m) => Err(BundleError::Corrupt { file: MANIFEST_FILE, detail: m }),
        FileOutcome::Unreadable(e) => Err(BundleError::Io(e)),
    }
}

/// Whether the generation log is kept: only when it was read and decoded;
/// every failure is swallowed (the log is then rebuilt downstream).
pub fn generation_log_kept(outcome: &FileOutcome) -> (r: bool)
    ensures
        r == (*outcome is Decoded),
{
    match outcome {
        FileOutcome::Decoded => true,
        _ => false,
    }
}

} // verus!
