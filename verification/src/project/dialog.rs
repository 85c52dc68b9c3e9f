use vstd::prelude::*;

use crate::project::bundle::project::FILE_EXTENSION;
use crate::path::{extension_of, path_extension};
use crate::sys::{dir_reply, exists_reply, lemma_dir_reply, lemma_exists_reply, path_exists, path_is_dir};

verus! {

/// How the file picker treats `.palmier` directories.
#[derive(Debug, Clone, Copy, PartialEq, Eq, Structural)]
pub enum DirectorySelection {
    /// A `.palmier` directory is picked as one document and not descended into.
    AsSingleDocument,
    /// A plain directory chooser.
    AsDirectory,
}

/// Why a chosen path is not a valid `.palmier` bundle selection.
#[derive(Debug, Clone, Copy, PartialEq, Eq, Structural)]
pub enum DialogError {
    /// The path does not end in `.palmier`.
    WrongExtension,
    /// An open-dialog selection that does not exist.
    NotFound,
    /// An open-dialog selection that is a file, not a directory.
    NotADirectory,
}

impl DialogError {
    /// The error's text.
    pub fn message(&self) -> (r: String)
        ensures
            r@ == match *self {
                DialogError::WrongExtension => "not a .palmier bundle (wrong extension)"@,
                DialogError::NotFound => "bundle does not exist"@,
                DialogError::NotADirectory => "bundle path is a file, not a directory"@,
            },
    {
        match self {
            DialogError::WrongExtension => "not a .palmier bundle (wrong extension)".to_string(),
            DialogError::NotFound => "bundle does not exist".to_string(),
            DialogError::NotADirectory => "bundle path is a file, not a directory".to_string(),
        }
    }
}

/// The code point of a character after ASCII lower-casing (other characters
/// are unchanged).
pub open spec fn ascii_lower(c: char) -> u32 {
    if 'A' <= c && c <= 'Z' {
        ((c as u32) + 32) as u32
    } else {
        c as u32
    }
}

/// Equality up to ASCII case.
pub open spec fn eq_ignore_ascii_case(a: Seq<char>, b: Seq<char>) -> bool {
    a.len() == b.len() && forall|i: int| 0 <= i < a.len() ==> ascii_lower(a[i]) == ascii_lower(b[i])
}

fn char_lower(c: char) -> (r: u32)
    ensures
        r == ascii_lower(c),
{
    if c >= 'A' && c <= 'Z' {
        (c as u32) + 32
    } else {
        c as u32
    }
}

fn str_eq_ignore_ascii_case(a: &str, b: &str) -> (r: bool)
    ensures
        r == eq_ignore_ascii_case(a@, b@),
{
    let n = a.unicode_len();
    if n != b.unicode_len() {
        return false;
    }
    let mut i: usize = 0;
    while i < n
        invariant
            n == a@.len(),
            n == b@.len(),
            i <= n,
            forall|j: int| 0 <= j < i ==> ascii_lower(a@[j]) == ascii_lower(b@[j]),
        decreases n - i,
    {
        if char_lower(a.get_char(i)) != char_lower(b.get_char(i)) {
            return false;
        }
        i = i + 1;
    }
    true
}

/// The open/save dialog configuration for `.palmier` bundles.
#[derive(Debug, Clone)]
pub struct DirectoryDocumentDialog {
    /// The bundle extension to filter on.
    pub extension: &'static str,
    /// How directories are presented.
    pub selection: DirectorySelection,
    /// Whether a new bundle may be named (Save-As) rather than only an existing one opened.
    pub allow_create: bool,
}

/// Whether the extension of `path` is `ext`, ignoring ASCII case.
pub open spec fn has_extension(path: Seq<char>, ext: Seq<char>) -> bool {
    match extension_of(path) {
        Some(e) => eq_ignore_ascii_case(e, ext),
        None => false,
    }
}

impl DirectoryDocumentDialog {
    /// The open dialog: bundles as single documents, open only.
    pub fn open() -> (r: Self)
        ensures
            r.extension@ == FILE_EXTENSION@,
            r.selection == DirectorySelection::AsSingleDocument,
            !r.allow_create,
    {
        DirectoryDocumentDialog {
            extension: FILE_EXTENSION,
            selection: DirectorySelection::AsSingleDocument,
            allow_create: false,
        }
    }

    /// The save (Save-As) dialog: bundles as single documents, a new one may be named.
    pub fn save() -> (r: Self)
        ensures
            r.extension@ == FILE_EXTENSION@,
            r.selection == DirectorySelection::AsSingleDocument,
            r.allow_create,
    {
        DirectoryDocumentDialog {
            extension: FILE_EXTENSION,
            selection: DirectorySelection::AsSingleDocument,
            allow_create: true,
        }
    }

    /// The plain directory chooser used where a bundle is just a directory.
    pub fn open_directory_native() -> (r: Self)
        ensures
            r.extension@ == FILE_EXTENSION@,
            r.selection == DirectorySelection::AsDirectory,
            !r.allow_create,
    {
        DirectoryDocumentDialog {
            extension: FILE_EXTENSION,
            selection: DirectorySelection::AsDirectory,
            allow_create: false,
        }
    }

    /// Whether bundles are presented as single, non-descendable documents.
    pub fn presents_directory_as_document(&self) -> (r: bool)
        ensures
            r == (self.selection == DirectorySelection::AsSingleDocument),
    {
        self.selection == DirectorySelection::AsSingleDocument
    }

    /// The verdict on a chosen path given what the file system says of it: the
    /// extension must match (ignoring ASCII case); an open dialog further needs
    /// an existing directory.
    pub open spec fn spec_verdict(&self, path: Seq<char>, exists: bool, is_dir: bool) -> Result<(), DialogError> {
        if !has_extension(path, self.extension@) {
            Err(DialogError::WrongExtension)
        } else if self.allow_create {
            Ok(())
        } else if !exists {
            Err(DialogError::NotFound)
        } else if !is_dir {
            Err(DialogError::NotADirectory)
        } else {
            Ok(())
        }
    }

    /// Decide a chosen path from whether it exists and whether it is a directory.
    pub fn selection_verdict(&self, path: &str, exists: bool, is_dir: bool) -> (r: Result<(), DialogError>)
        ensures
            r == self.spec_verdict(path@, exists, is_dir),
    {
        let has_ext = match path_extension(path) {
            Some(e) => str_eq_ignore_ascii_case(e.as_str(), self.extension),
            None => false,
        };
        if !has_ext {
            return Err(DialogError::WrongExtension);
        }
        if !self.allow_create {
            if !exists {
                return Err(DialogError::NotFound);
            }
            if !is_dir {
                return Err(DialogError::NotADirectory);
            }
        }
        Ok(())
    }

    /// Validate a chosen path: it must have the `.palmier` extension; for an
    /// open dialog it must also exist and be a directory (asked of the file
    /// system at the time of the call).
    pub fn validate_selection(&self, path: &str) -> (r: Result<(), DialogError>)
        ensures
            !has_extension(path@, self.extension@) ==> r == Err::<(), DialogError>(DialogError::WrongExtension),
            has_extension(path@, self.extension@) && self.allow_create ==> r is Ok,
            exists|e: bool, d: bool| r == self.spec_verdict(path@, e, d),
            has_extension(path@, self.extension@) && !self.allow_create ==> exists|e: bool, d: bool|
                #![trigger self.spec_verdict(path@, e, d)]
                exists_reply(path@, e) && (e ==> dir_reply(path@, d)) && (!e ==> !d) && r
                    == self.spec_verdict(path@, e, d),
    {
        if self.allow_create {
            let r = self.selection_verdict(path, false, false);
            assert(r == self.spec_verdict(path@, false, false));
            return r;
        }
        let has_ext = match path_extension(path) {
            Some(e) => str_eq_ignore_ascii_case(e.as_str(), self.extension),
            None => false,
        };
        if !has_ext {
            let r = self.selection_verdict(path, false, false);
            assert(r == self.spec_verdict(path@, false, false));
            return r;
        }
        let exists = path_exists(path);
        proof {
            lemma_exists_reply(path, exists);
        }
        let is_dir = if exists {
            let d = path_is_dir(path);
            proof {
                lemma_dir_reply(path, d);
            }
            d
        } else {
            false
        };
        let r = self.selection_verdict(path, exists, is_dir);
        assert(r == self.spec_verdict(path@, exists, is_dir));
        assert(exists_reply(path@, exists) && (exists ==> dir_reply(path@, is_dir)) && (!exists ==> !is_dir));
        r
    }
}

/// An open dialog accepts a bundle only when the file system reported that
/// it exists and is a directory: for a path with the bundle extension, every
/// verdict `validate_selection` can give is `Ok`, `NotFound` or
/// `NotADirectory`; `Ok` only after the file system answered that the path
/// exists and is a directory, `NotFound` only after it answered that the path
/// does not exist, and `NotADirectory` only after it answered that the path
/// exists but is no directory.
pub proof fn law_open_dialog_needs_an_existing_directory(
    dialog: DirectoryDocumentDialog,
    path: &str,
    r: Result<(), DialogError>,
)
    requires
        call_ensures(DirectoryDocumentDialog::validate_selection, (&dialog, path), r),
        !dialog.allow_create,
        has_extension(path@, dialog.extension@),
    ensures
        r is Ok || r == Err::<(), DialogError>(DialogError::NotFound) || r == Err::<(), DialogError>(
            DialogError::NotADirectory,
        ),
        r is Ok ==> exists_reply(path@, true) && dir_reply(path@, true),
        r == Err::<(), DialogError>(DialogError::NotFound) ==> exists_reply(path@, false),
        r == Err::<(), DialogError>(DialogError::NotADirectory) ==> exists_reply(path@, true) && dir_reply(
            path@,
            false,
        ),
{
    let (e, d) = choose|e: bool, d: bool|
        #![trigger dialog.spec_verdict(path@, e, d)]
        exists_reply(path@, e) && (e ==> dir_reply(path@, d)) && (!e ==> !d) && r == dialog.spec_verdict(path@, e, d);
}

/// A save dialog accepts any path with the bundle extension without asking
/// the file system, and every dialog refuses a path without it.
pub proof fn law_extension_decides_first(dialog: DirectoryDocumentDialog, path: &str, r: Result<(), DialogError>)
    requires
        call_ensures(DirectoryDocumentDialog::validate_selection, (&dialog, path), r),
    ensures
        !has_extension(path@, dialog.extension@) ==> r == Err::<(), DialogError>(DialogError::WrongExtension),
        has_extension(path@, dialog.extension@) && dialog.allow_create ==> r is Ok,
{
}

} // verus!
