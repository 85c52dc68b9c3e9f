use vstd::prelude::*;

use std::time::{Duration, Instant};

use crate::sys::{
    duration_from_secs, duration_nanos, duration_of_secs, lemma_duration_of_secs, elapsed_nanos, elapsed_reply, instant_now, lemma_elapsed_reply, lemma_nanos_reply,
    nanos_reply,
};
use crate::text::str_eq;

verus! {

/// The default autosave debounce window, in seconds.
pub const DEFAULT_AUTOSAVE_DEBOUNCE_SECS: u64 = 2;

/// Where a registry of known projects is told that a bundle moved.
pub trait PathRegistry {
    /// The error the registry reports when it cannot record the move.
    type Error;

    /// Record that the bundle at `old_path` now lives at `new_path`.
    fn update_url(&mut self, old_path: &str, new_path: &str) -> Result<(), Self::Error>;
}

/// An open project: its bundle path, dirty flag and autosave debounce state.
pub struct ProjectDocument {
    path: Option<String>,
    dirty: bool,
    last_dirtied: Option<Instant>,
    debounce: Duration,
}

impl View for ProjectDocument {
    /// The bundle path (as text) and the dirty flag.
    type V = (Option<Seq<char>>, bool);

    closed spec fn view(&self) -> (Option<Seq<char>>, bool) {
        (
            match self.path {
                Some(p) => Some(p@),
                None => None,
            },
            self.dirty,
        )
    }
}

impl ProjectDocument {
    /// Whether an edit is recorded as pending the autosave debounce.
    pub closed spec fn spec_has_dirty_instant(&self) -> bool {
        self.last_dirtied is Some
    }

    /// A clean document at `path` (`None` for a never-saved document), with the
    /// default debounce window.
    pub fn new(path: Option<&str>) -> (r: Self)
        ensures
            r@.0 == (match path {
                Some(p) => Some(p@),
                None => None::<Seq<char>>,
            }),
            !r@.1,
            !r.spec_has_dirty_instant(),
            duration_of_secs(r.spec_debounce(), DEFAULT_AUTOSAVE_DEBOUNCE_SECS),
    {
        let debounce = duration_from_secs(DEFAULT_AUTOSAVE_DEBOUNCE_SECS);
        proof {
            lemma_duration_of_secs(DEFAULT_AUTOSAVE_DEBOUNCE_SECS, debounce);
        }
        ProjectDocument {
            path: match path {
                Some(p) => Some(String::from_str(p)),
                None => None,
            },
            dirty: false,
            last_dirtied: None,
            debounce,
        }
    }

    /// The debounce window an autosave waits after the last edit.
    pub closed spec fn spec_debounce(&self) -> Duration {
        self.debounce
    }

    /// The same document with another debounce window.
    pub fn with_debounce(self, debounce: Duration) -> (r: Self)
        ensures
            r@ == self@,
            r.spec_has_dirty_instant() == self.spec_has_dirty_instant(),
            r.spec_debounce() == debounce,
    {
        ProjectDocument { debounce, ..self }
    }

    /// The bundle path, if the document was ever saved.
    pub fn path(&self) -> (r: Option<&str>)
        ensures
            match r {
                Some(p) => self@.0 == Some(p@),
                None => self@.0 is None,
            },
    {
        match &self.path {
            Some(p) => Some(p.as_str()),
            None => None,
        }
    }

    /// Whether there are unsaved changes.
    pub fn is_dirty(&self) -> (r: bool)
        ensures
            r == self@.1,
    {
        self.dirty
    }

    /// Mark the document dirty and restart the autosave debounce.
    pub fn mark_dirty(&mut self)
        ensures
            final(self)@ == (old(self)@.0, true),
            final(self).spec_has_dirty_instant(),
    {
        self.dirty = true;
        self.last_dirtied = Some(instant_now());
    }

    /// A chat-session change dirties the document like any edit.
    pub fn mark_chat_changed(&mut self)
        ensures
            final(self)@ == (old(self)@.0, true),
            final(self).spec_has_dirty_instant(),
    {
        self.mark_dirty();
    }

    /// Whether an autosave is due, given the nanoseconds `elapsed` since the
    /// last edit and the nanoseconds `window` of the debounce window: the
    /// document is dirty, an edit time is on record, and at least the window
    /// has elapsed.
    pub fn autosave_due_given(&self, elapsed: u128, window: u128) -> (r: bool)
        ensures
            r == (self@.1 && self.spec_has_dirty_instant() && elapsed >= window),
    {
        self.dirty && self.last_dirtied.is_some() && elapsed >= window
    }

    /// The instant of the last edit pending the debounce (meaningful when
    /// `spec_has_dirty_instant`).
    pub closed spec fn spec_last_edit(&self) -> Instant {
        self.last_dirtied->0
    }

    /// Whether an autosave is due: the document is dirty and the debounce window
    /// has elapsed since the last edit (by the clock at the time of the call):
    /// due exactly when the nanoseconds the clock reports since the last edit
    /// are at least the nanoseconds of the debounce window.
    pub fn autosave_due(&self) -> (r: bool)
        ensures
            r ==> self@.1 && self.spec_has_dirty_instant(),
            !self@.1 ==> !r,
            self@.1 && self.spec_has_dirty_instant() ==> exists|e: u128, w: u128|
                #![trigger elapsed_reply(&self.spec_last_edit(), e), nanos_reply(&self.spec_debounce(), w)]
                elapsed_reply(&self.spec_last_edit(), e) && nanos_reply(&self.spec_debounce(), w) && r == (e
                    >= w),
    {
        if !self.dirty {
            return false;
        }
        let elapsed = match &self.last_dirtied {
            Some(t) => {
                let e = elapsed_nanos(t);
                proof {
                    lemma_elapsed_reply(t, e);
                }
                e
            },
            None => 0,
        };
        let window = duration_nanos(&self.debounce);
        proof {
            lemma_nanos_reply(&self.debounce, window);
        }
        let r = self.autosave_due_given(elapsed, window);
        proof {
            if self.spec_has_dirty_instant() {
                assert(elapsed_reply(&self.spec_last_edit(), elapsed) && nanos_reply(&self.spec_debounce(), window));
            }
        }
        r
    }

    /// Record that the bundle was just written: the document is clean again.
    pub fn note_saved(&mut self)
        ensures
            final(self)@ == (old(self)@.0, false),
            !final(self).spec_has_dirty_instant(),
    {
        self.dirty = false;
        self.last_dirtied = None;
    }

    /// Change the bundle path. Moving an existing path to a different one tells
    /// `registry` first (an error there leaves the document unchanged) and dirties
    /// the document; a first path dirties it too; the same path changes nothing.
    pub fn set_path<R: PathRegistry>(&mut self, new_path: &str, registry: &mut R) -> (r: Result<(), R::Error>)
        ensures
            r is Err ==> final(self)@ == old(self)@ && old(self)@.0 is Some && old(self)@.0 != Some(new_path@),
            r is Ok ==> final(self)@.0 == Some(new_path@),
            r is Ok ==> final(self)@.1 == (old(self)@.1 || old(self)@.0 != Some(new_path@)),
    {
        let same = match &self.path {
            Some(old) => str_eq(old.as_str(), new_path),
            None => false,
        };
        if same {
            return Ok(());
        }
        match &self.path {
            Some(old) => {
                let res = registry.update_url(old.as_str(), new_path);
                match res {
                    Ok(()) => {},
                    Err(e) => {
                        return Err(e);
                    },
                }
            },
            None => {},
        }
        self.mark_dirty();
        self.path = Some(String::from_str(new_path));
        Ok(())
    }
}

/// The autosave waits out the debounce window: whatever `autosave_due`
/// answers, a due document is dirty, has an edit on record, and the clock
/// reported at least the window's nanoseconds since that edit; a dirty
/// document with an edit on record that is not due had the clock report
/// fewer nanoseconds than the window. A document dirtied less than the window
/// ago is therefore never due.
pub proof fn law_autosave_waits_for_the_debounce_window(doc: ProjectDocument, r: bool)
    requires
        call_ensures(ProjectDocument::autosave_due, (&doc,), r),
    ensures
        r ==> doc@.1 && doc.spec_has_dirty_instant() && exists|e: u128, w: u128|
            #![trigger elapsed_reply(&doc.spec_last_edit(), e), nanos_reply(&doc.spec_debounce(), w)]
            elapsed_reply(&doc.spec_last_edit(), e) && nanos_reply(&doc.spec_debounce(), w) && e >= w,
        !r && doc@.1 && doc.spec_has_dirty_instant() ==> exists|e: u128, w: u128|
            #![trigger elapsed_reply(&doc.spec_last_edit(), e), nanos_reply(&doc.spec_debounce(), w)]
            elapsed_reply(&doc.spec_last_edit(), e) && nanos_reply(&doc.spec_debounce(), w) && e < w,
{
}

} // verus!
