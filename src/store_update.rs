//! The steps of an update of the store file, as a state machine: the caller
//! performs each action and reports how it went.
//!
//! The store is locked exclusively, re-read under the lock, merged, written
//! to a temporary file, unlocked and closed, and only then renamed over the
//! store, so that concurrent writers keep each other's entries and a reader
//! never sees a half-written store.
use vstd::prelude::*;
use crate::store::{merge_quote, store_map, retry_rename_after_remove};

verus! {

/// Where an update stands.
#[derive(Debug, Clone, Copy, PartialEq, Eq, Structural)]
pub enum SavePhase {
    Start,
    MakingDir,
    Locking,
    Reading,
    Writing,
    Unlocking,
    Renaming,
    Removing,
    RenamingAgain,
    Finished,
    Failed,
}

/// What failed, when an update fails.
#[derive(Debug, Clone, Copy, PartialEq, Eq, Structural)]
pub enum SaveFailure {
    /// The directory of the store could not be created.
    Dir,
    /// The store could not be opened or locked.
    Lock,
    /// The locked store could not be read.
    Read,
    /// The temporary file could not be written.
    WriteTemp,
    /// The store could not be removed before renaming again.
    Remove,
    /// The temporary file could not be renamed over the store.
    Rename,
}

/// How the last action went.
pub enum SaveEvent {
    /// Nothing was done yet.
    Begin,
    /// The action succeeded.
    Done,
    /// The action failed.
    Failed,
    /// The locked store was read, and held this text.
    Content(String),
    /// The rename failed; whether the store exists.
    RenameFailed(bool),
}

/// What the caller does next.
pub enum SaveAction {
    /// Create the directory of the store.
    CreateDir,
    /// Open the store, creating it where absent but keeping its content,
    /// and lock it exclusively.
    OpenLocked,
    /// Read the whole content of the locked store.
    ReadStore,
    /// Write `content` to the file at `path`.
    WriteTemp { path: String, content: String },
    /// Unlock and close the store.
    Unlock,
    /// Rename the temporary file over the store.
    Rename,
    /// Remove the store.
    RemoveStore,
    /// The update is complete; close the store if it is still open.
    Finish,
    /// The update failed; close the store if it is still open.
    Fail(SaveFailure),
}

/// The phase that follows `phase` once `event` is reported;
/// `replace_unsupported` says whether a rename cannot replace a file.
pub open spec fn next_phase(phase: SavePhase, event: SaveEvent, replace_unsupported: bool) -> SavePhase {
    match phase {
        SavePhase::Start => SavePhase::MakingDir,
        SavePhase::MakingDir => if event is Done { SavePhase::Locking } else { SavePhase::Failed },
        SavePhase::Locking => if event is Done { SavePhase::Reading } else { SavePhase::Failed },
        SavePhase::Reading => if event is Content { SavePhase::Writing } else { SavePhase::Failed },
        SavePhase::Writing => if event is Done { SavePhase::Unlocking } else { SavePhase::Failed },
        SavePhase::Unlocking => SavePhase::Renaming,
        SavePhase::Renaming => {
            if event is Done {
                SavePhase::Finished
            } else if event is RenameFailed && replace_unsupported && event->RenameFailed_0 {
                SavePhase::Removing
            } else {
                SavePhase::Failed
            }
        },
        SavePhase::Removing => if event is Done { SavePhase::RenamingAgain } else { SavePhase::Failed },
        SavePhase::RenamingAgain => if event is Done { SavePhase::Finished } else { SavePhase::Failed },
        SavePhase::Finished => SavePhase::Finished,
        SavePhase::Failed => SavePhase::Failed,
    }
}

/// The failure that leaving `phase` for `Failed` reports.
pub open spec fn failure_of(phase: SavePhase, event: SaveEvent) -> SaveFailure {
    match phase {
        SavePhase::MakingDir => SaveFailure::Dir,
        SavePhase::Locking => SaveFailure::Lock,
        SavePhase::Reading => SaveFailure::Read,
        SavePhase::Writing => SaveFailure::WriteTemp,
        SavePhase::Removing => SaveFailure::Remove,
        _ => SaveFailure::Rename,
    }
}

/// Whether `action` is the one that the phase `phase` asks for.
pub open spec fn action_fits(phase: SavePhase, action: SaveAction) -> bool {
    match phase {
        SavePhase::MakingDir => action is CreateDir,
        SavePhase::Locking => action is OpenLocked,
        SavePhase::Reading => action is ReadStore,
        SavePhase::Writing => action is WriteTemp,
        SavePhase::Unlocking => action is Unlock,
        SavePhase::Renaming => action is Rename,
        SavePhase::Removing => action is RemoveStore,
        SavePhase::RenamingAgain => action is Rename,
        SavePhase::Finished => action is Finish,
        SavePhase::Failed => action is Fail,
        SavePhase::Start => false,
    }
}

/// An update of the store that records `quote` for `key`.
pub struct SaveSession {
    phase: SavePhase,
    key: String,
    quote: String,
    temp_path: String,
    replace_unsupported: bool,
    failure: SaveFailure,
}

impl SaveSession {
    pub closed spec fn phase_spec(&self) -> SavePhase {
        self.phase
    }

    pub closed spec fn key_spec(&self) -> Seq<char> {
        self.key@
    }

    pub closed spec fn quote_spec(&self) -> Seq<char> {
        self.quote@
    }

    pub closed spec fn temp_spec(&self) -> Seq<char> {
        self.temp_path@
    }

    pub closed spec fn replace_unsupported_spec(&self) -> bool {
        self.replace_unsupported
    }

    pub closed spec fn failure_spec(&self) -> SaveFailure {
        self.failure
    }

    /// An update that records `quote` for `key`, through the temporary file
    /// `temp_path`; `replace_unsupported` says that a rename cannot replace
    /// an existing file, so that the store is removed first.
    pub fn new(key: String, quote: String, temp_path: String, replace_unsupported: bool) -> (r: SaveSession)
        ensures
            r.phase_spec() == SavePhase::Start,
            r.key_spec() == key@,
            r.quote_spec() == quote@,
            r.temp_spec() == temp_path@,
            r.replace_unsupported_spec() == replace_unsupported,
    {
        SaveSession { phase: SavePhase::Start, key, quote, temp_path, replace_unsupported, failure: SaveFailure::Rename }
    }

    /// The phase the update is in.
    pub fn phase(&self) -> (r: SavePhase)
        ensures
            r == self.phase_spec(),
    {
        self.phase
    }

    /// Ends the update with the failure `f`.
    fn fail(&mut self, f: SaveFailure) -> (r: SaveAction)
        ensures
            final(self).phase_spec() == SavePhase::Failed,
            final(self).failure_spec() == f,
            final(self).key_spec() == old(self).key_spec(),
            final(self).quote_spec() == old(self).quote_spec(),
            final(self).temp_spec() == old(self).temp_spec(),
            final(self).replace_unsupported_spec() == old(self).replace_unsupported_spec(),
            r == SaveAction::Fail(f),
    {
        self.phase = SavePhase::Failed;
        self.failure = f;
        SaveAction::Fail(f)
    }

    /// Takes the report of the last action and gives the next one. Text is
    /// written only once the locked store was read, and is then the store
    /// with `quote` recorded for `key`; the rename comes only after that
    /// text was written and the store unlocked.
    pub fn next(&mut self, event: SaveEvent) -> (r: SaveAction)
        ensures
            final(self).key_spec() == old(self).key_spec(),
            final(self).quote_spec() == old(self).quote_spec(),
            final(self).temp_spec() == old(self).temp_spec(),
            final(self).replace_unsupported_spec() == old(self).replace_unsupported_spec(),
            final(self).phase_spec() == next_phase(old(self).phase_spec(), event, old(self).replace_unsupported_spec()),
            action_fits(final(self).phase_spec(), r),
            r is Fail ==> r->Fail_0 == final(self).failure_spec(),
            final(self).phase_spec() == SavePhase::Failed && old(self).phase_spec() != SavePhase::Failed ==> final(self).failure_spec()
                == failure_of(old(self).phase_spec(), event),
            old(self).phase_spec() == SavePhase::Failed ==> final(self).failure_spec() == old(self).failure_spec(),
            r is WriteTemp ==> {
                &&& old(self).phase_spec() == SavePhase::Reading
                &&& event is Content
                &&& r->path@ == old(self).temp_spec()
                &&& store_map(r->content@) == store_map(event->Content_0@).insert(old(self).key_spec(), old(self).quote_spec())
            },
    {
        match self.phase {
            SavePhase::Start => {
                self.phase = SavePhase::MakingDir;
                SaveAction::CreateDir
            },
            SavePhase::MakingDir => {
                if let SaveEvent::Done = event {
                    self.phase = SavePhase::Locking;
                    SaveAction::OpenLocked
                } else {
                    self.fail(SaveFailure::Dir)
                }
            },
            SavePhase::Locking => {
                if let SaveEvent::Done = event {
                    self.phase = SavePhase::Reading;
                    SaveAction::ReadStore
                } else {
                    self.fail(SaveFailure::Lock)
                }
            },
            SavePhase::Reading => {
                match event {
                    SaveEvent::Content(text) => {
                        let content = merge_quote(text.as_str(), self.key.as_str(), self.quote.as_str());
                        self.phase = SavePhase::Writing;
                        SaveAction::WriteTemp { path: self.temp_path.clone(), content }
                    },
                    _ => self.fail(SaveFailure::Read),
                }
            },
            SavePhase::Writing => {
                if let SaveEvent::Done = event {
                    self.phase = SavePhase::Unlocking;
                    SaveAction::Unlock
                } else {
                    self.fail(SaveFailure::WriteTemp)
                }
            },
            SavePhase::Unlocking => {
                self.phase = SavePhase::Renaming;
                SaveAction::Rename
            },
            SavePhase::Renaming => {
                match event {
                    SaveEvent::Done => {
                        self.phase = SavePhase::Finished;
                        SaveAction::Finish
                    },
                    SaveEvent::RenameFailed(store_exists) => {
                        if retry_rename_after_remove(self.replace_unsupported, store_exists) {
                            self.phase = SavePhase::Removing;
                            SaveAction::RemoveStore
                        } else {
                            self.fail(SaveFailure::Rename)
                        }
                    },
                    _ => self.fail(SaveFailure::Rename),
                }
            },
            SavePhase::Removing => {
                if let SaveEvent::Done = event {
                    self.phase = SavePhase::RenamingAgain;
                    SaveAction::Rename
                } else {
                    self.fail(SaveFailure::Remove)
                }
            },
            SavePhase::RenamingAgain => {
                if let SaveEvent::Done = event {
                    self.phase = SavePhase::Finished;
                    SaveAction::Finish
                } else {
                    self.fail(SaveFailure::Rename)
                }
            },
            SavePhase::Finished => SaveAction::Finish,
            SavePhase::Failed => SaveAction::Fail(self.failure),
        }
    }
}

/// The order of an update: writing comes only right after reading the
/// locked store, unlocking only after writing, the rename only after
/// unlocking (or after removing the store, following a failed rename), and
/// completion only after a rename.
pub proof fn lemma_update_order(phase: SavePhase, event: SaveEvent, replace_unsupported: bool)
    ensures
        ({
            let n = next_phase(phase, event, replace_unsupported);
            &&& n == SavePhase::Reading ==> phase == SavePhase::Locking
            &&& n == SavePhase::Writing ==> phase == SavePhase::Reading
            &&& n == SavePhase::Unlocking ==> phase == SavePhase::Writing
            &&& n == SavePhase::Renaming ==> phase == SavePhase::Unlocking
            &&& n == SavePhase::Removing ==> phase == SavePhase::Renaming
            &&& n == SavePhase::RenamingAgain ==> phase == SavePhase::Removing
            &&& n == SavePhase::Finished ==> (phase == SavePhase::Renaming || phase == SavePhase::RenamingAgain
                || phase == SavePhase::Finished)
        }),
{
}

} // verus!
