//! The open files as the shell tracks them: which document is which,
//! the disk stamp each was read under (the external-change guard's
//! baseline), whether it holds unsaved edits, and whether this load's
//! backup has been taken — the backup-first rule is one backup per
//! load, so the first write since load takes it and later writes reuse
//! it. The filesystem side (stat, write, backup) is the caller's: it
//! hands the stamps it saw and what its write did to [`Tracking`],
//! which decides and records.

use vstd::prelude::*;
use crate::text::{decimal, decimal_text, join2};

verus! {

/// A file's size and modification time, as the guard compares them;
/// the time is in nanoseconds from the Unix epoch (negative before it).
#[derive(Clone, Copy, Debug, PartialEq, Eq, Structural)]
pub struct FileStamp {
    pub size: u64,
    pub modified: i128,
}

impl FileStamp {
    /// A stamp from its parts.
    pub fn synthetic(size: u64, modified: i128) -> (stamp: Self)
        ensures
            stamp.size == size,
            stamp.modified == modified,
    {
        FileStamp { size, modified }
    }

    /// The modification time.
    pub fn modified(self) -> (time: i128)
        ensures
            time == self.modified,
    {
        self.modified
    }
}

/// Position of a character in the shell's list: `main/` in folder
/// order, then `user/`.
#[derive(Clone, Copy, Debug, PartialEq, Eq, Structural)]
pub struct CharacterSlot(pub usize);

impl CharacterSlot {
    pub fn new(slot: usize) -> (made: Self)
        ensures
            made.0 == slot,
    {
        CharacterSlot(slot)
    }

    pub fn value(self) -> (slot: usize)
        ensures
            slot == self.0,
    {
        self.0
    }
}

/// The writable documents, for labels, the write order, and the
/// conflict list.
#[derive(Clone, Copy, Debug, PartialEq, Eq, Structural)]
pub enum Doc {
    Stash,
    Store,
    Reagents,
    Blueprints,
    Illusions,
    Character(CharacterSlot),
}

/// How a document is named to the user.
pub open spec fn doc_label(doc: Doc) -> Seq<char> {
    match doc {
        Doc::Stash => "transfer stash"@,
        Doc::Store => "vault store"@,
        Doc::Reagents => "component storage"@,
        Doc::Blueprints => "blueprint list"@,
        Doc::Illusions => "illusion collection"@,
        Doc::Character(slot) => "character "@ + decimal(slot.0 as nat + 1),
    }
}

impl Doc {
    /// The document's name for toasts and the conflict list; a
    /// character counts from one.
    pub fn label(self) -> (text: String)
        requires
            self matches Doc::Character(slot) ==> slot.0 < usize::MAX,
        ensures
            text@ == doc_label(self),
    {
        match self {
            Doc::Stash => String::from_str("transfer stash"),
            Doc::Store => String::from_str("vault store"),
            Doc::Reagents => String::from_str("component storage"),
            Doc::Blueprints => String::from_str("blueprint list"),
            Doc::Illusions => String::from_str("illusion collection"),
            Doc::Character(slot) => {
                let number = decimal_text(slot.0 as u64 + 1);
                join2("character ", number.as_str())
            },
        }
    }
}

/// Whether a document differs from what was last read or written.
#[derive(Clone, Copy, Debug, PartialEq, Eq, Structural)]
pub enum Edits {
    Saved,
    Unsaved,
}

/// Whether this load's backup has been taken yet.
#[derive(Clone, Copy, Debug, PartialEq, Eq, Structural)]
pub enum Backup {
    Armed,
    Taken,
}

/// How one save attempt concluded.
#[derive(Clone, Debug, PartialEq, Eq)]
pub enum SaveOutcome {
    /// Written, verified, and restamped; `backup` names the backup
    /// when this write took one.
    Saved { backup: Option<String> },
    /// Not written: the file on disk no longer matches the stamp taken
    /// at load or last write.
    Conflict,
}

/// Why a save failed outright.
#[derive(Clone, Debug, PartialEq, Eq)]
pub enum SaveError {
    /// The write failed; `reason` is what the filesystem said.
    Write { path: String, reason: String },
}

/// What a save has to do, given the file as it is on disk now.
#[derive(Clone, Copy, Debug, PartialEq, Eq, Structural)]
pub enum SaveStep {
    /// The file changed underneath: nothing may be written.
    Conflict,
    /// The first write since load: back the file up, then write.
    WriteWithBackup,
    /// This load's backup exists: a plain synced write.
    WritePlain,
}

/// The bookkeeping as a value.
pub struct TrackingView {
    pub path: Seq<char>,
    pub stamp: Option<FileStamp>,
    pub edits: Edits,
    pub backup: Backup,
}

/// The on-disk bookkeeping every writable document shares: where it
/// lives, the stamp the guard compares against, whether it holds
/// unsaved edits, and whether this load's backup has been taken.
#[derive(Debug)]
pub struct Tracking {
    path: String,
    stamp: Option<FileStamp>,
    edits: Edits,
    backup: Backup,
}

impl View for Tracking {
    type V = TrackingView;

    closed spec fn view(&self) -> TrackingView {
        TrackingView {
            path: self.path@,
            stamp: self.stamp,
            edits: self.edits,
            backup: self.backup,
        }
    }
}

/// What a save asks for: nothing when the disk no longer shows the
/// stamp this document holds, else a write, backed up first unless
/// this load's backup was already taken.
pub open spec fn save_step_of(t: TrackingView, on_disk: Option<FileStamp>) -> SaveStep {
    if on_disk != t.stamp {
        SaveStep::Conflict
    } else if t.backup == Backup::Armed {
        SaveStep::WriteWithBackup
    } else {
        SaveStep::WritePlain
    }
}

/// The bookkeeping after a write that landed and left `after` on disk.
pub open spec fn after_write(t: TrackingView, after: Option<FileStamp>) -> TrackingView {
    TrackingView { stamp: after, edits: Edits::Saved, backup: Backup::Taken, ..t }
}

/// The bookkeeping after "keep mine" adopted the file found as `found`.
pub open spec fn after_keep_mine(t: TrackingView, found: Option<FileStamp>) -> TrackingView {
    TrackingView { stamp: found, backup: Backup::Armed, ..t }
}

impl Tracking {
    /// A freshly read file, stamped as it was found: clean, backup
    /// armed.
    pub fn fresh(path: String, stamp: Option<FileStamp>) -> (t: Self)
        ensures
            t@.path == path@,
            t@.stamp == stamp,
            t@.edits == Edits::Saved,
            t@.backup == Backup::Armed,
    {
        Tracking { path, stamp, edits: Edits::Saved, backup: Backup::Armed }
    }

    pub fn path(&self) -> (path: &str)
        ensures
            path@ == self@.path,
    {
        self.path.as_str()
    }

    pub fn stamp(&self) -> (stamp: Option<FileStamp>)
        ensures
            stamp == self@.stamp,
    {
        self.stamp
    }

    pub fn edits(&self) -> (edits: Edits)
        ensures
            edits == self@.edits,
    {
        self.edits
    }

    pub fn backup(&self) -> (backup: Backup)
        ensures
            backup == self@.backup,
    {
        self.backup
    }

    /// The document now differs from the file.
    pub fn mark_edited(&mut self)
        ensures
            final(self)@ == (TrackingView { edits: Edits::Unsaved, ..old(self)@ }),
    {
        self.edits = Edits::Unsaved;
    }

    /// What saving now would do, with the file on disk stamped
    /// `on_disk` (`None` when it cannot be stat'ed).
    pub fn save_step(&self, on_disk: Option<FileStamp>) -> (step: SaveStep)
        ensures
            step == save_step_of(self@, on_disk),
    {
        if on_disk != self.stamp {
            SaveStep::Conflict
        } else {
            match self.backup {
                Backup::Armed => SaveStep::WriteWithBackup,
                Backup::Taken => SaveStep::WritePlain,
            }
        }
    }

    /// Records how a save went: `step` is what [`Tracking::save_step`]
    /// asked for. A conflict wrote nothing and is reported as such.
    /// Otherwise `written` is the backup the write took — one exactly
    /// when the step asked for it — (`Ok(None)` for a plain write) or
    /// why the write failed, and `after` the file's stamp after it. A
    /// failed write changes nothing: the edits stay unsaved and the
    /// backup is still owed.
    pub fn finish_write(
        &mut self,
        step: SaveStep,
        written: Result<Option<String>, String>,
        after: Option<FileStamp>,
    ) -> (outcome: Result<SaveOutcome, SaveError>)
        requires
            step != SaveStep::Conflict ==> step == save_step_of(old(self)@, old(self)@.stamp),
            step != SaveStep::Conflict ==> (written matches Ok(backup) ==> (backup is Some <==> step
                == SaveStep::WriteWithBackup)),
        ensures
            step == SaveStep::Conflict ==> outcome == Ok::<SaveOutcome, SaveError>(SaveOutcome::Conflict)
                && final(self)@ == old(self)@,
            step != SaveStep::Conflict ==> match written {
                Ok(backup) => {
                    &&& outcome == Ok::<SaveOutcome, SaveError>(SaveOutcome::Saved { backup })
                    &&& final(self)@ == after_write(old(self)@, after)
                },
                Err(reason) => {
                    &&& outcome matches Err(SaveError::Write { path, reason: why })
                    &&& path@ == old(self)@.path
                    &&& why == reason
                    &&& final(self)@ == old(self)@
                },
            },
            outcome matches Ok(SaveOutcome::Saved { backup: Some(_) }) ==> old(self)@.backup == Backup::Armed,
            outcome matches Ok(SaveOutcome::Saved { backup: None }) ==> old(self)@.backup == Backup::Taken,
    {
        if step == SaveStep::Conflict {
            return Ok(SaveOutcome::Conflict);
        }
        match written {
            Ok(backup) => {
                self.backup = Backup::Taken;
                self.stamp = after;
                self.edits = Edits::Saved;
                Ok(SaveOutcome::Saved { backup })
            },
            Err(reason) => Err(SaveError::Write { path: self.path.clone(), reason }),
        }
    }

    /// "Keep mine": adopts the external version, found as `found`, and
    /// re-arms backup-first so that version is backed up before the
    /// next save overwrites it.
    pub fn keep_mine(&mut self, found: Option<FileStamp>)
        ensures
            final(self)@ == after_keep_mine(old(self)@, found),
    {
        self.stamp = found;
        self.backup = Backup::Armed;
    }
}

/// A save never writes over a file that changed underneath: it asks
/// for a write exactly when the disk shows the stamp the document
/// holds.
pub proof fn law_save_writes_only_over_its_own_version(t: TrackingView, on_disk: Option<FileStamp>)
    ensures
        (save_step_of(t, on_disk) == SaveStep::Conflict) <==> on_disk != t.stamp,
{
}

/// One backup per load: a first write backs the file up, and once a
/// write has landed the next save, over the version that write left,
/// is a plain write.
pub proof fn law_one_backup_per_load(t: TrackingView, after: Option<FileStamp>)
    requires
        t.backup == Backup::Armed,
    ensures
        save_step_of(t, t.stamp) == SaveStep::WriteWithBackup,
        save_step_of(after_write(t, after), after) == SaveStep::WritePlain,
        after_write(t, after).edits == Edits::Saved,
{
}

/// "Keep mine" makes the next save over the adopted version back it
/// up first, and leaves the edits to be written.
pub proof fn law_keep_mine_backs_up_the_adopted_version(t: TrackingView, found: Option<FileStamp>)
    ensures
        save_step_of(after_keep_mine(t, found), found) == SaveStep::WriteWithBackup,
        after_keep_mine(t, found).edits == t.edits,
{
}

} // verus!
