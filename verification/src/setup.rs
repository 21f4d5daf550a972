//! First-run setup and the settings dialog as far as they decide
//! anything: the fields seeded from earlier settings or the candidates
//! found on this machine, the directories they validate into, what
//! applying a changed draft costs the shell, and whether a path can
//! hold the vault store. What the filesystem says is the caller's to
//! find out and hand in.

use vstd::prelude::*;
use crate::paths::{parent_of, path_parent};
use crate::dirs::{DirProblem, GameDir, SaveDir, save_dir_markers};

verus! {

/// The setup screen's working state. The fields are re-validated from
/// their text every frame, so a verdict is never stale. `S` is the
/// settings the screen was reached from, carried through unchanged so
/// their remembered campaign and standing orders survive a change of
/// directories.
pub struct SetupState<S> {
    pub game_field: String,
    pub save_field: String,
    pub game_candidates: Vec<String>,
    pub save_candidates: Vec<String>,
    /// Why the app is on this screen when it is not the first run.
    pub note: Option<String>,
    /// The settings this screen was reached from.
    pub seed: Option<S>,
}

/// The field a directory is seeded with: the earlier settings'
/// directory when there are earlier settings, else the first candidate
/// found, else nothing.
pub open spec fn seeded_field(earlier: Option<Seq<char>>, candidates: Seq<String>) -> Seq<char> {
    match earlier {
        Some(dir) => dir,
        None => if candidates.len() > 0 {
            candidates[0]@
        } else {
            Seq::empty()
        },
    }
}

fn seed_field(earlier: Option<&String>, candidates: &Vec<String>) -> (field: String)
    ensures
        field@ == seeded_field(
            match earlier {
                Some(dir) => Some(dir@),
                None => None,
            },
            candidates@,
        ),
{
    match earlier {
        Some(dir) => dir.clone(),
        None => if candidates.len() > 0 {
            candidates[0].clone()
        } else {
            String::new()
        },
    }
}

impl<S> SetupState<S> {
    /// Seeds the fields from earlier settings — `seed` with its game
    /// and save directories, when there are any — and otherwise from
    /// the first of the candidates that exist on this machine.
    pub fn discover(
        seed: Option<(S, String, String)>,
        note: Option<String>,
        game_candidates: Vec<String>,
        save_candidates: Vec<String>,
    ) -> (state: SetupState<S>)
        ensures
            state.game_field@ == seeded_field(
                match seed {
                    Some(s) => Some(s.1@),
                    None => None,
                },
                game_candidates@,
            ),
            state.save_field@ == seeded_field(
                match seed {
                    Some(s) => Some(s.2@),
                    None => None,
                },
                save_candidates@,
            ),
            state.game_candidates@ == game_candidates@,
            state.save_candidates@ == save_candidates@,
            state.note == note,
            state.seed == match seed {
                Some(s) => Some(s.0),
                None => None,
            },
    {
        let (seed, game_field, save_field) = match seed {
            Some((settings, game, save)) => (Some(settings), game, save),
            None => (
                None,
                seed_field(None, &game_candidates),
                seed_field(None, &save_candidates),
            ),
        };
        SetupState { game_field, save_field, game_candidates, save_candidates, note, seed }
    }

    /// What to persist once both directories validate: the fields'
    /// directories, under the settings this screen was reached from
    /// (their remembered campaign and standing orders kept), or under
    /// fresh settings when there are none.
    pub fn settings(&self) -> (parts: (Option<&S>, String, String))
        ensures
            parts.0 == match self.seed {
                Some(s) => Some(&s),
                None => None,
            },
            parts.1@ == self.game_field@,
            parts.2@ == self.save_field@,
    {
        let seed = match &self.seed {
            Some(s) => Some(s),
            None => None,
        };
        (seed, self.game_field.clone(), self.save_field.clone())
    }

    /// The game field validated: `is_dir` and `marker_present` say
    /// whether it names a directory and whether that holds the game's
    /// marker.
    pub fn game_dir(&self, is_dir: bool, marker_present: bool) -> (parsed: Result<GameDir, DirProblem>)
        ensures
            self.game_field@.len() == 0 ==> parsed == Err::<GameDir, DirProblem>(
                DirProblem::Empty(crate::dirs::DirRole::Game),
            ),
            self.game_field@.len() > 0 && !is_dir ==> (parsed matches Err(DirProblem::Missing(path))
                && path@ == self.game_field@),
            self.game_field@.len() > 0 && is_dir && !marker_present ==> parsed matches Err(
                DirProblem::Unmarked { .. },
            ),
            self.game_field@.len() > 0 && is_dir && marker_present ==> (parsed matches Ok(dir) && dir@
                == self.game_field@),
    {
        GameDir::parse(self.game_field.as_str(), is_dir, marker_present)
    }

    /// The save field validated: `present` says which of the save
    /// directory's markers it holds, in order.
    pub fn save_dir(&self, is_dir: bool, present: &Vec<bool>) -> (parsed: Result<SaveDir, DirProblem>)
        requires
            present@.len() == save_dir_markers().len(),
        ensures
            self.save_field@.len() == 0 ==> parsed == Err::<SaveDir, DirProblem>(
                DirProblem::Empty(crate::dirs::DirRole::Save),
            ),
            self.save_field@.len() > 0 && !is_dir ==> (parsed matches Err(DirProblem::Missing(path))
                && path@ == self.save_field@),
            self.save_field@.len() > 0 && is_dir && (exists|i: int| 0 <= i < present@.len() && !present@[i])
                ==> parsed matches Err(DirProblem::Unmarked { .. }),
            self.save_field@.len() > 0 && is_dir && (forall|i: int| 0 <= i < present@.len() ==> present@[i])
                ==> (parsed matches Ok(dir) && dir@ == self.save_field@),
    {
        let parsed = SaveDir::parse(self.save_field.as_str(), is_dir, present);
        proof {
            if self.save_field@.len() > 0 && is_dir && (exists|i: int|
                0 <= i < present@.len() && !present@[i]) {
                if !present@[0] {
                } else {
                    assert(!present@[1]);
                }
            }
        }
        parsed
    }
}

/// What applying a draft costs the shell, most expensive wins.
#[derive(Clone, Copy, Debug, PartialEq, Eq, Structural)]
pub enum Change {
    /// Nothing differs.
    Nothing,
    /// Only the rules changed; every open file stays.
    Rules,
    /// The store moved; the game files stay open.
    Store,
    /// A directory changed: the game data and every file reload.
    World,
}

/// The cost of applying a draft.
pub open spec fn change_of(dirs_differ: bool, store_differs: bool, anything_differs: bool) -> Change {
    if dirs_differ {
        Change::World
    } else if store_differs {
        Change::Store
    } else if !anything_differs {
        Change::Nothing
    } else {
        Change::Rules
    }
}

/// The hint under the apply button.
pub open spec fn hint_text(change: Change) -> Seq<char> {
    match change {
        Change::Nothing => "nothing has changed"@,
        Change::Rules => "saves the rules; every open file stays as it is"@,
        Change::Store => "switches to the other vault store; the game files stay open"@,
        Change::World => "reloads the game data and every file from the new directories"@,
    }
}

/// Whether two texts are the same.
fn same_text(a: &str, b: &str) -> (same: bool)
    ensures
        same == (a@ == b@),
{
    let n = a.unicode_len();
    if n != b.unicode_len() {
        return false;
    }
    let mut i: usize = 0;
    while i < n
        invariant
            n == a@.len(),
            n == b@.len(),
            i <= n,
            forall|j: int| 0 <= j < i ==> a@[j] == b@[j],
        decreases n - i,
    {
        if a.get_char(i) != b.get_char(i) {
            return false;
        }
        i = i + 1;
    }
    proof {
        assert(a@ =~= b@);
    }
    true
}

impl Change {
    /// What applying `next` over `current` costs: a changed game or
    /// save directory reloads the world, a changed store file switches
    /// the store, anything else that differs (`identical` is false)
    /// saves the rules.
    pub fn between(
        current_game: &str,
        current_save: &str,
        current_store: &str,
        next_game: &str,
        next_save: &str,
        next_store: &str,
        identical: bool,
    ) -> (change: Change)
        ensures
            change == change_of(
                current_game@ != next_game@ || current_save@ != next_save@,
                current_store@ != next_store@,
                !identical,
            ),
    {
        if !same_text(current_game, next_game) || !same_text(current_save, next_save) {
            Change::World
        } else if !same_text(current_store, next_store) {
            Change::Store
        } else if identical {
            Change::Nothing
        } else {
            Change::Rules
        }
    }

    /// The hint under the apply button.
    pub fn apply_hint(self) -> (text: &'static str)
        ensures
            text@ == hint_text(self),
    {
        match self {
            Change::Nothing => "nothing has changed",
            Change::Rules => "saves the rules; every open file stays as it is",
            Change::Store => "switches to the other vault store; the game files stay open",
            Change::World => "reloads the game data and every file from the new directories",
        }
    }
}

/// A changed directory always reloads the world, whatever else
/// changed; settings that are identical cost nothing.
pub proof fn law_the_most_expensive_change_wins(store_differs: bool, anything_differs: bool)
    ensures
        change_of(true, store_differs, anything_differs) == Change::World,
        change_of(false, true, anything_differs) == Change::Store,
        change_of(false, false, false) == Change::Nothing,
{
}

/// Whether the store file is there already.
#[derive(Clone, Copy, Debug, PartialEq, Eq, Structural)]
pub enum StoreFileState {
    Present,
    Absent,
}

impl StoreFileState {
    /// The state in words.
    pub fn describe(self) -> (text: &'static str)
        ensures
            text@ == match self {
                StoreFileState::Present => "exists; opened as the vault store"@,
                StoreFileState::Absent => "does not exist yet; created by the first save"@,
            },
    {
        match self {
            StoreFileState::Present => "exists; opened as the vault store",
            StoreFileState::Absent => "does not exist yet; created by the first save",
        }
    }
}

/// Why a store path was not accepted.
#[derive(Clone, Debug, PartialEq, Eq)]
pub enum StoreFileProblem {
    Empty,
    IsDirectory(String),
    NoParent(String),
}

impl StoreFileProblem {
    /// The problem in words.
    pub fn describe(&self) -> (text: String)
        ensures
            text@ == match *self {
                StoreFileProblem::Empty => "choose a vault store file"@,
                StoreFileProblem::IsDirectory(path) => path@ + " is a directory, not a file"@,
                StoreFileProblem::NoParent(path) => path@ + " does not exist, so no store can be created there"@,
            },
    {
        match self {
            StoreFileProblem::Empty => String::from_str("choose a vault store file"),
            StoreFileProblem::IsDirectory(path) => crate::text::join2(path.as_str(), " is a directory, not a file"),
            StoreFileProblem::NoParent(path) => crate::text::join2(
                path.as_str(),
                " does not exist, so no store can be created there",
            ),
        }
    }
}

/// A store path is acceptable when it is a file, or could become one:
/// its directory must exist, since a shared drive that is not mounted
/// is the likeliest mistake and creating a tree on the local disk in
/// its place would hide it. `is_dir` and `is_file` say what `path`
/// is, `parent_is_dir` whether the directory it sits in (as
/// `Path::parent` names it) is one.
pub fn store_file_verdict(path: &str, is_dir: bool, is_file: bool, parent_is_dir: bool) -> (verdict: Result<
    StoreFileState,
    StoreFileProblem,
>)
    ensures
        path@.len() == 0 ==> verdict == Err::<StoreFileState, StoreFileProblem>(StoreFileProblem::Empty),
        path@.len() > 0 && is_dir ==> (verdict matches Err(StoreFileProblem::IsDirectory(p)) && p@ == path@),
        path@.len() > 0 && !is_dir && is_file ==> verdict == Ok::<StoreFileState, StoreFileProblem>(
            StoreFileState::Present,
        ),
        path@.len() > 0 && !is_dir && !is_file ==> match path_parent(path@) {
            Some(dir) => if parent_is_dir {
                verdict == Ok::<StoreFileState, StoreFileProblem>(StoreFileState::Absent)
            } else {
                verdict matches Err(StoreFileProblem::NoParent(p)) && p@ == dir
            },
            None => verdict matches Err(StoreFileProblem::NoParent(p)) && p@ == path@,
        },
{
    if path.unicode_len() == 0 {
        return Err(StoreFileProblem::Empty);
    }
    if is_dir {
        return Err(StoreFileProblem::IsDirectory(String::from_str(path)));
    }
    if is_file {
        return Ok(StoreFileState::Present);
    }
    match parent_of(path) {
        Some(dir) => if parent_is_dir {
            Ok(StoreFileState::Absent)
        } else {
            Err(StoreFileProblem::NoParent(dir))
        },
        None => Err(StoreFileProblem::NoParent(String::from_str(path))),
    }
}

} // verus!
