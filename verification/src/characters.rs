//! Naming a character whose file could not be opened: the game keeps
//! every character in a folder named `_<Name>`, so the folder that
//! holds a `player.gdc` is the one witness of its name left.

use vstd::prelude::*;
use crate::campaign::Realm;
use crate::paths::{file_name_of, parent_of, path_file_name, path_parent};

verus! {

/// `text` without its leading underscores.
pub open spec fn trim_underscores(text: Seq<char>) -> Seq<char>
    decreases text.len(),
{
    if text.len() > 0 && text[0] == '_' {
        trim_underscores(text.drop_first())
    } else {
        text
    }
}

/// The display name a character's folder carries: the name of the
/// folder the file sits in (as `std::path` names the file's parent and
/// its last component), its leading underscores trimmed; the path
/// itself when it names no such folder.
pub open spec fn folder_label(path: Seq<char>) -> Seq<char> {
    match path_parent(path) {
        Some(dir) => match path_file_name(dir) {
            Some(name) => trim_underscores(name),
            None => path,
        },
        None => path,
    }
}

proof fn lemma_trim_from(text: Seq<char>, j: int)
    requires
        0 <= j <= text.len(),
        forall|k: int| 0 <= k < j ==> text[k] == '_',
        j == text.len() || text[j] != '_',
    ensures
        trim_underscores(text) == text.subrange(j, text.len() as int),
    decreases j,
{
    if j > 0 {
        assert(text[0] == '_');
        let rest = text.drop_first();
        assert forall|k: int| 0 <= k < j - 1 implies rest[k] == '_' by {
            assert(rest[k] == text[k + 1]);
        }
        lemma_trim_from(rest, j - 1);
        assert(rest.subrange(j - 1, rest.len() as int) =~= text.subrange(j, text.len() as int));
    } else {
        assert(text.subrange(0, text.len() as int) =~= text);
    }
}

/// `text` without its leading underscores.
fn without_leading_underscores(text: &str) -> (trimmed: String)
    ensures
        trimmed@ == trim_underscores(text@),
{
    let n = text.unicode_len();
    let mut j: usize = 0;
    while j < n && text.get_char(j) == '_'
        invariant
            j <= n,
            n == text@.len(),
            forall|k: int| 0 <= k < j ==> text@[k] == '_',
        decreases n - j,
    {
        j = j + 1;
    }
    proof {
        lemma_trim_from(text@, j as int);
    }
    String::from_str(text.substring_char(j, n))
}

/// The display name the game's folder carries (`_<Name>`), for a
/// character whose file at `path` could not be opened.
pub fn folder_name(path: &str) -> (name: String)
    ensures
        name@ == folder_label(path@),
{
    match parent_of(path) {
        Some(dir) => match file_name_of(dir.as_str()) {
            Some(folder) => without_leading_underscores(folder.as_str()),
            None => String::from_str(path),
        },
        None => String::from_str(path),
    }
}

/// How the character list names an entry: the character's own name
/// when its file was read, its folder's name otherwise.
pub fn entry_label(read_name: Option<&str>, path: &str) -> (label: String)
    ensures
        label@ == match read_name {
            Some(name) => name@,
            None => folder_label(path@),
        },
{
    match read_name {
        Some(name) => String::from_str(name),
        None => folder_name(path),
    }
}

/// The character picker's line for an entry: its label, then whether
/// it is a custom-game character and whether its file was unreadable.
pub open spec fn picker_text(label: Seq<char>, realm: Realm, readable: bool) -> Seq<char> {
    label + match realm {
        Realm::Main => ""@,
        Realm::Custom => " · custom game"@,
    } + if readable {
        ""@
    } else {
        " (unreadable)"@
    }
}

/// The character picker's line for an entry labelled `label`.
pub fn picker_label(label: &str, realm: Realm, readable: bool) -> (text: String)
    ensures
        text@ == picker_text(label@, realm, readable),
{
    let realm_part = match realm {
        Realm::Main => "",
        Realm::Custom => " · custom game",
    };
    let state = if readable {
        ""
    } else {
        " (unreadable)"
    };
    crate::text::join2(label, realm_part).concat(state)
}

} // verus!
