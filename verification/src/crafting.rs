//! The crafting lists as the shell names them: which list an action is
//! about, its labels, the document it edits, the file name an export
//! proposes, and what the crafting tabs and an absent list's message
//! say.

use vstd::prelude::*;
use crate::campaign::Campaign;
use crate::documents::Doc;
use crate::text::{decimal, decimal_text, join2};

verus! {

/// Which crafting list an action is about.
#[derive(Clone, Copy, Debug, PartialEq, Eq, Structural)]
pub enum Crafting {
    Blueprints,
    Illusions,
}

/// The list's label.
pub open spec fn crafting_label(list: Crafting) -> Seq<char> {
    match list {
        Crafting::Blueprints => "Blueprints"@,
        Crafting::Illusions => "Illusions"@,
    }
}

/// One entry of the list, for toasts.
pub open spec fn crafting_one(list: Crafting) -> Seq<char> {
    match list {
        Crafting::Blueprints => "blueprint"@,
        Crafting::Illusions => "illusion"@,
    }
}

/// What `str::to_lowercase` makes of a text: Unicode's lowercase
/// mapping, which depends on context in places (a final Σ becomes ς).
pub uninterp spec fn lowercased(text: Seq<char>) -> Seq<char>;

/// `text` in lowercase.
///
/// Calls `str::to_lowercase`; the contract claims only that the result
/// is a function of the text (named [`lowercased`]), which holds since
/// the mapping is Unicode's fixed table. What that mapping is is left
/// unsaid.
#[verifier::external_body]
fn lowercase(text: &str) -> (lower: String)
    ensures
        lower@ == lowercased(text@),
{
    text.to_lowercase()
}

impl Crafting {
    /// The list's label.
    pub fn label(self) -> (text: &'static str)
        ensures
            text@ == crafting_label(self),
    {
        match self {
            Crafting::Blueprints => "Blueprints",
            Crafting::Illusions => "Illusions",
        }
    }

    /// The singular, for toasts.
    pub fn one(self) -> (text: &'static str)
        ensures
            text@ == crafting_one(self),
    {
        match self {
            Crafting::Blueprints => "blueprint",
            Crafting::Illusions => "illusion",
        }
    }

    /// The document the list lives in.
    pub fn doc(self) -> (doc: Doc)
        ensures
            doc == match self {
                Crafting::Blueprints => Doc::Blueprints,
                Crafting::Illusions => Doc::Illusions,
            },
    {
        match self {
            Crafting::Blueprints => Doc::Blueprints,
            Crafting::Illusions => Doc::Illusions,
        }
    }

    /// The name an export dialog proposes: the list and the campaign,
    /// a mod's name in lowercase.
    pub fn export_file_name(self, campaign: &Campaign) -> (name: String)
        ensures
            name@ == crafting_one(self) + "-"@ + match *campaign {
                Campaign::Main => "main"@,
                Campaign::Mod(mod_name) => lowercased(mod_name@),
            } + ".json"@,
    {
        let campaign_part = match campaign {
            Campaign::Main => String::from_str("main"),
            Campaign::Mod(mod_name) => lowercase(mod_name.as_str()),
        };
        join2(self.one(), "-").concat(campaign_part.as_str()).concat(".json")
    }
}

/// A crafting tab's label: the list and how many entries its file
/// holds, or a dash when the file is absent or unusable.
pub open spec fn crafting_tab_text(list: Crafting, count: Option<nat>) -> Seq<char> {
    match count {
        Some(n) => crafting_label(list) + " ("@ + decimal(n) + ")"@,
        None => crafting_label(list) + " (–)"@,
    }
}

/// A crafting tab's label; `count` is `None` when the list's file is
/// absent or unusable.
pub fn tab_label(list: Crafting, count: Option<usize>) -> (text: String)
    ensures
        text@ == crafting_tab_text(
            list,
            match count {
                Some(n) => Some(n as nat),
                None => None,
            },
        ),
{
    match count {
        Some(n) => {
            let digits = decimal_text(n as u64);
            join2(list.label(), " (").concat(digits.as_str()).concat(")")
        },
        None => join2(list.label(), " (–)"),
    }
}

/// What an action on a list whose file does not exist yet is told.
pub open spec fn absent_text(list: Crafting, path: Seq<char>) -> Seq<char> {
    path + " does not exist yet: the game writes it once the first "@ + crafting_one(list)
        + " is learned in this campaign"@
}

/// What an action on a list whose file at `path` does not exist yet is
/// told.
pub fn absent_message(list: Crafting, path: &str) -> (text: String)
    ensures
        text@ == absent_text(list, path@),
{
    join2(path, " does not exist yet: the game writes it once the first ").concat(list.one()).concat(
        " is learned in this campaign",
    )
}

} // verus!
