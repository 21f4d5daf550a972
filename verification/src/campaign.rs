//! The campaigns a save directory holds and the realms its characters
//! live under: the main campaign, whose shared files sit at the top of
//! the save directory, and every mod the game has been played with,
//! whose shared files sit in a folder named after it.

use vstd::prelude::*;

verus! {

/// A campaign: the main one, or a mod by its folder's name.
#[derive(Clone, Debug, PartialEq, Eq)]
pub enum Campaign {
    Main,
    Mod(String),
}

/// A campaign as a value: `None` for the main campaign, the mod's
/// name otherwise.
pub open spec fn campaign_view(c: Campaign) -> Option<Seq<char>> {
    match c {
        Campaign::Main => None,
        Campaign::Mod(name) => Some(name@),
    }
}

impl Campaign {
    /// The same campaign, owned anew.
    pub fn duplicate(&self) -> (copy: Campaign)
        ensures
            campaign_view(copy) == campaign_view(*self),
    {
        match self {
            Campaign::Main => Campaign::Main,
            Campaign::Mod(name) => Campaign::Mod(name.clone()),
        }
    }

    /// Whether two campaigns are the same one.
    pub fn same_as(&self, other: &Campaign) -> (same: bool)
        ensures
            same == (campaign_view(*self) == campaign_view(*other)),
    {
        match (self, other) {
            (Campaign::Main, Campaign::Main) => true,
            (Campaign::Mod(a), Campaign::Mod(b)) => *a == *b,
            _ => false,
        }
    }
}

/// The folder a character was found under: `main/` for the main
/// campaign, `user/` for custom games (mods).
#[derive(Clone, Copy, Debug, PartialEq, Eq, Structural)]
pub enum Realm {
    Main,
    Custom,
}

impl Realm {
    /// Both realms, main first.
    pub fn all() -> (realms: Vec<Realm>)
        ensures
            realms@ == seq![Realm::Main, Realm::Custom],
    {
        vec![Realm::Main, Realm::Custom]
    }

    /// The realm's folder under the save directory.
    pub fn dir_name(self) -> (name: &'static str)
        ensures
            name@ == match self {
                Realm::Main => "main"@,
                Realm::Custom => "user"@,
            },
    {
        match self {
            Realm::Main => "main",
            Realm::Custom => "user",
        }
    }
}

} // verus!
