//! Grim Vault's shell logic: the bookkeeping of the open game files,
//! the clocks that decide when to write and when an outside change is
//! believed, the links between documents edited together, the plans a
//! drag turns into, and the choices a load makes — each stated over a
//! mathematical model and proved.

pub mod automove;
pub mod autosave;
pub mod campaign;
pub mod characters;
pub mod crafting;
pub mod dirs;
pub mod documents;
pub mod drag;
pub mod facts;
pub mod guard;
pub mod layers;
pub mod links;
pub mod loader;
pub mod panes;
pub mod paths;
pub mod release;
pub mod search;
pub mod setup;
pub mod shell;
pub mod text;
pub mod touched;
pub mod ui_state;
pub mod watch;

use vstd::prelude::*;

verus! {

} // verus!
