//! Ranking and interaction engine of an interactive launcher: a usage
//! ledger with frecency scores, fuzzy ranking of applications, path
//! completion and the session state machine.

pub mod clock;
pub mod desktop_entry;
pub mod entry;
pub mod path_completion;
pub mod search;
pub mod session;
pub mod text;
pub mod usage;
