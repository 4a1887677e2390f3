//! Account switching for Battle.net: saved accounts, their groups, the
//! reading of the Battle.net configuration, and the decisions taken when
//! switching, saving and removing accounts.
use vstd::prelude::*;

pub mod switcher;
pub mod accounts;
pub mod flows;
pub mod groups;
pub mod json;
pub mod platform;
pub mod records;
pub mod stamps;
pub mod text;
pub mod tray;

verus! {

} // verus!
