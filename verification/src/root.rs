//! Where a store is opened when nobody says where.
use vstd::prelude::*;

verus! {

/// The directory below the home directory that a store is opened on.
pub const BELOW_HOME: &'static str = ".cardbox";

/// What is said where there is neither.
pub const NO_ROOT: &'static str = "neither CARDBOX_ROOT nor HOME is set";

/// Which directory a store is opened on.
#[derive(Debug, PartialEq, Eq)]
pub enum Root<P> {
    /// This one, as it stands.
    Given(P),
    /// [`BELOW_HOME`] in this one.
    BelowHome(P),
}

/// The directory a store is opened on: the one that was set, else the one below the home
/// directory, and none where neither is known.
pub fn root_choice<P>(set: Option<P>, home: Option<P>) -> (r: Option<Root<P>>)
    ensures
        r == match set {
            Some(set) => Some(Root::Given(set)),
            None => match home {
                Some(home) => Some(Root::BelowHome(home)),
                None => None,
            },
        },
{
    match set {
        Some(set) => Some(Root::Given(set)),
        None => match home {
            Some(home) => Some(Root::BelowHome(home)),
            None => None,
        },
    }
}

} // verus!
