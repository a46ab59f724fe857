//! The two package sets.

use vstd::prelude::*;

verus! {

/// The set a package database describes.
#[derive(Clone, Copy, Debug, PartialEq, Eq, Structural)]
pub enum PkgSet {
    /// Packages that a repository offers and that are not installed.
    Universe,
    /// Packages that are installed on this system.
    Local,
}

impl PkgSet {
    /// The word that stands for the set in a database file.
    pub open spec fn spec_tag(self) -> Seq<char> {
        match self {
            PkgSet::Universe => "universe"@,
            PkgSet::Local => "local"@,
        }
    }

    /// Returns the word that stands for the set in a database file.
    pub fn tag(&self) -> (word: &'static str)
        ensures
            word@ == self.spec_tag(),
    {
        match self {
            PkgSet::Universe => "universe",
            PkgSet::Local => "local",
        }
    }
}

} // verus!
