//! The mock package database's entries. Reading the database file is done
//! outside the verified library.

use vstd::prelude::*;

verus! {

/// One installed mock package; `essential` marks a package whose removal
/// may break the simulated toolchain.
#[derive(Debug, PartialEq, Eq)]
pub struct MockPackage {
    pub name: String,
    pub version: String,
    pub essential: bool,
}

impl Clone for MockPackage {
    fn clone(&self) -> (r: Self)
        ensures
            r == *self,
    {
        MockPackage { name: self.name.clone(), version: self.version.clone(), essential: self.essential }
    }
}

} // verus!
