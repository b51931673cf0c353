use vstd::prelude::*;

verus! {

/// The type of chemical bond between two atoms.
#[derive(Debug, Clone, Copy, PartialEq, Eq, Structural)]
pub enum BondType {
    Single,
    Double,
    Triple,
    Aromatic,
    Ionic,
    Hydrogen,
    VanDerWaals,
}

} // verus!
