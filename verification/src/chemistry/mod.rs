//! Chemistry: elements, bonds and molecules.

pub mod bond;
pub mod element;
pub mod molecule;
pub mod reaction;

use vstd::prelude::*;

verus! {

/// Plugin that initialises the chemistry subsystem (the periodic table
/// and the reaction registry, inserted by the embedding application).
pub struct ChemistryPlugin;

} // verus!
