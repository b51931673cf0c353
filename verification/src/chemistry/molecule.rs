use vstd::prelude::*;

use crate::entity::Entity;

verus! {

/// A molecule composed of atom and bond entities.
#[derive(Debug, Clone)]
pub struct Molecule {
    /// Entity handles of the atoms in this molecule.
    pub atoms: Vec<Entity>,
    /// Entity handles of the bonds in this molecule.
    pub bonds: Vec<Entity>,
    /// Chemical formula (e.g. "H2O", "CH4").
    pub formula: String,
    /// Optional human-readable name.
    pub name: Option<String>,
}

impl Molecule {
    /// Creates a molecule with the given formula, no atoms, no bonds and
    /// no name.
    pub fn new(formula: &str) -> (r: Self)
        ensures
            r.formula@ == formula@,
            r.atoms@.len() == 0,
            r.bonds@.len() == 0,
            r.name is None,
    {
        Molecule { atoms: Vec::new(), bonds: Vec::new(), formula: formula.to_owned(), name: None }
    }
}

} // verus!
