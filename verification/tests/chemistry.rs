use chemengine::chemistry::bond::BondType;
use chemengine::chemistry::element::{ElementCategory, ElementId, PeriodicTable, Phase};
use chemengine::chemistry::molecule::Molecule;
use chemengine::chemistry::reaction::{matching_rules, reactants_cover, standard_reactions};

#[test]
fn bond_type_equality() {
    assert_eq!(BondType::Single, BondType::Single);
    assert_ne!(BondType::Single, BondType::Double);
}

#[test]
fn new_molecule_has_formula() {
    let mol = Molecule::new("H2O");
    assert_eq!(mol.formula, "H2O");
    assert!(mol.atoms.is_empty());
    assert!(mol.bonds.is_empty());
    assert!(mol.name.is_none());
}

#[test]
fn molecule_with_name() {
    let mut mol = Molecule::new("C6H12O6");
    mol.name = Some("Glucose".to_string());
    assert_eq!(mol.name.as_deref(), Some("Glucose"));
}

#[test]
fn element_identifiers_compare_by_number() {
    assert_eq!(ElementId(8), ElementId(8));
    assert_ne!(ElementId(1), ElementId(2));
    assert_ne!(Phase::Gas, Phase::Solid);
    assert_eq!(ElementCategory::NobleGas, ElementCategory::NobleGas);
}


fn strings(list: &[&str]) -> Vec<String> {
    list.iter().map(|s| s.to_string()).collect()
}

fn default_rules() -> Vec<Vec<String>> {
    standard_reactions().iter().map(|f| strings(&f.reactants)).collect()
}

fn matching_names(wanted: &[&str]) -> Vec<&'static str> {
    let formulas = standard_reactions();
    matching_rules(&default_rules(), wanted).into_iter().map(|i| formulas[i].name).collect()
}

#[test]
fn default_has_at_least_five_reactions() {
    let rules = standard_reactions();
    assert!(rules.len() >= 5, "Default registry should have at least 5 reactions, got {}", rules.len());
}

#[test]
fn find_matching_water_formation() {
    let matches = matching_names(&["H2", "O2"]);
    assert!(!matches.is_empty(), "Should find water formation for H2 + O2");
    assert!(matches.iter().any(|n| *n == "Water formation"), "Water formation should be among matched reactions");
}

#[test]
fn find_matching_unrelated_returns_empty() {
    let matches = matching_names(&["Xe", "Au"]);
    assert!(matches.is_empty(), "No reactions should match Xe + Au");
}

#[test]
fn find_matching_methane_combustion() {
    let matches = matching_names(&["CH4", "O2"]);
    assert!(matches.iter().any(|n| *n == "Methane combustion"));
}

#[test]
fn find_matching_acid_base() {
    let matches = matching_names(&["HCl", "NaOH"]);
    assert!(matches.iter().any(|n| *n == "Acid-base neutralisation"));
}

#[test]
fn standard_reactions_list_their_products() {
    let formulas = standard_reactions();
    let names: Vec<&str> = formulas.iter().map(|f| f.name).collect();
    assert_eq!(
        names,
        vec!["Water formation", "Methane combustion", "Rust formation", "Photosynthesis", "Acid-base neutralisation"]
    );
    assert_eq!(formulas[3].products, vec!["C6H12O6", "O2"]);
    assert_eq!(formulas[2].reactants, vec!["Fe", "O2"]);
}

#[test]
fn matching_water_formation_reactants() {
    let found = matching_rules(&default_rules(), &["H2", "O2"]);
    assert_eq!(found, vec![0]);
}

#[test]
fn matching_unrelated_reactants_finds_nothing() {
    assert!(matching_rules(&default_rules(), &["Xe", "Au"]).is_empty());
}

#[test]
fn matching_one_reactant_finds_every_rule_using_it() {
    assert_eq!(matching_rules(&default_rules(), &["O2"]), vec![0, 1, 2]);
    assert_eq!(matching_rules(&default_rules(), &[]), vec![0, 1, 2, 3, 4]);
}

#[test]
fn cover_requires_every_wanted_reactant() {
    let r = strings(&["CH4", "O2"]);
    assert!(reactants_cover(&r, &["O2", "CH4"]));
    assert!(!reactants_cover(&r, &["O2", "H2"]));
}

#[test]
fn periodic_table_has_118_elements() {
    let table = PeriodicTable::new();
    assert_eq!(table.len(), 118);
}

#[test]
fn iron_is_element_26() {
    let table = PeriodicTable::new();
    let fe = table.get(ElementId(26)).expect("Element 26 should exist");
    assert_eq!(fe.symbol, "Fe");
    assert_eq!(fe.name, "Iron");
    assert_eq!(fe.category, ElementCategory::TransitionMetal);
}

#[test]
fn silver_is_element_47() {
    let table = PeriodicTable::new();
    let ag = table.get(ElementId(47)).expect("Element 47 should exist");
    assert_eq!(ag.symbol, "Ag");
    assert_eq!(ag.name, "Silver");
}

#[test]
fn platinum_is_element_78() {
    let table = PeriodicTable::new();
    let pt = table.get(ElementId(78)).expect("Element 78 should exist");
    assert_eq!(pt.symbol, "Pt");
    assert_eq!(pt.name, "Platinum");
}

#[test]
fn uranium_is_element_92() {
    let table = PeriodicTable::new();
    let u = table.get(ElementId(92)).expect("Element 92 should exist");
    assert_eq!(u.symbol, "U");
    assert_eq!(u.name, "Uranium");
    assert_eq!(u.category, ElementCategory::Actinide);
}

#[test]
fn plutonium_is_element_94() {
    let table = PeriodicTable::new();
    let pu = table.get(ElementId(94)).expect("Element 94 should exist");
    assert_eq!(pu.symbol, "Pu");
    assert_eq!(pu.name, "Plutonium");
    assert_eq!(pu.category, ElementCategory::Actinide);
}

#[test]
fn copper_is_element_29() {
    let table = PeriodicTable::new();
    let cu = table.get(ElementId(29)).expect("Element 29 should exist");
    assert_eq!(cu.symbol, "Cu");
    assert_eq!(cu.name, "Copper");
}

#[test]
fn by_symbol_oxygen() {
    let table = PeriodicTable::new();
    let o = table.by_symbol("O").expect("Oxygen should exist");
    assert_eq!(o.name, "Oxygen");
    assert_eq!(o.atomic_number, 8);
}

#[test]
fn by_symbol_unknown_returns_none() {
    let table = PeriodicTable::new();
    assert!(table.by_symbol("XX").is_none());
}

#[test]
fn element_id_zero_returns_none() {
    let table = PeriodicTable::new();
    assert!(table.get(ElementId(0)).is_none());
}

#[test]
fn element_id_out_of_range_returns_none() {
    let table = PeriodicTable::new();
    assert!(table.get(ElementId(119)).is_none());
}

#[test]
fn oganesson_is_element_118() {
    let table = PeriodicTable::new();
    let og = table.get(ElementId(118)).expect("Element 118 should exist");
    assert_eq!(og.symbol, "Og");
    assert_eq!(og.name, "Oganesson");
}

#[test]
fn hydrogen_carbon_and_gold_by_number() {
    let table = PeriodicTable::default();
    let h = table.get(ElementId(1)).expect("Element 1 should exist");
    assert_eq!(h.symbol, "H");
    assert_eq!(h.name, "Hydrogen");
    assert_eq!(h.phase_at_stp, Phase::Gas);
    assert_eq!(h.category, ElementCategory::NonMetal);
    let c = table.get(ElementId(6)).expect("Element 6 should exist");
    assert_eq!(c.symbol, "C");
    assert_eq!(c.name, "Carbon");
    let au = table.get(ElementId(79)).expect("Element 79 should exist");
    assert_eq!(au.symbol, "Au");
    assert_eq!(au.name, "Gold");
}

#[test]
fn every_element_is_found_by_its_number_and_symbol() {
    let table = PeriodicTable::new();
    assert!(!table.is_empty());
    for n in 1..=118u8 {
        let e = table.get(ElementId(n)).expect("every number of the table is listed");
        assert_eq!(e.atomic_number, n);
        let by_symbol = table.by_symbol(e.symbol).expect("every symbol is listed");
        assert_eq!(by_symbol.atomic_number, n);
        assert!(e.group <= 18);
        assert!((1..=7).contains(&e.period));
    }
    assert!(table.by_symbol("o").is_none());
    assert!(table.get(ElementId(255)).is_none());
}

#[test]
fn lookups_by_symbol_are_case_sensitive_and_exact() {
    let table = PeriodicTable::new();
    assert_eq!(table.by_symbol("Og").map(|e| e.atomic_number), Some(118));
    assert!(table.by_symbol("OG").is_none());
    assert!(table.by_symbol("").is_none());
    assert_eq!(table.by_symbol("Na").map(|e| e.name), Some("Sodium"));
}
