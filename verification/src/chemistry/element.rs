use vstd::prelude::*;

verus! {

/// Unique identifier for an element (1-based atomic number).
#[derive(Debug, Clone, Copy, PartialEq, Eq, Hash, Structural)]
pub struct ElementId(pub u8);

/// Phase of matter at standard temperature and pressure.
#[derive(Debug, Clone, Copy, PartialEq, Eq, Structural)]
pub enum Phase {
    Solid,
    Liquid,
    Gas,
    Unknown,
}

/// Category within the periodic table.
#[derive(Debug, Clone, Copy, PartialEq, Eq, Structural)]
pub enum ElementCategory {
    AlkaliMetal,
    AlkalineEarthMetal,
    TransitionMetal,
    PostTransitionMetal,
    Metalloid,
    NonMetal,
    Halogen,
    NobleGas,
    Lanthanide,
    Actinide,
    Unknown,
}

/// The exact properties of one element: its number, symbol, name, phase
/// at standard temperature and pressure, place in the table and category.
/// Its measured quantities (atomic mass, electronegativity) are floating
/// point and kept beside the table by the embedding application.
#[derive(Debug, Clone)]
pub struct ElementProperties {
    pub atomic_number: u8,
    pub symbol: &'static str,
    pub name: &'static str,
    pub phase_at_stp: Phase,
    pub group: u8,
    pub period: u8,
    pub category: ElementCategory,
}

/// The elements listed so far are numbered by their position: the element
/// at position `i` has atomic number `i + 1`.
pub open spec fn numbered_by_position(elements: Seq<ElementProperties>) -> bool {
    forall|i: int| 0 <= i < elements.len() ==> #[trigger] elements[i].atomic_number == i + 1
}

/// What the table states of an element apart from its number: symbol,
/// name, phase at standard temperature and pressure, group, period and
/// category.
pub type ElementRow = (Seq<char>, Seq<char>, Phase, u8, u8, ElementCategory);

/// The row an element's properties state.
pub open spec fn row_of(e: ElementProperties) -> ElementRow {
    (e.symbol@, e.name@, e.phase_at_stp, e.group, e.period, e.category)
}

/// The rows of a sequence of elements, in order.
pub open spec fn rows_of(elements: Seq<ElementProperties>) -> Seq<ElementRow> {
    elements.map_values(|e: ElementProperties| row_of(e))
}

/// Appends the next element of the table; its atomic number is one more
/// than the number of elements listed before it.
fn push_element(
    elements: &mut Vec<ElementProperties>,
    symbol: &'static str,
    name: &'static str,
    phase_at_stp: Phase,
    group: u8,
    period: u8,
    category: ElementCategory,
)
    requires
        numbered_by_position(old(elements)@),
        old(elements)@.len() < 255,
    ensures
        numbered_by_position(final(elements)@),
        final(elements)@.len() == old(elements)@.len() + 1,
        final(elements)@.last().atomic_number == old(elements)@.len() + 1,
        rows_of(final(elements)@) == rows_of(old(elements)@).push((symbol@, name@, phase_at_stp, group, period, category)),
{
    let atomic_number = (elements.len() + 1) as u8;
    elements.push(ElementProperties { atomic_number, symbol, name, phase_at_stp, group, period, category });
    assert(rows_of(elements@) =~= rows_of(old(elements)@).push((symbol@, name@, phase_at_stp, group, period, category)));
}

/// The rows of period 1, atomic numbers 1 to 2.
pub open spec fn period_1_rows() -> Seq<ElementRow> {
    seq![
        ("H"@, "Hydrogen"@, Phase::Gas, 1u8, 1u8, ElementCategory::NonMetal),
        ("He"@, "Helium"@, Phase::Gas, 18u8, 1u8, ElementCategory::NobleGas),
    ]
}

/// Appends the elements of period 1, atomic numbers 1 to 2.
fn push_period_1(elements: &mut Vec<ElementProperties>)
    requires
        numbered_by_position(old(elements)@),
        old(elements)@.len() == 0,
    ensures
        numbered_by_position(final(elements)@),
        final(elements)@.len() == 2,
        rows_of(final(elements)@) == rows_of(old(elements)@) + period_1_rows(),
{
    push_element(elements, "H", "Hydrogen", Phase::Gas, 1, 1, ElementCategory::NonMetal);
    push_element(elements, "He", "Helium", Phase::Gas, 18, 1, ElementCategory::NobleGas);
    assert(rows_of(elements@) =~= rows_of(old(elements)@) + period_1_rows());
}

/// The rows of period 2, atomic numbers 3 to 10.
pub open spec fn period_2_rows() -> Seq<ElementRow> {
    seq![
        ("Li"@, "Lithium"@, Phase::Solid, 1u8, 2u8, ElementCategory::AlkaliMetal),
        ("Be"@, "Beryllium"@, Phase::Solid, 2u8, 2u8, ElementCategory::AlkalineEarthMetal),
        ("B"@, "Boron"@, Phase::Solid, 13u8, 2u8, ElementCategory::Metalloid),
        ("C"@, "Carbon"@, Phase::Solid, 14u8, 2u8, ElementCategory::NonMetal),
        ("N"@, "Nitrogen"@, Phase::Gas, 15u8, 2u8, ElementCategory::NonMetal),
        ("O"@, "Oxygen"@, Phase::Gas, 16u8, 2u8, ElementCategory::NonMetal),
        ("F"@, "Fluorine"@, Phase::Gas, 17u8, 2u8, ElementCategory::Halogen),
        ("Ne"@, "Neon"@, Phase::Gas, 18u8, 2u8, ElementCategory::NobleGas),
    ]
}

/// Appends the elements of period 2, atomic numbers 3 to 10.
fn push_period_2(elements: &mut Vec<ElementProperties>)
    requires
        numbered_by_position(old(elements)@),
        old(elements)@.len() == 2,
    ensures
        numbered_by_position(final(elements)@),
        final(elements)@.len() == 10,
        rows_of(final(elements)@) == rows_of(old(elements)@) + period_2_rows(),
{
    push_element(elements, "Li", "Lithium", Phase::Solid, 1, 2, ElementCategory::AlkaliMetal);
    push_element(elements, "Be", "Beryllium", Phase::Solid, 2, 2, ElementCategory::AlkalineEarthMetal);
    push_element(elements, "B", "Boron", Phase::Solid, 13, 2, ElementCategory::Metalloid);
    push_element(elements, "C", "Carbon", Phase::Solid, 14, 2, ElementCategory::NonMetal);
    push_element(elements, "N", "Nitrogen", Phase::Gas, 15, 2, ElementCategory::NonMetal);
    push_element(elements, "O", "Oxygen", Phase::Gas, 16, 2, ElementCategory::NonMetal);
    push_element(elements, "F", "Fluorine", Phase::Gas, 17, 2, ElementCategory::Halogen);
    push_element(elements, "Ne", "Neon", Phase::Gas, 18, 2, ElementCategory::NobleGas);
    assert(rows_of(elements@) =~= rows_of(old(elements)@) + period_2_rows());
}

/// The rows of period 3, atomic numbers 11 to 18.
pub open spec fn period_3_rows() -> Seq<ElementRow> {
    seq![
        ("Na"@, "Sodium"@, Phase::Solid, 1u8, 3u8, ElementCategory::AlkaliMetal),
        ("Mg"@, "Magnesium"@, Phase::Solid, 2u8, 3u8, ElementCategory::AlkalineEarthMetal),
        ("Al"@, "Aluminium"@, Phase::Solid, 13u8, 3u8, ElementCategory::PostTransitionMetal),
        ("Si"@, "Silicon"@, Phase::Solid, 14u8, 3u8, ElementCategory::Metalloid),
        ("P"@, "Phosphorus"@, Phase::Solid, 15u8, 3u8, ElementCategory::NonMetal),
        ("S"@, "Sulfur"@, Phase::Solid, 16u8, 3u8, ElementCategory::NonMetal),
        ("Cl"@, "Chlorine"@, Phase::Gas, 17u8, 3u8, ElementCategory::Halogen),
        ("Ar"@, "Argon"@, Phase::Gas, 18u8, 3u8, ElementCategory::NobleGas),
    ]
}

/// Appends the elements of period 3, atomic numbers 11 to 18.
fn push_period_3(elements: &mut Vec<ElementProperties>)
    requires
        numbered_by_position(old(elements)@),
        old(elements)@.len() == 10,
    ensures
        numbered_by_position(final(elements)@),
        final(elements)@.len() == 18,
        rows_of(final(elements)@) == rows_of(old(elements)@) + period_3_rows(),
{
    push_element(elements, "Na", "Sodium", Phase::Solid, 1, 3, ElementCategory::AlkaliMetal);
    push_element(elements, "Mg", "Magnesium", Phase::Solid, 2, 3, ElementCategory::AlkalineEarthMetal);
    push_element(elements, "Al", "Aluminium", Phase::Solid, 13, 3, ElementCategory::PostTransitionMetal);
    push_element(elements, "Si", "Silicon", Phase::Solid, 14, 3, ElementCategory::Metalloid);
    push_element(elements, "P", "Phosphorus", Phase::Solid, 15, 3, ElementCategory::NonMetal);
    push_element(elements, "S", "Sulfur", Phase::Solid, 16, 3, ElementCategory::NonMetal);
    push_element(elements, "Cl", "Chlorine", Phase::Gas, 17, 3, ElementCategory::Halogen);
    push_element(elements, "Ar", "Argon", Phase::Gas, 18, 3, ElementCategory::NobleGas);
    assert(rows_of(elements@) =~= rows_of(old(elements)@) + period_3_rows());
}

/// The rows of period 4, atomic numbers 19 to 36.
pub open spec fn period_4_rows() -> Seq<ElementRow> {
    seq![
        ("K"@, "Potassium"@, Phase::Solid, 1u8, 4u8, ElementCategory::AlkaliMetal),
        ("Ca"@, "Calcium"@, Phase::Solid, 2u8, 4u8, ElementCategory::AlkalineEarthMetal),
        ("Sc"@, "Scandium"@, Phase::Solid, 3u8, 4u8, ElementCategory::TransitionMetal),
        ("Ti"@, "Titanium"@, Phase::Solid, 4u8, 4u8, ElementCategory::TransitionMetal),
        ("V"@, "Vanadium"@, Phase::Solid, 5u8, 4u8, ElementCategory::TransitionMetal),
        ("Cr"@, "Chromium"@, Phase::Solid, 6u8, 4u8, ElementCategory::TransitionMetal),
        ("Mn"@, "Manganese"@, Phase::Solid, 7u8, 4u8, ElementCategory::TransitionMetal),
        ("Fe"@, "Iron"@, Phase::Solid, 8u8, 4u8, ElementCategory::TransitionMetal),
        ("Co"@, "Cobalt"@, Phase::Solid, 9u8, 4u8, ElementCategory::TransitionMetal),
        ("Ni"@, "Nickel"@, Phase::Solid, 10u8, 4u8, ElementCategory::TransitionMetal),
        ("Cu"@, "Copper"@, Phase::Solid, 11u8, 4u8, ElementCategory::TransitionMetal),
        ("Zn"@, "Zinc"@, Phase::Solid, 12u8, 4u8, ElementCategory::TransitionMetal),
        ("Ga"@, "Gallium"@, Phase::Solid, 13u8, 4u8, ElementCategory::PostTransitionMetal),
        ("Ge"@, "Germanium"@, Phase::Solid, 14u8, 4u8, ElementCategory::Metalloid),
        ("As"@, "Arsenic"@, Phase::Solid, 15u8, 4u8, ElementCategory::Metalloid),
        ("Se"@, "Selenium"@, Phase::Solid, 16u8, 4u8, ElementCategory::NonMetal),
        ("Br"@, "Bromine"@, Phase::Liquid, 17u8, 4u8, ElementCategory::Halogen),
        ("Kr"@, "Krypton"@, Phase::Gas, 18u8, 4u8, ElementCategory::NobleGas),
    ]
}

/// Appends the elements of period 4, atomic numbers 19 to 36.
fn push_period_4(elements: &mut Vec<ElementProperties>)
    requires
        numbered_by_position(old(elements)@),
        old(elements)@.len() == 18,
    ensures
        numbered_by_position(final(elements)@),
        final(elements)@.len() == 36,
        rows_of(final(elements)@) == rows_of(old(elements)@) + period_4_rows(),
{
    push_element(elements, "K", "Potassium", Phase::Solid, 1, 4, ElementCategory::AlkaliMetal);
    push_element(elements, "Ca", "Calcium", Phase::Solid, 2, 4, ElementCategory::AlkalineEarthMetal);
    push_element(elements, "Sc", "Scandium", Phase::Solid, 3, 4, ElementCategory::TransitionMetal);
    push_element(elements, "Ti", "Titanium", Phase::Solid, 4, 4, ElementCategory::TransitionMetal);
    push_element(elements, "V", "Vanadium", Phase::Solid, 5, 4, ElementCategory::TransitionMetal);
    push_element(elements, "Cr", "Chromium", Phase::Solid, 6, 4, ElementCategory::TransitionMetal);
    push_element(elements, "Mn", "Manganese", Phase::Solid, 7, 4, ElementCategory::TransitionMetal);
    push_element(elements, "Fe", "Iron", Phase::Solid, 8, 4, ElementCategory::TransitionMetal);
    push_element(elements, "Co", "Cobalt", Phase::Solid, 9, 4, ElementCategory::TransitionMetal);
    push_element(elements, "Ni", "Nickel", Phase::Solid, 10, 4, ElementCategory::TransitionMetal);
    push_element(elements, "Cu", "Copper", Phase::Solid, 11, 4, ElementCategory::TransitionMetal);
    push_element(elements, "Zn", "Zinc", Phase::Solid, 12, 4, ElementCategory::TransitionMetal);
    push_element(elements, "Ga", "Gallium", Phase::Solid, 13, 4, ElementCategory::PostTransitionMetal);
    push_element(elements, "Ge", "Germanium", Phase::Solid, 14, 4, ElementCategory::Metalloid);
    push_element(elements, "As", "Arsenic", Phase::Solid, 15, 4, ElementCategory::Metalloid);
    push_element(elements, "Se", "Selenium", Phase::Solid, 16, 4, ElementCategory::NonMetal);
    push_element(elements, "Br", "Bromine", Phase::Liquid, 17, 4, ElementCategory::Halogen);
    push_element(elements, "Kr", "Krypton", Phase::Gas, 18, 4, ElementCategory::NobleGas);
    assert(rows_of(elements@) =~= rows_of(old(elements)@) + period_4_rows());
}

/// The rows of period 5, atomic numbers 37 to 54.
pub open spec fn period_5_rows() -> Seq<ElementRow> {
    seq![
        ("Rb"@, "Rubidium"@, Phase::Solid, 1u8, 5u8, ElementCategory::AlkaliMetal),
        ("Sr"@, "Strontium"@, Phase::Solid, 2u8, 5u8, ElementCategory::AlkalineEarthMetal),
        ("Y"@, "Yttrium"@, Phase::Solid, 3u8, 5u8, ElementCategory::TransitionMetal),
        ("Zr"@, "Zirconium"@, Phase::Solid, 4u8, 5u8, ElementCategory::TransitionMetal),
        ("Nb"@, "Niobium"@, Phase::Solid, 5u8, 5u8, ElementCategory::TransitionMetal),
        ("Mo"@, "Molybdenum"@, Phase::Solid, 6u8, 5u8, ElementCategory::TransitionMetal),
        ("Tc"@, "Technetium"@, Phase::Solid, 7u8, 5u8, ElementCategory::TransitionMetal),
        ("Ru"@, "Ruthenium"@, Phase::Solid, 8u8, 5u8, ElementCategory::TransitionMetal),
        ("Rh"@, "Rhodium"@, Phase::Solid, 9u8, 5u8, ElementCategory::TransitionMetal),
        ("Pd"@, "Palladium"@, Phase::Solid, 10u8, 5u8, ElementCategory::TransitionMetal),
        ("Ag"@, "Silver"@, Phase::Solid, 11u8, 5u8, ElementCategory::TransitionMetal),
        ("Cd"@, "Cadmium"@, Phase::Solid, 12u8, 5u8, ElementCategory::TransitionMetal),
        ("In"@, "Indium"@, Phase::Solid, 13u8, 5u8, ElementCategory::PostTransitionMetal),
        ("Sn"@, "Tin"@, Phase::Solid, 14u8, 5u8, ElementCategory::PostTransitionMetal),
        ("Sb"@, "Antimony"@, Phase::Solid, 15u8, 5u8, ElementCategory::Metalloid),
        ("Te"@, "Tellurium"@, Phase::Solid, 16u8, 5u8, ElementCategory::Metalloid),
        ("I"@, "Iodine"@, Phase::Solid, 17u8, 5u8, ElementCategory::Halogen),
        ("Xe"@, "Xenon"@, Phase::Gas, 18u8, 5u8, ElementCategory::NobleGas),
    ]
}

/// Appends the elements of period 5, atomic numbers 37 to 54.
fn push_period_5(elements: &mut Vec<ElementProperties>)
    requires
        numbered_by_position(old(elements)@),
        old(elements)@.len() == 36,
    ensures
        numbered_by_position(final(elements)@),
        final(elements)@.len() == 54,
        rows_of(final(elements)@) == rows_of(old(elements)@) + period_5_rows(),
{
    push_element(elements, "Rb", "Rubidium", Phase::Solid, 1, 5, ElementCategory::AlkaliMetal);
    push_element(elements, "Sr", "Strontium", Phase::Solid, 2, 5, ElementCategory::AlkalineEarthMetal);
    push_element(elements, "Y", "Yttrium", Phase::Solid, 3, 5, ElementCategory::TransitionMetal);
    push_element(elements, "Zr", "Zirconium", Phase::Solid, 4, 5, ElementCategory::TransitionMetal);
    push_element(elements, "Nb", "Niobium", Phase::Solid, 5, 5, ElementCategory::TransitionMetal);
    push_element(elements, "Mo", "Molybdenum", Phase::Solid, 6, 5, ElementCategory::TransitionMetal);
    push_element(elements, "Tc", "Technetium", Phase::Solid, 7, 5, ElementCategory::TransitionMetal);
    push_element(elements, "Ru", "Ruthenium", Phase::Solid, 8, 5, ElementCategory::TransitionMetal);
    push_element(elements, "Rh", "Rhodium", Phase::Solid, 9, 5, ElementCategory::TransitionMetal);
    push_element(elements, "Pd", "Palladium", Phase::Solid, 10, 5, ElementCategory::TransitionMetal);
    push_element(elements, "Ag", "Silver", Phase::Solid, 11, 5, ElementCategory::TransitionMetal);
    push_element(elements, "Cd", "Cadmium", Phase::Solid, 12, 5, ElementCategory::TransitionMetal);
    push_element(elements, "In", "Indium", Phase::Solid, 13, 5, ElementCategory::PostTransitionMetal);
    push_element(elements, "Sn", "Tin", Phase::Solid, 14, 5, ElementCategory::PostTransitionMetal);
    push_element(elements, "Sb", "Antimony", Phase::Solid, 15, 5, ElementCategory::Metalloid);
    push_element(elements, "Te", "Tellurium", Phase::Solid, 16, 5, ElementCategory::Metalloid);
    push_element(elements, "I", "Iodine", Phase::Solid, 17, 5, ElementCategory::Halogen);
    push_element(elements, "Xe", "Xenon", Phase::Gas, 18, 5, ElementCategory::NobleGas);
    assert(rows_of(elements@) =~= rows_of(old(elements)@) + period_5_rows());
}

/// The rows of period 6, atomic numbers 55 to 86.
pub open spec fn period_6_rows() -> Seq<ElementRow> {
    seq![
        ("Cs"@, "Caesium"@, Phase::Solid, 1u8, 6u8, ElementCategory::AlkaliMetal),
        ("Ba"@, "Barium"@, Phase::Solid, 2u8, 6u8, ElementCategory::AlkalineEarthMetal),
        ("La"@, "Lanthanum"@, Phase::Solid, 3u8, 6u8, ElementCategory::Lanthanide),
        ("Ce"@, "Cerium"@, Phase::Solid, 3u8, 6u8, ElementCategory::Lanthanide),
        ("Pr"@, "Praseodymium"@, Phase::Solid, 3u8, 6u8, ElementCategory::Lanthanide),
        ("Nd"@, "Neodymium"@, Phase::Solid, 3u8, 6u8, ElementCategory::Lanthanide),
        ("Pm"@, "Promethium"@, Phase::Solid, 3u8, 6u8, ElementCategory::Lanthanide),
        ("Sm"@, "Samarium"@, Phase::Solid, 3u8, 6u8, ElementCategory::Lanthanide),
        ("Eu"@, "Europium"@, Phase::Solid, 3u8, 6u8, ElementCategory::Lanthanide),
        ("Gd"@, "Gadolinium"@, Phase::Solid, 3u8, 6u8, ElementCategory::Lanthanide),
        ("Tb"@, "Terbium"@, Phase::Solid, 3u8, 6u8, ElementCategory::Lanthanide),
        ("Dy"@, "Dysprosium"@, Phase::Solid, 3u8, 6u8, ElementCategory::Lanthanide),
        ("Ho"@, "Holmium"@, Phase::Solid, 3u8, 6u8, ElementCategory::Lanthanide),
        ("Er"@, "Erbium"@, Phase::Solid, 3u8, 6u8, ElementCategory::Lanthanide),
        ("Tm"@, "Thulium"@, Phase::Solid, 3u8, 6u8, ElementCategory::Lanthanide),
        ("Yb"@, "Ytterbium"@, Phase::Solid, 3u8, 6u8, ElementCategory::Lanthanide),
        ("Lu"@, "Lutetium"@, Phase::Solid, 3u8, 6u8, ElementCategory::Lanthanide),
        ("Hf"@, "Hafnium"@, Phase::Solid, 4u8, 6u8, ElementCategory::TransitionMetal),
        ("Ta"@, "Tantalum"@, Phase::Solid, 5u8, 6u8, ElementCategory::TransitionMetal),
        ("W"@, "Tungsten"@, Phase::Solid, 6u8, 6u8, ElementCategory::TransitionMetal),
        ("Re"@, "Rhenium"@, Phase::Solid, 7u8, 6u8, ElementCategory::TransitionMetal),
        ("Os"@, "Osmium"@, Phase::Solid, 8u8, 6u8, ElementCategory::TransitionMetal),
        ("Ir"@, "Iridium"@, Phase::Solid, 9u8, 6u8, ElementCategory::TransitionMetal),
        ("Pt"@, "Platinum"@, Phase::Solid, 10u8, 6u8, ElementCategory::TransitionMetal),
        ("Au"@, "Gold"@, Phase::Solid, 11u8, 6u8, ElementCategory::TransitionMetal),
        ("Hg"@, "Mercury"@, Phase::Liquid, 12u8, 6u8, ElementCategory::TransitionMetal),
        ("Tl"@, "Thallium"@, Phase::Solid, 13u8, 6u8, ElementCategory::PostTransitionMetal),
        ("Pb"@, "Lead"@, Phase::Solid, 14u8, 6u8, ElementCategory::PostTransitionMetal),
        ("Bi"@, "Bismuth"@, Phase::Solid, 15u8, 6u8, ElementCategory::PostTransitionMetal),
        ("Po"@, "Polonium"@, Phase::Solid, 16u8, 6u8, ElementCategory::PostTransitionMetal),
        ("At"@, "Astatine"@, Phase::Solid, 17u8, 6u8, ElementCategory::Halogen),
        ("Rn"@, "Radon"@, Phase::Gas, 18u8, 6u8, ElementCategory::NobleGas),
    ]
}

/// Appends the elements of period 6, atomic numbers 55 to 86.
fn push_period_6(elements: &mut Vec<ElementProperties>)
    requires
        numbered_by_position(old(elements)@),
        old(elements)@.len() == 54,
    ensures
        numbered_by_position(final(elements)@),
        final(elements)@.len() == 86,
        rows_of(final(elements)@) == rows_of(old(elements)@) + period_6_rows(),
{
    push_element(elements, "Cs", "Caesium", Phase::Solid, 1, 6, ElementCategory::AlkaliMetal);
    push_element(elements, "Ba", "Barium", Phase::Solid, 2, 6, ElementCategory::AlkalineEarthMetal);
    push_element(elements, "La", "Lanthanum", Phase::Solid, 3, 6, ElementCategory::Lanthanide);
    push_element(elements, "Ce", "Cerium", Phase::Solid, 3, 6, ElementCategory::Lanthanide);
    push_element(elements, "Pr", "Praseodymium", Phase::Solid, 3, 6, ElementCategory::Lanthanide);
    push_element(elements, "Nd", "Neodymium", Phase::Solid, 3, 6, ElementCategory::Lanthanide);
    push_element(elements, "Pm", "Promethium", Phase::Solid, 3, 6, ElementCategory::Lanthanide);
    push_element(elements, "Sm", "Samarium", Phase::Solid, 3, 6, ElementCategory::Lanthanide);
    push_element(elements, "Eu", "Europium", Phase::Solid, 3, 6, ElementCategory::Lanthanide);
    push_element(elements, "Gd", "Gadolinium", Phase::Solid, 3, 6, ElementCategory::Lanthanide);
    push_element(elements, "Tb", "Terbium", Phase::Solid, 3, 6, ElementCategory::Lanthanide);
    push_element(elements, "Dy", "Dysprosium", Phase::Solid, 3, 6, ElementCategory::Lanthanide);
    push_element(elements, "Ho", "Holmium", Phase::Solid, 3, 6, ElementCategory::Lanthanide);
    push_element(elements, "Er", "Erbium", Phase::Solid, 3, 6, ElementCategory::Lanthanide);
    push_element(elements, "Tm", "Thulium", Phase::Solid, 3, 6, ElementCategory::Lanthanide);
    push_element(elements, "Yb", "Ytterbium", Phase::Solid, 3, 6, ElementCategory::Lanthanide);
    push_element(elements, "Lu", "Lutetium", Phase::Solid, 3, 6, ElementCategory::Lanthanide);
    push_element(elements, "Hf", "Hafnium", Phase::Solid, 4, 6, ElementCategory::TransitionMetal);
    push_element(elements, "Ta", "Tantalum", Phase::Solid, 5, 6, ElementCategory::TransitionMetal);
    push_element(elements, "W", "Tungsten", Phase::Solid, 6, 6, ElementCategory::TransitionMetal);
    push_element(elements, "Re", "Rhenium", Phase::Solid, 7, 6, ElementCategory::TransitionMetal);
    push_element(elements, "Os", "Osmium", Phase::Solid, 8, 6, ElementCategory::TransitionMetal);
    push_element(elements, "Ir", "Iridium", Phase::Solid, 9, 6, ElementCategory::TransitionMetal);
    push_element(elements, "Pt", "Platinum", Phase::Solid, 10, 6, ElementCategory::TransitionMetal);
    push_element(elements, "Au", "Gold", Phase::Solid, 11, 6, ElementCategory::TransitionMetal);
    push_element(elements, "Hg", "Mercury", Phase::Liquid, 12, 6, ElementCategory::TransitionMetal);
    push_element(elements, "Tl", "Thallium", Phase::Solid, 13, 6, ElementCategory::PostTransitionMetal);
    push_element(elements, "Pb", "Lead", Phase::Solid, 14, 6, ElementCategory::PostTransitionMetal);
    push_element(elements, "Bi", "Bismuth", Phase::Solid, 15, 6, ElementCategory::PostTransitionMetal);
    push_element(elements, "Po", "Polonium", Phase::Solid, 16, 6, ElementCategory::PostTransitionMetal);
    push_element(elements, "At", "Astatine", Phase::Solid, 17, 6, ElementCategory::Halogen);
    push_element(elements, "Rn", "Radon", Phase::Gas, 18, 6, ElementCategory::NobleGas);
    assert(rows_of(elements@) =~= rows_of(old(elements)@) + period_6_rows());
}

/// The rows of period 7, atomic numbers 87 to 118.
pub open spec fn period_7_rows() -> Seq<ElementRow> {
    seq![
        ("Fr"@, "Francium"@, Phase::Solid, 1u8, 7u8, ElementCategory::AlkaliMetal),
        ("Ra"@, "Radium"@, Phase::Solid, 2u8, 7u8, ElementCategory::AlkalineEarthMetal),
        ("Ac"@, "Actinium"@, Phase::Solid, 3u8, 7u8, ElementCategory::Actinide),
        ("Th"@, "Thorium"@, Phase::Solid, 3u8, 7u8, ElementCategory::Actinide),
        ("Pa"@, "Protactinium"@, Phase::Solid, 3u8, 7u8, ElementCategory::Actinide),
        ("U"@, "Uranium"@, Phase::Solid, 3u8, 7u8, ElementCategory::Actinide),
        ("Np"@, "Neptunium"@, Phase::Solid, 3u8, 7u8, ElementCategory::Actinide),
        ("Pu"@, "Plutonium"@, Phase::Solid, 3u8, 7u8, ElementCategory::Actinide),
        ("Am"@, "Americium"@, Phase::Solid, 3u8, 7u8, ElementCategory::Actinide),
        ("Cm"@, "Curium"@, Phase::Solid, 3u8, 7u8, ElementCategory::Actinide),
        ("Bk"@, "Berkelium"@, Phase::Solid, 3u8, 7u8, ElementCategory::Actinide),
        ("Cf"@, "Californium"@, Phase::Solid, 3u8, 7u8, ElementCategory::Actinide),
        ("Es"@, "Einsteinium"@, Phase::Solid, 3u8, 7u8, ElementCategory::Actinide),
        ("Fm"@, "Fermium"@, Phase::Solid, 3u8, 7u8, ElementCategory::Actinide),
        ("Md"@, "Mendelevium"@, Phase::Solid, 3u8, 7u8, ElementCategory::Actinide),
        ("No"@, "Nobelium"@, Phase::Solid, 3u8, 7u8, ElementCategory::Actinide),
        ("Lr"@, "Lawrencium"@, Phase::Solid, 3u8, 7u8, ElementCategory::Actinide),
        ("Rf"@, "Rutherfordium"@, Phase::Unknown, 4u8, 7u8, ElementCategory::TransitionMetal),
        ("Db"@, "Dubnium"@, Phase::Unknown, 5u8, 7u8, ElementCategory::TransitionMetal),
        ("Sg"@, "Seaborgium"@, Phase::Unknown, 6u8, 7u8, ElementCategory::TransitionMetal),
        ("Bh"@, "Bohrium"@, Phase::Unknown, 7u8, 7u8, ElementCategory::TransitionMetal),
        ("Hs"@, "Hassium"@, Phase::Unknown, 8u8, 7u8, ElementCategory::TransitionMetal),
        ("Mt"@, "Meitnerium"@, Phase::Unknown, 9u8, 7u8, ElementCategory::Unknown),
        ("Ds"@, "Darmstadtium"@, Phase::Unknown, 10u8, 7u8, ElementCategory::Unknown),
        ("Rg"@, "Roentgenium"@, Phase::Unknown, 11u8, 7u8, ElementCategory::Unknown),
        ("Cn"@, "Copernicium"@, Phase::Unknown, 12u8, 7u8, ElementCategory::TransitionMetal),
        ("Nh"@, "Nihonium"@, Phase::Unknown, 13u8, 7u8, ElementCategory::Unknown),
        ("Fl"@, "Flerovium"@, Phase::Unknown, 14u8, 7u8, ElementCategory::Unknown),
        ("Mc"@, "Moscovium"@, Phase::Unknown, 15u8, 7u8, ElementCategory::Unknown),
        ("Lv"@, "Livermorium"@, Phase::Unknown, 16u8, 7u8, ElementCategory::Unknown),
        ("Ts"@, "Tennessine"@, Phase::Unknown, 17u8, 7u8, ElementCategory::Unknown),
        ("Og"@, "Oganesson"@, Phase::Unknown, 18u8, 7u8, ElementCategory::NobleGas),
    ]
}

/// Appends the elements of period 7, atomic numbers 87 to 118.
fn push_period_7(elements: &mut Vec<ElementProperties>)
    requires
        numbered_by_position(old(elements)@),
        old(elements)@.len() == 86,
    ensures
        numbered_by_position(final(elements)@),
        final(elements)@.len() == 118,
        rows_of(final(elements)@) == rows_of(old(elements)@) + period_7_rows(),
{
    push_element(elements, "Fr", "Francium", Phase::Solid, 1, 7, ElementCategory::AlkaliMetal);
    push_element(elements, "Ra", "Radium", Phase::Solid, 2, 7, ElementCategory::AlkalineEarthMetal);
    push_element(elements, "Ac", "Actinium", Phase::Solid, 3, 7, ElementCategory::Actinide);
    push_element(elements, "Th", "Thorium", Phase::Solid, 3, 7, ElementCategory::Actinide);
    push_element(elements, "Pa", "Protactinium", Phase::Solid, 3, 7, ElementCategory::Actinide);
    push_element(elements, "U", "Uranium", Phase::Solid, 3, 7, ElementCategory::Actinide);
    push_element(elements, "Np", "Neptunium", Phase::Solid, 3, 7, ElementCategory::Actinide);
    push_element(elements, "Pu", "Plutonium", Phase::Solid, 3, 7, ElementCategory::Actinide);
    push_element(elements, "Am", "Americium", Phase::Solid, 3, 7, ElementCategory::Actinide);
    push_element(elements, "Cm", "Curium", Phase::Solid, 3, 7, ElementCategory::Actinide);
    push_element(elements, "Bk", "Berkelium", Phase::Solid, 3, 7, ElementCategory::Actinide);
    push_element(elements, "Cf", "Californium", Phase::Solid, 3, 7, ElementCategory::Actinide);
    push_element(elements, "Es", "Einsteinium", Phase::Solid, 3, 7, ElementCategory::Actinide);
    push_element(elements, "Fm", "Fermium", Phase::Solid, 3, 7, ElementCategory::Actinide);
    push_element(elements, "Md", "Mendelevium", Phase::Solid, 3, 7, ElementCategory::Actinide);
    push_element(elements, "No", "Nobelium", Phase::Solid, 3, 7, ElementCategory::Actinide);
    push_element(elements, "Lr", "Lawrencium", Phase::Solid, 3, 7, ElementCategory::Actinide);
    push_element(elements, "Rf", "Rutherfordium", Phase::Unknown, 4, 7, ElementCategory::TransitionMetal);
    push_element(elements, "Db", "Dubnium", Phase::Unknown, 5, 7, ElementCategory::TransitionMetal);
    push_element(elements, "Sg", "Seaborgium", Phase::Unknown, 6, 7, ElementCategory::TransitionMetal);
    push_element(elements, "Bh", "Bohrium", Phase::Unknown, 7, 7, ElementCategory::TransitionMetal);
    push_element(elements, "Hs", "Hassium", Phase::Unknown, 8, 7, ElementCategory::TransitionMetal);
    push_element(elements, "Mt", "Meitnerium", Phase::Unknown, 9, 7, ElementCategory::Unknown);
    push_element(elements, "Ds", "Darmstadtium", Phase::Unknown, 10, 7, ElementCategory::Unknown);
    push_element(elements, "Rg", "Roentgenium", Phase::Unknown, 11, 7, ElementCategory::Unknown);
    push_element(elements, "Cn", "Copernicium", Phase::Unknown, 12, 7, ElementCategory::TransitionMetal);
    push_element(elements, "Nh", "Nihonium", Phase::Unknown, 13, 7, ElementCategory::Unknown);
    push_element(elements, "Fl", "Flerovium", Phase::Unknown, 14, 7, ElementCategory::Unknown);
    push_element(elements, "Mc", "Moscovium", Phase::Unknown, 15, 7, ElementCategory::Unknown);
    push_element(elements, "Lv", "Livermorium", Phase::Unknown, 16, 7, ElementCategory::Unknown);
    push_element(elements, "Ts", "Tennessine", Phase::Unknown, 17, 7, ElementCategory::Unknown);
    push_element(elements, "Og", "Oganesson", Phase::Unknown, 18, 7, ElementCategory::NobleGas);
    assert(rows_of(elements@) =~= rows_of(old(elements)@) + period_7_rows());
}

/// The rows of all 118 elements, by atomic number.
pub open spec fn standard_rows() -> Seq<ElementRow> {
    period_1_rows() + period_2_rows() + period_3_rows() + period_4_rows() + period_5_rows() + period_6_rows()
        + period_7_rows()
}

/// The elements that are gases at standard temperature and pressure, by
/// atomic number: hydrogen, nitrogen, oxygen, fluorine, chlorine and the
/// noble gases from helium to radon.
pub open spec fn gaseous_at_stp(n: int) -> bool {
    n == 1 || n == 2 || n == 7 || n == 8 || n == 9 || n == 10 || n == 17 || n == 18 || n == 36 || n == 54
        || n == 86
}

/// The period of the element numbered `n`: the rows of the table end at
/// the noble gases 2, 10, 18, 36, 54, 86 and 118.
pub open spec fn period_of(n: int) -> int {
    if n <= 2 {
        1
    } else if n <= 10 {
        2
    } else if n <= 18 {
        3
    } else if n <= 36 {
        4
    } else if n <= 54 {
        5
    } else if n <= 86 {
        6
    } else {
        7
    }
}

/// Whether the row of the element numbered `n` agrees with the reference
/// facts: its phase, its period, and how its category and group go
/// together.
pub open spec fn row_agrees(row: ElementRow, n: int) -> bool {
    &&& (row.2 == Phase::Gas) == gaseous_at_stp(n)
    &&& (row.2 == Phase::Liquid) == (n == 35 || n == 80)
    &&& (row.2 == Phase::Unknown) == (n >= 104)
    &&& row.4 == period_of(n)
    &&& (row.5 == ElementCategory::NobleGas) == (row.3 == 18)
    &&& (row.5 == ElementCategory::Halogen) == (row.3 == 17 && n <= 85)
    &&& (row.5 == ElementCategory::AlkaliMetal) == (row.3 == 1 && n != 1)
    &&& (row.5 == ElementCategory::AlkalineEarthMetal) == (row.3 == 2)
    &&& (row.5 == ElementCategory::Lanthanide) == (57 <= n <= 71)
    &&& (row.5 == ElementCategory::Actinide) == (89 <= n <= 103)
}

/// The rows of period 1 agree with the reference facts.
proof fn lemma_period_1_agrees()
    ensures
        period_1_rows().len() == 2,
        forall|j: int| 0 <= j < 2 ==> row_agrees(#[trigger] period_1_rows()[j], j + 1),
{
    assert(row_agrees(period_1_rows()[0], 1));
    assert(row_agrees(period_1_rows()[1], 2));
    assert forall|j: int| 0 <= j < 2 implies row_agrees(#[trigger] period_1_rows()[j], j + 1) by {
        assert(j == 0 || j == 1);
    }
}

/// The rows of period 2 agree with the reference facts.
proof fn lemma_period_2_agrees()
    ensures
        period_2_rows().len() == 8,
        forall|j: int| 0 <= j < 8 ==> row_agrees(#[trigger] period_2_rows()[j], j + 3),
{
    assert(row_agrees(period_2_rows()[0], 3));
    assert(row_agrees(period_2_rows()[1], 4));
    assert(row_agrees(period_2_rows()[2], 5));
    assert(row_agrees(period_2_rows()[3], 6));
    assert(row_agrees(period_2_rows()[4], 7));
    assert(row_agrees(period_2_rows()[5], 8));
    assert(row_agrees(period_2_rows()[6], 9));
    assert(row_agrees(period_2_rows()[7], 10));
    assert forall|j: int| 0 <= j < 8 implies row_agrees(#[trigger] period_2_rows()[j], j + 3) by {
        assert(j == 0 || j == 1 || j == 2 || j == 3 || j == 4 || j == 5 || j == 6 || j == 7);
    }
}

/// The rows of period 3 agree with the reference facts.
proof fn lemma_period_3_agrees()
    ensures
        period_3_rows().len() == 8,
        forall|j: int| 0 <= j < 8 ==> row_agrees(#[trigger] period_3_rows()[j], j + 11),
{
    assert(row_agrees(period_3_rows()[0], 11));
    assert(row_agrees(period_3_rows()[1], 12));
    assert(row_agrees(period_3_rows()[2], 13));
    assert(row_agrees(period_3_rows()[3], 14));
    assert(row_agrees(period_3_rows()[4], 15));
    assert(row_agrees(period_3_rows()[5], 16));
    assert(row_agrees(period_3_rows()[6], 17));
    assert(row_agrees(period_3_rows()[7], 18));
    assert forall|j: int| 0 <= j < 8 implies row_agrees(#[trigger] period_3_rows()[j], j + 11) by {
        assert(j == 0 || j == 1 || j == 2 || j == 3 || j == 4 || j == 5 || j == 6 || j == 7);
    }
}

/// The rows of period 4 agree with the reference facts.
proof fn lemma_period_4_agrees()
    ensures
        period_4_rows().len() == 18,
        forall|j: int| 0 <= j < 18 ==> row_agrees(#[trigger] period_4_rows()[j], j + 19),
{
    assert(row_agrees(period_4_rows()[0], 19));
    assert(row_agrees(period_4_rows()[1], 20));
    assert(row_agrees(period_4_rows()[2], 21));
    assert(row_agrees(period_4_rows()[3], 22));
    assert(row_agrees(period_4_rows()[4], 23));
    assert(row_agrees(period_4_rows()[5], 24));
    assert(row_agrees(period_4_rows()[6], 25));
    assert(row_agrees(period_4_rows()[7], 26));
    assert(row_agrees(period_4_rows()[8], 27));
    assert(row_agrees(period_4_rows()[9], 28));
    assert(row_agrees(period_4_rows()[10], 29));
    assert(row_agrees(period_4_rows()[11], 30));
    assert(row_agrees(period_4_rows()[12], 31));
    assert(row_agrees(period_4_rows()[13], 32));
    assert(row_agrees(period_4_rows()[14], 33));
    assert(row_agrees(period_4_rows()[15], 34));
    assert(row_agrees(period_4_rows()[16], 35));
    assert(row_agrees(period_4_rows()[17], 36));
    assert forall|j: int| 0 <= j < 18 implies row_agrees(#[trigger] period_4_rows()[j], j + 19) by {
        assert(j == 0 || j == 1 || j == 2 || j == 3 || j == 4 || j == 5 || j == 6 || j == 7 || j == 8 || j == 9 || j == 10 || j == 11 || j == 12 || j == 13 || j == 14 || j == 15 || j == 16 || j == 17);
    }
}

/// The rows of period 5 agree with the reference facts.
proof fn lemma_period_5_agrees()
    ensures
        period_5_rows().len() == 18,
        forall|j: int| 0 <= j < 18 ==> row_agrees(#[trigger] period_5_rows()[j], j + 37),
{
    assert(row_agrees(period_5_rows()[0], 37));
    assert(row_agrees(period_5_rows()[1], 38));
    assert(row_agrees(period_5_rows()[2], 39));
    assert(row_agrees(period_5_rows()[3], 40));
    assert(row_agrees(period_5_rows()[4], 41));
    assert(row_agrees(period_5_rows()[5], 42));
    assert(row_agrees(period_5_rows()[6], 43));
    assert(row_agrees(period_5_rows()[7], 44));
    assert(row_agrees(period_5_rows()[8], 45));
    assert(row_agrees(period_5_rows()[9], 46));
    assert(row_agrees(period_5_rows()[10], 47));
    assert(row_agrees(period_5_rows()[11], 48));
    assert(row_agrees(period_5_rows()[12], 49));
    assert(row_agrees(period_5_rows()[13], 50));
    assert(row_agrees(period_5_rows()[14], 51));
    assert(row_agrees(period_5_rows()[15], 52));
    assert(row_agrees(period_5_rows()[16], 53));
    assert(row_agrees(period_5_rows()[17], 54));
    assert forall|j: int| 0 <= j < 18 implies row_agrees(#[trigger] period_5_rows()[j], j + 37) by {
        assert(j == 0 || j == 1 || j == 2 || j == 3 || j == 4 || j == 5 || j == 6 || j == 7 || j == 8 || j == 9 || j == 10 || j == 11 || j == 12 || j == 13 || j == 14 || j == 15 || j == 16 || j == 17);
    }
}

/// The rows of period 6 agree with the reference facts.
proof fn lemma_period_6_agrees()
    ensures
        period_6_rows().len() == 32,
        forall|j: int| 0 <= j < 32 ==> row_agrees(#[trigger] period_6_rows()[j], j + 55),
{
    assert(row_agrees(period_6_rows()[0], 55));
    assert(row_agrees(period_6_rows()[1], 56));
    assert(row_agrees(period_6_rows()[2], 57));
    assert(row_agrees(period_6_rows()[3], 58));
    assert(row_agrees(period_6_rows()[4], 59));
    assert(row_agrees(period_6_rows()[5], 60));
    assert(row_agrees(period_6_rows()[6], 61));
    assert(row_agrees(period_6_rows()[7], 62));
    assert(row_agrees(period_6_rows()[8], 63));
    assert(row_agrees(period_6_rows()[9], 64));
    assert(row_agrees(period_6_rows()[10], 65));
    assert(row_agrees(period_6_rows()[11], 66));
    assert(row_agrees(period_6_rows()[12], 67));
    assert(row_agrees(period_6_rows()[13], 68));
    assert(row_agrees(period_6_rows()[14], 69));
    assert(row_agrees(period_6_rows()[15], 70));
    assert(row_agrees(period_6_rows()[16], 71));
    assert(row_agrees(period_6_rows()[17], 72));
    assert(row_agrees(period_6_rows()[18], 73));
    assert(row_agrees(period_6_rows()[19], 74));
    assert(row_agrees(period_6_rows()[20], 75));
    assert(row_agrees(period_6_rows()[21], 76));
    assert(row_agrees(period_6_rows()[22], 77));
    assert(row_agrees(period_6_rows()[23], 78));
    assert(row_agrees(period_6_rows()[24], 79));
    assert(row_agrees(period_6_rows()[25], 80));
    assert(row_agrees(period_6_rows()[26], 81));
    assert(row_agrees(period_6_rows()[27], 82));
    assert(row_agrees(period_6_rows()[28], 83));
    assert(row_agrees(period_6_rows()[29], 84));
    assert(row_agrees(period_6_rows()[30], 85));
    assert(row_agrees(period_6_rows()[31], 86));
    assert forall|j: int| 0 <= j < 32 implies row_agrees(#[trigger] period_6_rows()[j], j + 55) by {
        assert(j == 0 || j == 1 || j == 2 || j == 3 || j == 4 || j == 5 || j == 6 || j == 7 || j == 8 || j == 9 || j == 10 || j == 11 || j == 12 || j == 13 || j == 14 || j == 15 || j == 16 || j == 17 || j == 18 || j == 19 || j == 20 || j == 21 || j == 22 || j == 23 || j == 24 || j == 25 || j == 26 || j == 27 || j == 28 || j == 29 || j == 30 || j == 31);
    }
}

/// The rows of period 7 agree with the reference facts.
proof fn lemma_period_7_agrees()
    ensures
        period_7_rows().len() == 32,
        forall|j: int| 0 <= j < 32 ==> row_agrees(#[trigger] period_7_rows()[j], j + 87),
{
    assert(row_agrees(period_7_rows()[0], 87));
    assert(row_agrees(period_7_rows()[1], 88));
    assert(row_agrees(period_7_rows()[2], 89));
    assert(row_agrees(period_7_rows()[3], 90));
    assert(row_agrees(period_7_rows()[4], 91));
    assert(row_agrees(period_7_rows()[5], 92));
    assert(row_agrees(period_7_rows()[6], 93));
    assert(row_agrees(period_7_rows()[7], 94));
    assert(row_agrees(period_7_rows()[8], 95));
    assert(row_agrees(period_7_rows()[9], 96));
    assert(row_agrees(period_7_rows()[10], 97));
    assert(row_agrees(period_7_rows()[11], 98));
    assert(row_agrees(period_7_rows()[12], 99));
    assert(row_agrees(period_7_rows()[13], 100));
    assert(row_agrees(period_7_rows()[14], 101));
    assert(row_agrees(period_7_rows()[15], 102));
    assert(row_agrees(period_7_rows()[16], 103));
    assert(row_agrees(period_7_rows()[17], 104));
    assert(row_agrees(period_7_rows()[18], 105));
    assert(row_agrees(period_7_rows()[19], 106));
    assert(row_agrees(period_7_rows()[20], 107));
    assert(row_agrees(period_7_rows()[21], 108));
    assert(row_agrees(period_7_rows()[22], 109));
    assert(row_agrees(period_7_rows()[23], 110));
    assert(row_agrees(period_7_rows()[24], 111));
    assert(row_agrees(period_7_rows()[25], 112));
    assert(row_agrees(period_7_rows()[26], 113));
    assert(row_agrees(period_7_rows()[27], 114));
    assert(row_agrees(period_7_rows()[28], 115));
    assert(row_agrees(period_7_rows()[29], 116));
    assert(row_agrees(period_7_rows()[30], 117));
    assert(row_agrees(period_7_rows()[31], 118));
    assert forall|j: int| 0 <= j < 32 implies row_agrees(#[trigger] period_7_rows()[j], j + 87) by {
        assert(j == 0 || j == 1 || j == 2 || j == 3 || j == 4 || j == 5 || j == 6 || j == 7 || j == 8 || j == 9 || j == 10 || j == 11 || j == 12 || j == 13 || j == 14 || j == 15 || j == 16 || j == 17 || j == 18 || j == 19 || j == 20 || j == 21 || j == 22 || j == 23 || j == 24 || j == 25 || j == 26 || j == 27 || j == 28 || j == 29 || j == 30 || j == 31);
    }
}

/// The table agrees with the reference facts of chemistry: exactly
/// hydrogen, nitrogen, oxygen, fluorine, chlorine and the noble gases up
/// to radon are gases at standard conditions, exactly bromine and mercury
/// are liquids, and the phase of the superheavy elements from 104 on is
/// unknown; each element lies in the period its number gives; the noble
/// gases are exactly group 18, the halogens group 17 up to astatine (the
/// category of tennessine is unknown), the alkali metals
/// group 1 without hydrogen, the alkaline earth metals group 2, and the
/// lanthanides and actinides are the elements 57 to 71 and 89 to 103.
pub proof fn law_table_agrees_with_reference_facts()
    ensures
        standard_rows().len() == 118,
        forall|i: int| 0 <= i < 118 ==> row_agrees(#[trigger] standard_rows()[i], i + 1),
{
    lemma_period_1_agrees();
    lemma_period_2_agrees();
    lemma_period_3_agrees();
    lemma_period_4_agrees();
    lemma_period_5_agrees();
    lemma_period_6_agrees();
    lemma_period_7_agrees();
    let rows = standard_rows();
    assert forall|i: int| 0 <= i < 118 implies row_agrees(#[trigger] standard_rows()[i], i + 1) by {
        if i < 2 {
            assert(standard_rows()[i] == period_1_rows()[i - 0]);
            assert(row_agrees(period_1_rows()[i - 0], i - 0 + 1));
        } else if i < 10 {
            assert(standard_rows()[i] == period_2_rows()[i - 2]);
            assert(row_agrees(period_2_rows()[i - 2], i - 2 + 3));
        } else if i < 18 {
            assert(standard_rows()[i] == period_3_rows()[i - 10]);
            assert(row_agrees(period_3_rows()[i - 10], i - 10 + 11));
        } else if i < 36 {
            assert(standard_rows()[i] == period_4_rows()[i - 18]);
            assert(row_agrees(period_4_rows()[i - 18], i - 18 + 19));
        } else if i < 54 {
            assert(standard_rows()[i] == period_5_rows()[i - 36]);
            assert(row_agrees(period_5_rows()[i - 36], i - 36 + 37));
        } else if i < 86 {
            assert(standard_rows()[i] == period_6_rows()[i - 54]);
            assert(row_agrees(period_6_rows()[i - 54], i - 54 + 55));
        } else {
            assert(standard_rows()[i] == period_7_rows()[i - 86]);
            assert(row_agrees(period_7_rows()[i - 86], i - 86 + 87));
        }
    }
}

/// The periodic table of all 118 elements, listed by atomic number.
pub struct PeriodicTable {
    elements: Vec<ElementProperties>,
}

impl PeriodicTable {
    /// The elements, in table order.
    pub closed spec fn elements(&self) -> Seq<ElementProperties> {
        self.elements@
    }

    /// The element at position `i` has atomic number `i + 1`.
    pub closed spec fn wf(&self) -> bool {
        &&& numbered_by_position(self.elements@)
        &&& self.elements@.len() < 256
    }

    /// The table of all 118 elements.
    pub fn new() -> (r: Self)
        ensures
            r.wf(),
            r.elements().len() == 118,
            rows_of(r.elements()) == standard_rows(),
    {
        let mut elements: Vec<ElementProperties> = Vec::new();
        assert(rows_of(elements@) =~= Seq::<ElementRow>::empty());
        push_period_1(&mut elements);
        assert(rows_of(elements@) =~= period_1_rows());
        push_period_2(&mut elements);
        push_period_3(&mut elements);
        push_period_4(&mut elements);
        push_period_5(&mut elements);
        push_period_6(&mut elements);
        push_period_7(&mut elements);
        PeriodicTable { elements }
    }

    /// Looks an element up by its atomic number: `None` for 0 and for
    /// numbers past the end of the table.
    pub fn get(&self, id: ElementId) -> (r: Option<&ElementProperties>)
        ensures
            r == (if 1 <= id.0 <= self.elements().len() {
                Some(&self.elements()[id.0 - 1])
            } else {
                None
            }),
            self.wf() ==> (r matches Some(e) ==> e.atomic_number == id.0),
    {
        if id.0 == 0 {
            return None;
        }
        let index = (id.0 - 1) as usize;
        if index < self.elements.len() {
            Some(&self.elements[index])
        } else {
            None
        }
    }

    /// Looks an element up by its chemical symbol (case-sensitive): the
    /// first element in the table with that symbol, if any.
    pub fn by_symbol(&self, symbol: &str) -> (r: Option<&ElementProperties>)
        ensures
            match r {
                Some(e) => exists|i: int|
                    0 <= i < self.elements().len() && #[trigger] self.elements()[i] == *e
                        && e.symbol@ == symbol@
                        && forall|j: int| 0 <= j < i ==> (#[trigger] self.elements()[j]).symbol@ != symbol@,
                None => forall|i: int|
                    0 <= i < self.elements().len() ==> (#[trigger] self.elements()[i]).symbol@ != symbol@,
            },
    {
        let wanted = symbol.to_owned();
        let mut i: usize = 0;
        while i < self.elements.len()
            invariant
                i <= self.elements@.len(),
                wanted@ == symbol@,
                forall|j: int| 0 <= j < i ==> (#[trigger] self.elements@[j]).symbol@ != symbol@,
            decreases self.elements@.len() - i,
        {
            if self.elements[i].symbol.to_owned() == wanted {
                assert(self.elements()[i as int] == self.elements@[i as int]);
                return Some(&self.elements[i]);
            }
            i = i + 1;
        }
        None
    }

    /// The number of elements in the table.
    pub fn len(&self) -> (r: usize)
        ensures
            r == self.elements().len(),
    {
        self.elements.len()
    }

    /// Whether the table lists no element.
    pub fn is_empty(&self) -> (r: bool)
        ensures
            r == (self.elements().len() == 0),
    {
        self.elements.len() == 0
    }
}

/// Every element of a well-formed table is found again by its own atomic
/// number: looking up the number of the element at any position gives
/// that element back.
pub proof fn law_element_found_by_its_number(table: &PeriodicTable, i: int)
    requires
        table.wf(),
        0 <= i < table.elements().len(),
    ensures
        1 <= table.elements()[i].atomic_number <= table.elements().len(),
        table.elements()[table.elements()[i].atomic_number - 1] == table.elements()[i],
{
    assert(table.elements@[i].atomic_number == i + 1);
}

impl Default for PeriodicTable {
    fn default() -> (r: Self)
        ensures
            r.wf(),
            r.elements().len() == 118,
            rows_of(r.elements()) == standard_rows(),
    {
        Self::new()
    }
}

} // verus!
