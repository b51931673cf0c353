//! Matching reaction rules against the reactants at hand.

use vstd::prelude::*;

verus! {

/// The texts of a list of strings.
pub open spec fn texts(list: Seq<String>) -> Seq<Seq<char>> {
    Seq::new(list.len(), |k: int| list[k]@)
}

/// A rule with reactant list `reactants` matches when every one of
/// `wanted` appears in that list.
pub open spec fn covers(reactants: Seq<String>, wanted: Seq<&str>) -> bool {
    forall|j: int| 0 <= j < wanted.len() ==> #[trigger] texts(reactants).contains(wanted[j]@)
}

/// `reactants` holds a string equal to `wanted`.
fn lists(reactants: &Vec<String>, wanted: &String) -> (r: bool)
    ensures
        r == texts(reactants@).contains(wanted@),
{
    let mut k: usize = 0;
    while k < reactants.len()
        invariant
            k <= reactants@.len(),
            forall|i: int| 0 <= i < k ==> reactants@[i]@ != wanted@,
        decreases reactants@.len() - k,
    {
        if reactants[k] == *wanted {
            assert(texts(reactants@)[k as int] == wanted@);
            return true;
        }
        k = k + 1;
    }
    proof {
        if texts(reactants@).contains(wanted@) {
            let i = choose|i: int| 0 <= i < texts(reactants@).len() && texts(reactants@)[i] == wanted@;
            assert(reactants@[i]@ == wanted@);
        }
    }
    false
}

/// Every one of `wanted` appears in `reactants`.
pub fn reactants_cover(reactants: &Vec<String>, wanted: &[&str]) -> (r: bool)
    ensures
        r == covers(reactants@, wanted@),
{
    let mut j: usize = 0;
    while j < wanted.len()
        invariant
            j <= wanted@.len(),
            forall|i: int| 0 <= i < j ==> #[trigger] texts(reactants@).contains(wanted@[i]@),
        decreases wanted@.len() - j,
    {
        let w = wanted[j].to_owned();
        if !lists(reactants, &w) {
            return false;
        }
        j = j + 1;
    }
    true
}

/// The positions, in increasing order, of the rules (given by their
/// reactant lists) that every one of `wanted` matches.
pub fn matching_rules(rules: &Vec<Vec<String>>, wanted: &[&str]) -> (r: Vec<usize>)
    ensures
        forall|k: int| 0 <= k < r@.len() ==> #[trigger] r@[k] < rules@.len() && covers(rules@[r@[k] as int]@, wanted@),
        forall|a: int, b: int| 0 <= a < b < r@.len() ==> r@[a] < r@[b],
        forall|i: int| 0 <= i < rules@.len() && covers(#[trigger] rules@[i]@, wanted@) ==> r@.contains(i as usize),
{
    let mut r: Vec<usize> = Vec::new();
    let mut i: usize = 0;
    while i < rules.len()
        invariant
            i <= rules@.len(),
            forall|k: int| 0 <= k < r@.len() ==> #[trigger] r@[k] < i && covers(rules@[r@[k] as int]@, wanted@),
            forall|a: int, b: int| 0 <= a < b < r@.len() ==> r@[a] < r@[b],
            forall|x: int| 0 <= x < i && covers(#[trigger] rules@[x]@, wanted@) ==> r@.contains(x as usize),
        decreases rules@.len() - i,
    {
        if reactants_cover(&rules[i], wanted) {
            let ghost before = r@;
            r.push(i);
            proof {
                assert forall|x: int| 0 <= x < i + 1 && covers(#[trigger] rules@[x]@, wanted@) implies r@.contains(x as usize) by {
                    if x == i as int {
                        assert(r@[before.len() as int] == i);
                    } else {
                        assert(before.contains(x as usize));
                        let k = choose|k: int| 0 <= k < before.len() && before[k] == x as usize;
                        assert(r@[k] == x as usize);
                    }
                }
            }
        }
        i = i + 1;
    }
    r
}

/// An upper-case Latin letter: the first letter of an element symbol.
pub open spec fn is_upper(c: char) -> bool {
    'A' <= c && c <= 'Z'
}

/// A lower-case Latin letter: the second letter of a two-letter symbol.
pub open spec fn is_lower(c: char) -> bool {
    'a' <= c && c <= 'z'
}

/// The element symbols a chemical formula names: each upper-case letter,
/// with the lower-case letter that follows it if there is one; digits
/// (counts) name no element.
pub open spec fn element_symbols(formula: Seq<char>) -> Set<Seq<char>>
    decreases formula.len(),
{
    if formula.len() == 0 {
        Set::empty()
    } else if is_upper(formula[0]) && formula.len() >= 2 && is_lower(formula[1]) {
        element_symbols(formula.skip(2)).insert(formula.take(2))
    } else if is_upper(formula[0]) {
        element_symbols(formula.skip(1)).insert(formula.take(1))
    } else {
        element_symbols(formula.skip(1))
    }
}

/// The element symbols named by any formula of a list.
pub open spec fn elements_of(formulas: Seq<Seq<char>>) -> Set<Seq<char>>
    decreases formulas.len(),
{
    if formulas.len() == 0 {
        Set::empty()
    } else {
        elements_of(formulas.drop_last()).union(element_symbols(formulas.last()))
    }
}

/// The elements of H2.
proof fn lemma_elements_h2()
    ensures
        element_symbols("H2"@) == Set::<Seq<char>>::empty().insert("H"@),
{
    reveal_strlit("H");
    reveal_strlit("H2");
    assert("H"@ =~= seq!['H']);
    assert("H2"@ =~= seq!['H', '2']);
    assert(element_symbols(Seq::<char>::empty()) =~= Set::<Seq<char>>::empty());
    assert(seq!['2'].skip(1) =~= Seq::<char>::empty());
    assert(element_symbols(seq!['2']) =~= Set::<Seq<char>>::empty());
    assert(seq!['H', '2'].skip(1) =~= seq!['2']);
    assert(seq!['H', '2'].take(1) =~= seq!['H']);
    assert(element_symbols(seq!['H', '2']) =~= Set::<Seq<char>>::empty().insert(seq!['H']));
}

/// The elements of O2.
proof fn lemma_elements_o2()
    ensures
        element_symbols("O2"@) == Set::<Seq<char>>::empty().insert("O"@),
{
    reveal_strlit("O");
    reveal_strlit("O2");
    assert("O"@ =~= seq!['O']);
    assert("O2"@ =~= seq!['O', '2']);
    assert(element_symbols(Seq::<char>::empty()) =~= Set::<Seq<char>>::empty());
    assert(seq!['2'].skip(1) =~= Seq::<char>::empty());
    assert(element_symbols(seq!['2']) =~= Set::<Seq<char>>::empty());
    assert(seq!['O', '2'].skip(1) =~= seq!['2']);
    assert(seq!['O', '2'].take(1) =~= seq!['O']);
    assert(element_symbols(seq!['O', '2']) =~= Set::<Seq<char>>::empty().insert(seq!['O']));
}

/// The elements of H2O.
proof fn lemma_elements_h2o()
    ensures
        element_symbols("H2O"@) == Set::<Seq<char>>::empty().insert("H"@).insert("O"@),
{
    reveal_strlit("H");
    reveal_strlit("H2O");
    reveal_strlit("O");
    assert("H"@ =~= seq!['H']);
    assert("H2O"@ =~= seq!['H', '2', 'O']);
    assert("O"@ =~= seq!['O']);
    assert(element_symbols(Seq::<char>::empty()) =~= Set::<Seq<char>>::empty());
    assert(seq!['O'].skip(1) =~= Seq::<char>::empty());
    assert(seq!['O'].take(1) =~= seq!['O']);
    assert(element_symbols(seq!['O']) =~= Set::<Seq<char>>::empty().insert(seq!['O']));
    assert(seq!['2', 'O'].skip(1) =~= seq!['O']);
    assert(element_symbols(seq!['2', 'O']) =~= Set::<Seq<char>>::empty().insert(seq!['O']));
    assert(seq!['H', '2', 'O'].skip(1) =~= seq!['2', 'O']);
    assert(seq!['H', '2', 'O'].take(1) =~= seq!['H']);
    assert(element_symbols(seq!['H', '2', 'O']) =~= Set::<Seq<char>>::empty().insert(seq!['H']).insert(seq!['O']));
}

/// The elements of CH4.
proof fn lemma_elements_ch4()
    ensures
        element_symbols("CH4"@) == Set::<Seq<char>>::empty().insert("C"@).insert("H"@),
{
    reveal_strlit("C");
    reveal_strlit("CH4");
    reveal_strlit("H");
    assert("C"@ =~= seq!['C']);
    assert("CH4"@ =~= seq!['C', 'H', '4']);
    assert("H"@ =~= seq!['H']);
    assert(element_symbols(Seq::<char>::empty()) =~= Set::<Seq<char>>::empty());
    assert(seq!['4'].skip(1) =~= Seq::<char>::empty());
    assert(element_symbols(seq!['4']) =~= Set::<Seq<char>>::empty());
    assert(seq!['H', '4'].skip(1) =~= seq!['4']);
    assert(seq!['H', '4'].take(1) =~= seq!['H']);
    assert(element_symbols(seq!['H', '4']) =~= Set::<Seq<char>>::empty().insert(seq!['H']));
    assert(seq!['C', 'H', '4'].skip(1) =~= seq!['H', '4']);
    assert(seq!['C', 'H', '4'].take(1) =~= seq!['C']);
    assert(element_symbols(seq!['C', 'H', '4']) =~= Set::<Seq<char>>::empty().insert(seq!['C']).insert(seq!['H']));
}

/// The elements of CO2.
proof fn lemma_elements_co2()
    ensures
        element_symbols("CO2"@) == Set::<Seq<char>>::empty().insert("C"@).insert("O"@),
{
    reveal_strlit("C");
    reveal_strlit("CO2");
    reveal_strlit("O");
    assert("C"@ =~= seq!['C']);
    assert("CO2"@ =~= seq!['C', 'O', '2']);
    assert("O"@ =~= seq!['O']);
    assert(element_symbols(Seq::<char>::empty()) =~= Set::<Seq<char>>::empty());
    assert(seq!['2'].skip(1) =~= Seq::<char>::empty());
    assert(element_symbols(seq!['2']) =~= Set::<Seq<char>>::empty());
    assert(seq!['O', '2'].skip(1) =~= seq!['2']);
    assert(seq!['O', '2'].take(1) =~= seq!['O']);
    assert(element_symbols(seq!['O', '2']) =~= Set::<Seq<char>>::empty().insert(seq!['O']));
    assert(seq!['C', 'O', '2'].skip(1) =~= seq!['O', '2']);
    assert(seq!['C', 'O', '2'].take(1) =~= seq!['C']);
    assert(element_symbols(seq!['C', 'O', '2']) =~= Set::<Seq<char>>::empty().insert(seq!['C']).insert(seq!['O']));
}

/// The elements of Fe.
proof fn lemma_elements_fe()
    ensures
        element_symbols("Fe"@) == Set::<Seq<char>>::empty().insert("Fe"@),
{
    reveal_strlit("Fe");
    assert("Fe"@ =~= seq!['F', 'e']);
    assert(element_symbols(Seq::<char>::empty()) =~= Set::<Seq<char>>::empty());
    assert(seq!['e'].skip(1) =~= Seq::<char>::empty());
    assert(element_symbols(seq!['e']) =~= Set::<Seq<char>>::empty());
    assert(seq!['F', 'e'].skip(1) =~= seq!['e']);
    assert(seq!['F', 'e'].skip(2) =~= Seq::<char>::empty());
    assert(seq!['F', 'e'].take(2) =~= seq!['F', 'e']);
    assert(element_symbols(seq!['F', 'e']) =~= Set::<Seq<char>>::empty().insert(seq!['F', 'e']));
}

/// The elements of Fe2O3.
proof fn lemma_elements_fe2o3()
    ensures
        element_symbols("Fe2O3"@) == Set::<Seq<char>>::empty().insert("Fe"@).insert("O"@),
{
    reveal_strlit("Fe");
    reveal_strlit("Fe2O3");
    reveal_strlit("O");
    assert("Fe"@ =~= seq!['F', 'e']);
    assert("Fe2O3"@ =~= seq!['F', 'e', '2', 'O', '3']);
    assert("O"@ =~= seq!['O']);
    assert(element_symbols(Seq::<char>::empty()) =~= Set::<Seq<char>>::empty());
    assert(seq!['3'].skip(1) =~= Seq::<char>::empty());
    assert(element_symbols(seq!['3']) =~= Set::<Seq<char>>::empty());
    assert(seq!['O', '3'].skip(1) =~= seq!['3']);
    assert(seq!['O', '3'].take(1) =~= seq!['O']);
    assert(element_symbols(seq!['O', '3']) =~= Set::<Seq<char>>::empty().insert(seq!['O']));
    assert(seq!['2', 'O', '3'].skip(1) =~= seq!['O', '3']);
    assert(element_symbols(seq!['2', 'O', '3']) =~= Set::<Seq<char>>::empty().insert(seq!['O']));
    assert(seq!['e', '2', 'O', '3'].skip(1) =~= seq!['2', 'O', '3']);
    assert(element_symbols(seq!['e', '2', 'O', '3']) =~= Set::<Seq<char>>::empty().insert(seq!['O']));
    assert(seq!['F', 'e', '2', 'O', '3'].skip(1) =~= seq!['e', '2', 'O', '3']);
    assert(seq!['F', 'e', '2', 'O', '3'].skip(2) =~= seq!['2', 'O', '3']);
    assert(seq!['F', 'e', '2', 'O', '3'].take(2) =~= seq!['F', 'e']);
    assert(element_symbols(seq!['F', 'e', '2', 'O', '3']) =~= Set::<Seq<char>>::empty().insert(seq!['F', 'e']).insert(seq!['O']));
}

/// The elements of C6H12O6.
proof fn lemma_elements_c6h12o6()
    ensures
        element_symbols("C6H12O6"@) == Set::<Seq<char>>::empty().insert("C"@).insert("H"@).insert("O"@),
{
    reveal_strlit("C");
    reveal_strlit("C6H12O6");
    reveal_strlit("H");
    reveal_strlit("O");
    assert("C"@ =~= seq!['C']);
    assert("C6H12O6"@ =~= seq!['C', '6', 'H', '1', '2', 'O', '6']);
    assert("H"@ =~= seq!['H']);
    assert("O"@ =~= seq!['O']);
    assert(element_symbols(Seq::<char>::empty()) =~= Set::<Seq<char>>::empty());
    assert(seq!['6'].skip(1) =~= Seq::<char>::empty());
    assert(element_symbols(seq!['6']) =~= Set::<Seq<char>>::empty());
    assert(seq!['O', '6'].skip(1) =~= seq!['6']);
    assert(seq!['O', '6'].take(1) =~= seq!['O']);
    assert(element_symbols(seq!['O', '6']) =~= Set::<Seq<char>>::empty().insert(seq!['O']));
    assert(seq!['2', 'O', '6'].skip(1) =~= seq!['O', '6']);
    assert(element_symbols(seq!['2', 'O', '6']) =~= Set::<Seq<char>>::empty().insert(seq!['O']));
    assert(seq!['1', '2', 'O', '6'].skip(1) =~= seq!['2', 'O', '6']);
    assert(element_symbols(seq!['1', '2', 'O', '6']) =~= Set::<Seq<char>>::empty().insert(seq!['O']));
    assert(seq!['H', '1', '2', 'O', '6'].skip(1) =~= seq!['1', '2', 'O', '6']);
    assert(seq!['H', '1', '2', 'O', '6'].take(1) =~= seq!['H']);
    assert(element_symbols(seq!['H', '1', '2', 'O', '6']) =~= Set::<Seq<char>>::empty().insert(seq!['H']).insert(seq!['O']));
    assert(seq!['6', 'H', '1', '2', 'O', '6'].skip(1) =~= seq!['H', '1', '2', 'O', '6']);
    assert(element_symbols(seq!['6', 'H', '1', '2', 'O', '6']) =~= Set::<Seq<char>>::empty().insert(seq!['H']).insert(seq!['O']));
    assert(seq!['C', '6', 'H', '1', '2', 'O', '6'].skip(1) =~= seq!['6', 'H', '1', '2', 'O', '6']);
    assert(seq!['C', '6', 'H', '1', '2', 'O', '6'].take(1) =~= seq!['C']);
    assert(element_symbols(seq!['C', '6', 'H', '1', '2', 'O', '6']) =~= Set::<Seq<char>>::empty().insert(seq!['C']).insert(seq!['H']).insert(seq!['O']));
}

/// The elements of HCl.
proof fn lemma_elements_hcl()
    ensures
        element_symbols("HCl"@) == Set::<Seq<char>>::empty().insert("H"@).insert("Cl"@),
{
    reveal_strlit("Cl");
    reveal_strlit("H");
    reveal_strlit("HCl");
    assert("Cl"@ =~= seq!['C', 'l']);
    assert("H"@ =~= seq!['H']);
    assert("HCl"@ =~= seq!['H', 'C', 'l']);
    assert(element_symbols(Seq::<char>::empty()) =~= Set::<Seq<char>>::empty());
    assert(seq!['l'].skip(1) =~= Seq::<char>::empty());
    assert(element_symbols(seq!['l']) =~= Set::<Seq<char>>::empty());
    assert(seq!['C', 'l'].skip(1) =~= seq!['l']);
    assert(seq!['C', 'l'].skip(2) =~= Seq::<char>::empty());
    assert(seq!['C', 'l'].take(2) =~= seq!['C', 'l']);
    assert(element_symbols(seq!['C', 'l']) =~= Set::<Seq<char>>::empty().insert(seq!['C', 'l']));
    assert(seq!['H', 'C', 'l'].skip(1) =~= seq!['C', 'l']);
    assert(seq!['H', 'C', 'l'].take(1) =~= seq!['H']);
    assert(element_symbols(seq!['H', 'C', 'l']) =~= Set::<Seq<char>>::empty().insert(seq!['H']).insert(seq!['C', 'l']));
}

/// The elements of NaOH.
proof fn lemma_elements_naoh()
    ensures
        element_symbols("NaOH"@) == Set::<Seq<char>>::empty().insert("Na"@).insert("O"@).insert("H"@),
{
    reveal_strlit("H");
    reveal_strlit("Na");
    reveal_strlit("NaOH");
    reveal_strlit("O");
    assert("H"@ =~= seq!['H']);
    assert("Na"@ =~= seq!['N', 'a']);
    assert("NaOH"@ =~= seq!['N', 'a', 'O', 'H']);
    assert("O"@ =~= seq!['O']);
    assert(element_symbols(Seq::<char>::empty()) =~= Set::<Seq<char>>::empty());
    assert(seq!['H'].skip(1) =~= Seq::<char>::empty());
    assert(seq!['H'].take(1) =~= seq!['H']);
    assert(element_symbols(seq!['H']) =~= Set::<Seq<char>>::empty().insert(seq!['H']));
    assert(seq!['O', 'H'].skip(1) =~= seq!['H']);
    assert(seq!['O', 'H'].take(1) =~= seq!['O']);
    assert(element_symbols(seq!['O', 'H']) =~= Set::<Seq<char>>::empty().insert(seq!['O']).insert(seq!['H']));
    assert(seq!['a', 'O', 'H'].skip(1) =~= seq!['O', 'H']);
    assert(element_symbols(seq!['a', 'O', 'H']) =~= Set::<Seq<char>>::empty().insert(seq!['O']).insert(seq!['H']));
    assert(seq!['N', 'a', 'O', 'H'].skip(1) =~= seq!['a', 'O', 'H']);
    assert(seq!['N', 'a', 'O', 'H'].skip(2) =~= seq!['O', 'H']);
    assert(seq!['N', 'a', 'O', 'H'].take(2) =~= seq!['N', 'a']);
    assert(element_symbols(seq!['N', 'a', 'O', 'H']) =~= Set::<Seq<char>>::empty().insert(seq!['N', 'a']).insert(seq!['O']).insert(seq!['H']));
}

/// The elements of NaCl.
proof fn lemma_elements_nacl()
    ensures
        element_symbols("NaCl"@) == Set::<Seq<char>>::empty().insert("Na"@).insert("Cl"@),
{
    reveal_strlit("Cl");
    reveal_strlit("Na");
    reveal_strlit("NaCl");
    assert("Cl"@ =~= seq!['C', 'l']);
    assert("Na"@ =~= seq!['N', 'a']);
    assert("NaCl"@ =~= seq!['N', 'a', 'C', 'l']);
    assert(element_symbols(Seq::<char>::empty()) =~= Set::<Seq<char>>::empty());
    assert(seq!['l'].skip(1) =~= Seq::<char>::empty());
    assert(element_symbols(seq!['l']) =~= Set::<Seq<char>>::empty());
    assert(seq!['C', 'l'].skip(1) =~= seq!['l']);
    assert(seq!['C', 'l'].skip(2) =~= Seq::<char>::empty());
    assert(seq!['C', 'l'].take(2) =~= seq!['C', 'l']);
    assert(element_symbols(seq!['C', 'l']) =~= Set::<Seq<char>>::empty().insert(seq!['C', 'l']));
    assert(seq!['a', 'C', 'l'].skip(1) =~= seq!['C', 'l']);
    assert(element_symbols(seq!['a', 'C', 'l']) =~= Set::<Seq<char>>::empty().insert(seq!['C', 'l']));
    assert(seq!['N', 'a', 'C', 'l'].skip(1) =~= seq!['a', 'C', 'l']);
    assert(seq!['N', 'a', 'C', 'l'].skip(2) =~= seq!['C', 'l']);
    assert(seq!['N', 'a', 'C', 'l'].take(2) =~= seq!['N', 'a']);
    assert(element_symbols(seq!['N', 'a', 'C', 'l']) =~= Set::<Seq<char>>::empty().insert(seq!['N', 'a']).insert(seq!['C', 'l']));
}

/// The name, reactant formulae and product formulae of a reaction.
pub struct ReactionFormula {
    pub name: &'static str,
    pub reactants: Vec<&'static str>,
    pub products: Vec<&'static str>,
}

/// The texts of a list of string slices.
pub open spec fn texts_of(list: Seq<&'static str>) -> Seq<Seq<char>> {
    Seq::new(list.len(), |k: int| list[k]@)
}

/// What a formula states: its name, reactants and products, as texts.
pub open spec fn formula_row(f: ReactionFormula) -> (Seq<char>, Seq<Seq<char>>, Seq<Seq<char>>) {
    (f.name@, texts_of(f.reactants@), texts_of(f.products@))
}

/// The common reactions the engine knows from the start: water
/// formation, methane combustion, rust formation, photosynthesis and
/// acid-base neutralisation, in that order.
pub open spec fn standard_reaction_rows() -> Seq<(Seq<char>, Seq<Seq<char>>, Seq<Seq<char>>)> {
    seq![
        ("Water formation"@, seq!["H2"@, "O2"@], seq!["H2O"@]),
        ("Methane combustion"@, seq!["CH4"@, "O2"@], seq!["CO2"@, "H2O"@]),
        ("Rust formation"@, seq!["Fe"@, "O2"@], seq!["Fe2O3"@]),
        ("Photosynthesis"@, seq!["CO2"@, "H2O"@], seq!["C6H12O6"@, "O2"@]),
        ("Acid-base neutralisation"@, seq!["HCl"@, "NaOH"@], seq!["NaCl"@, "H2O"@]),
    ]
}

/// Every standard reaction conserves elements: the elements named by its
/// reactant formulae are exactly those named by its product formulae
/// (for methane combustion, carbon, hydrogen and oxygen on both sides).
pub proof fn law_standard_reactions_conserve_elements()
    ensures
        forall|i: int|
            0 <= i < standard_reaction_rows().len() ==> elements_of(#[trigger] standard_reaction_rows()[i].1)
                == elements_of(standard_reaction_rows()[i].2),
{
    lemma_elements_c6h12o6();
    lemma_elements_ch4();
    lemma_elements_co2();
    lemma_elements_fe();
    lemma_elements_fe2o3();
    lemma_elements_h2();
    lemma_elements_h2o();
    lemma_elements_hcl();
    lemma_elements_nacl();
    lemma_elements_naoh();
    lemma_elements_o2();
    let rows = standard_reaction_rows();
    assert(elements_of(rows[0].1) == elements_of(rows[0].2)) by {
        assert(rows[0].1 == seq!["H2"@, "O2"@]);
        assert(seq!["H2"@, "O2"@].drop_last() =~= seq!["H2"@]);
        assert(seq!["H2"@, "O2"@].last() == "O2"@);
        assert(seq!["H2"@].drop_last() =~= Seq::<Seq<char>>::empty());
        assert(seq!["H2"@].last() == "H2"@);
        assert(elements_of(Seq::<Seq<char>>::empty()) == elements_of(Seq::<Seq<char>>::empty()));
        assert(elements_of(seq!["H2"@]) == elements_of(seq!["H2"@]));
        assert(elements_of(seq!["H2"@, "O2"@]) == elements_of(seq!["H2"@, "O2"@]));
        assert(rows[0].2 == seq!["H2O"@]);
        assert(seq!["H2O"@].drop_last() =~= Seq::<Seq<char>>::empty());
        assert(seq!["H2O"@].last() == "H2O"@);
        assert(elements_of(Seq::<Seq<char>>::empty()) == elements_of(Seq::<Seq<char>>::empty()));
        assert(elements_of(seq!["H2O"@]) == elements_of(seq!["H2O"@]));
        assert(elements_of(rows[0].1) =~= elements_of(rows[0].2));
    }
    assert(elements_of(rows[1].1) == elements_of(rows[1].2)) by {
        assert(rows[1].1 == seq!["CH4"@, "O2"@]);
        assert(seq!["CH4"@, "O2"@].drop_last() =~= seq!["CH4"@]);
        assert(seq!["CH4"@, "O2"@].last() == "O2"@);
        assert(seq!["CH4"@].drop_last() =~= Seq::<Seq<char>>::empty());
        assert(seq!["CH4"@].last() == "CH4"@);
        assert(elements_of(Seq::<Seq<char>>::empty()) == elements_of(Seq::<Seq<char>>::empty()));
        assert(elements_of(seq!["CH4"@]) == elements_of(seq!["CH4"@]));
        assert(elements_of(seq!["CH4"@, "O2"@]) == elements_of(seq!["CH4"@, "O2"@]));
        assert(rows[1].2 == seq!["CO2"@, "H2O"@]);
        assert(seq!["CO2"@, "H2O"@].drop_last() =~= seq!["CO2"@]);
        assert(seq!["CO2"@, "H2O"@].last() == "H2O"@);
        assert(seq!["CO2"@].drop_last() =~= Seq::<Seq<char>>::empty());
        assert(seq!["CO2"@].last() == "CO2"@);
        assert(elements_of(Seq::<Seq<char>>::empty()) == elements_of(Seq::<Seq<char>>::empty()));
        assert(elements_of(seq!["CO2"@]) == elements_of(seq!["CO2"@]));
        assert(elements_of(seq!["CO2"@, "H2O"@]) == elements_of(seq!["CO2"@, "H2O"@]));
        assert(elements_of(rows[1].1) =~= elements_of(rows[1].2));
    }
    assert(elements_of(rows[2].1) == elements_of(rows[2].2)) by {
        assert(rows[2].1 == seq!["Fe"@, "O2"@]);
        assert(seq!["Fe"@, "O2"@].drop_last() =~= seq!["Fe"@]);
        assert(seq!["Fe"@, "O2"@].last() == "O2"@);
        assert(seq!["Fe"@].drop_last() =~= Seq::<Seq<char>>::empty());
        assert(seq!["Fe"@].last() == "Fe"@);
        assert(elements_of(Seq::<Seq<char>>::empty()) == elements_of(Seq::<Seq<char>>::empty()));
        assert(elements_of(seq!["Fe"@]) == elements_of(seq!["Fe"@]));
        assert(elements_of(seq!["Fe"@, "O2"@]) == elements_of(seq!["Fe"@, "O2"@]));
        assert(rows[2].2 == seq!["Fe2O3"@]);
        assert(seq!["Fe2O3"@].drop_last() =~= Seq::<Seq<char>>::empty());
        assert(seq!["Fe2O3"@].last() == "Fe2O3"@);
        assert(elements_of(Seq::<Seq<char>>::empty()) == elements_of(Seq::<Seq<char>>::empty()));
        assert(elements_of(seq!["Fe2O3"@]) == elements_of(seq!["Fe2O3"@]));
        assert(elements_of(rows[2].1) =~= elements_of(rows[2].2));
    }
    assert(elements_of(rows[3].1) == elements_of(rows[3].2)) by {
        assert(rows[3].1 == seq!["CO2"@, "H2O"@]);
        assert(seq!["CO2"@, "H2O"@].drop_last() =~= seq!["CO2"@]);
        assert(seq!["CO2"@, "H2O"@].last() == "H2O"@);
        assert(seq!["CO2"@].drop_last() =~= Seq::<Seq<char>>::empty());
        assert(seq!["CO2"@].last() == "CO2"@);
        assert(elements_of(Seq::<Seq<char>>::empty()) == elements_of(Seq::<Seq<char>>::empty()));
        assert(elements_of(seq!["CO2"@]) == elements_of(seq!["CO2"@]));
        assert(elements_of(seq!["CO2"@, "H2O"@]) == elements_of(seq!["CO2"@, "H2O"@]));
        assert(rows[3].2 == seq!["C6H12O6"@, "O2"@]);
        assert(seq!["C6H12O6"@, "O2"@].drop_last() =~= seq!["C6H12O6"@]);
        assert(seq!["C6H12O6"@, "O2"@].last() == "O2"@);
        assert(seq!["C6H12O6"@].drop_last() =~= Seq::<Seq<char>>::empty());
        assert(seq!["C6H12O6"@].last() == "C6H12O6"@);
        assert(elements_of(Seq::<Seq<char>>::empty()) == elements_of(Seq::<Seq<char>>::empty()));
        assert(elements_of(seq!["C6H12O6"@]) == elements_of(seq!["C6H12O6"@]));
        assert(elements_of(seq!["C6H12O6"@, "O2"@]) == elements_of(seq!["C6H12O6"@, "O2"@]));
        assert(elements_of(rows[3].1) =~= elements_of(rows[3].2));
    }
    assert(elements_of(rows[4].1) == elements_of(rows[4].2)) by {
        assert(rows[4].1 == seq!["HCl"@, "NaOH"@]);
        assert(seq!["HCl"@, "NaOH"@].drop_last() =~= seq!["HCl"@]);
        assert(seq!["HCl"@, "NaOH"@].last() == "NaOH"@);
        assert(seq!["HCl"@].drop_last() =~= Seq::<Seq<char>>::empty());
        assert(seq!["HCl"@].last() == "HCl"@);
        assert(elements_of(Seq::<Seq<char>>::empty()) == elements_of(Seq::<Seq<char>>::empty()));
        assert(elements_of(seq!["HCl"@]) == elements_of(seq!["HCl"@]));
        assert(elements_of(seq!["HCl"@, "NaOH"@]) == elements_of(seq!["HCl"@, "NaOH"@]));
        assert(rows[4].2 == seq!["NaCl"@, "H2O"@]);
        assert(seq!["NaCl"@, "H2O"@].drop_last() =~= seq!["NaCl"@]);
        assert(seq!["NaCl"@, "H2O"@].last() == "H2O"@);
        assert(seq!["NaCl"@].drop_last() =~= Seq::<Seq<char>>::empty());
        assert(seq!["NaCl"@].last() == "NaCl"@);
        assert(elements_of(Seq::<Seq<char>>::empty()) == elements_of(Seq::<Seq<char>>::empty()));
        assert(elements_of(seq!["NaCl"@]) == elements_of(seq!["NaCl"@]));
        assert(elements_of(seq!["NaCl"@, "H2O"@]) == elements_of(seq!["NaCl"@, "H2O"@]));
        assert(elements_of(rows[4].1) =~= elements_of(rows[4].2));
    }
    assert forall|i: int| 0 <= i < standard_reaction_rows().len() implies elements_of(
        #[trigger] standard_reaction_rows()[i].1,
    ) == elements_of(standard_reaction_rows()[i].2) by {
        assert(i == 0 || i == 1 || i == 2 || i == 3 || i == 4);
    }
}

/// The formulae of the common reactions, in the order of
/// [`standard_reaction_rows`].
pub fn standard_reactions() -> (r: Vec<ReactionFormula>)
    ensures
        r@.len() == standard_reaction_rows().len(),
        forall|i: int| 0 <= i < r@.len() ==> formula_row(#[trigger] r@[i]) == standard_reaction_rows()[i],
{
    let mut formulas: Vec<ReactionFormula> = Vec::new();
    let f = ReactionFormula { name: "Water formation", reactants: vec!["H2", "O2"], products: vec!["H2O"] };
    proof {
        assert(formula_row(f) == standard_reaction_rows()[0]) by {
            assert(texts_of(f.reactants@) =~= seq!["H2"@, "O2"@]);
            assert(texts_of(f.products@) =~= seq!["H2O"@]);
        }
    }
    formulas.push(f);
    let f = ReactionFormula { name: "Methane combustion", reactants: vec!["CH4", "O2"], products: vec!["CO2", "H2O"] };
    proof {
        assert(formula_row(f) == standard_reaction_rows()[1]) by {
            assert(texts_of(f.reactants@) =~= seq!["CH4"@, "O2"@]);
            assert(texts_of(f.products@) =~= seq!["CO2"@, "H2O"@]);
        }
    }
    formulas.push(f);
    let f = ReactionFormula { name: "Rust formation", reactants: vec!["Fe", "O2"], products: vec!["Fe2O3"] };
    proof {
        assert(formula_row(f) == standard_reaction_rows()[2]) by {
            assert(texts_of(f.reactants@) =~= seq!["Fe"@, "O2"@]);
            assert(texts_of(f.products@) =~= seq!["Fe2O3"@]);
        }
    }
    formulas.push(f);
    let f = ReactionFormula { name: "Photosynthesis", reactants: vec!["CO2", "H2O"], products: vec!["C6H12O6", "O2"] };
    proof {
        assert(formula_row(f) == standard_reaction_rows()[3]) by {
            assert(texts_of(f.reactants@) =~= seq!["CO2"@, "H2O"@]);
            assert(texts_of(f.products@) =~= seq!["C6H12O6"@, "O2"@]);
        }
    }
    formulas.push(f);
    let f = ReactionFormula { name: "Acid-base neutralisation", reactants: vec!["HCl", "NaOH"], products: vec!["NaCl", "H2O"] };
    proof {
        assert(formula_row(f) == standard_reaction_rows()[4]) by {
            assert(texts_of(f.reactants@) =~= seq!["HCl"@, "NaOH"@]);
            assert(texts_of(f.products@) =~= seq!["NaCl"@, "H2O"@]);
        }
    }
    formulas.push(f);
    formulas
}

} // verus!
