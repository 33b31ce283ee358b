use vstd::prelude::*;

use crate::parser::{Formula, FormulaV};

verus! {

/// A valuation: the truth value of each atom.
pub type Valuation = spec_fn(Seq<char>) -> bool;

/// The truth value of `f` under the valuation `v`, by the characteristic truth
/// tables of the connectives.
pub open spec fn truth_value(f: FormulaV, v: Valuation) -> bool
    decreases f,
{
    match f {
        FormulaV::Atom(name) => v(name),
        FormulaV::Not(a) => !truth_value(*a, v),
        FormulaV::And(l, r) => truth_value(*l, v) && truth_value(*r, v),
        FormulaV::Or(l, r) => truth_value(*l, v) || truth_value(*r, v),
        FormulaV::Implies(l, r) => !truth_value(*l, v) || truth_value(*r, v),
        FormulaV::Iff(l, r) => truth_value(*l, v) == truth_value(*r, v),
    }
}

/// Whether the atom `name` occurs in `f`.
pub open spec fn occurs(name: Seq<char>, f: FormulaV) -> bool
    decreases f,
{
    match f {
        FormulaV::Atom(n) => n == name,
        FormulaV::Not(a) => occurs(name, *a),
        FormulaV::And(l, r) => occurs(name, *l) || occurs(name, *r),
        FormulaV::Or(l, r) => occurs(name, *l) || occurs(name, *r),
        FormulaV::Implies(l, r) => occurs(name, *l) || occurs(name, *r),
        FormulaV::Iff(l, r) => occurs(name, *l) || occurs(name, *r),
    }
}

/// `acc` followed by the atoms of `f` that are not in it yet, each once, in the
/// order of their first occurrence from left to right.
pub open spec fn atoms_into(f: FormulaV, acc: Seq<Seq<char>>) -> Seq<Seq<char>>
    decreases f,
{
    match f {
        FormulaV::Atom(n) => if acc.contains(n) {
            acc
        } else {
            acc.push(n)
        },
        FormulaV::Not(a) => atoms_into(*a, acc),
        FormulaV::And(l, r) => atoms_into(*r, atoms_into(*l, acc)),
        FormulaV::Or(l, r) => atoms_into(*r, atoms_into(*l, acc)),
        FormulaV::Implies(l, r) => atoms_into(*r, atoms_into(*l, acc)),
        FormulaV::Iff(l, r) => atoms_into(*r, atoms_into(*l, acc)),
    }
}

/// The atoms of `f`, each once, in the order of their first occurrence.
pub open spec fn atoms(f: FormulaV) -> Seq<Seq<char>> {
    atoms_into(f, seq![])
}

pub proof fn lemma_atoms_into(f: FormulaV, acc: Seq<Seq<char>>)
    ensures
        atoms_into(f, acc).len() >= acc.len(),
        atoms_into(f, acc).take(acc.len() as int) == acc,
        forall|n: Seq<char>| #[trigger]
            atoms_into(f, acc).contains(n) <==> (acc.contains(n) || occurs(n, f)),
        acc.no_duplicates() ==> atoms_into(f, acc).no_duplicates(),
    decreases f,
{
    match f {
        FormulaV::Atom(n) => {
            if !acc.contains(n) {
                assert(acc.push(n).take(acc.len() as int) =~= acc);
                assert forall|m: Seq<char>| #[trigger]
                    acc.push(n).contains(m) <==> (acc.contains(m) || occurs(m, f)) by {
                    if acc.push(n).contains(m) {
                        let k = choose|k: int| 0 <= k < acc.push(n).len() && acc.push(n)[k] == m;
                        if k < acc.len() {
                            assert(acc[k] == m);
                        }
                    }
                    if acc.contains(m) {
                        let k = choose|k: int| 0 <= k < acc.len() && acc[k] == m;
                        assert(acc.push(n)[k] == m);
                    }
                    if m == n {
                        assert(acc.push(n)[acc.len() as int] == m);
                    }
                }
            } else {
                assert(acc.take(acc.len() as int) =~= acc);
            }
        },
        FormulaV::Not(a) => {
            lemma_atoms_into(*a, acc);
        },
        FormulaV::And(l, r) => {
            lemma_atoms_into(*l, acc);
            lemma_atoms_into(*r, atoms_into(*l, acc));
            lemma_atoms_into_pair(*l, *r, acc);
        },
        FormulaV::Or(l, r) => {
            lemma_atoms_into(*l, acc);
            lemma_atoms_into(*r, atoms_into(*l, acc));
            lemma_atoms_into_pair(*l, *r, acc);
        },
        FormulaV::Implies(l, r) => {
            lemma_atoms_into(*l, acc);
            lemma_atoms_into(*r, atoms_into(*l, acc));
            lemma_atoms_into_pair(*l, *r, acc);
        },
        FormulaV::Iff(l, r) => {
            lemma_atoms_into(*l, acc);
            lemma_atoms_into(*r, atoms_into(*l, acc));
            lemma_atoms_into_pair(*l, *r, acc);
        },
    }
}

proof fn lemma_atoms_into_pair(l: FormulaV, r: FormulaV, acc: Seq<Seq<char>>)
    requires
        atoms_into(l, acc).len() >= acc.len(),
        atoms_into(l, acc).take(acc.len() as int) == acc,
        forall|n: Seq<char>| #[trigger]
            atoms_into(l, acc).contains(n) <==> (acc.contains(n) || occurs(n, l)),
        acc.no_duplicates() ==> atoms_into(l, acc).no_duplicates(),
        ({
            let mid = atoms_into(l, acc);
            &&& atoms_into(r, mid).len() >= mid.len()
            &&& atoms_into(r, mid).take(mid.len() as int) == mid
            &&& forall|n: Seq<char>| #[trigger]
                atoms_into(r, mid).contains(n) <==> (mid.contains(n) || occurs(n, r))
            &&& mid.no_duplicates() ==> atoms_into(r, mid).no_duplicates()
        }),
    ensures
        atoms_into(r, atoms_into(l, acc)).len() >= acc.len(),
        atoms_into(r, atoms_into(l, acc)).take(acc.len() as int) == acc,
        forall|n: Seq<char>| #[trigger]
            atoms_into(r, atoms_into(l, acc)).contains(n) <==> (acc.contains(n) || occurs(n, l)
                || occurs(n, r)),
        acc.no_duplicates() ==> atoms_into(r, atoms_into(l, acc)).no_duplicates(),
{
    let mid = atoms_into(l, acc);
    let out = atoms_into(r, mid);
    assert(out.take(acc.len() as int) =~= out.take(mid.len() as int).take(acc.len() as int));
    assert forall|n: Seq<char>| #[trigger]
        out.contains(n) <==> (acc.contains(n) || occurs(n, l) || occurs(n, r)) by {
        assert(out.contains(n) <==> (mid.contains(n) || occurs(n, r)));
        assert(mid.contains(n) <==> (acc.contains(n) || occurs(n, l)));
    }
}


pub open spec fn strings_view(s: Seq<String>) -> Seq<Seq<char>> {
    s.map_values(|x: String| x@)
}

pub open spec fn formulas_view(s: Seq<Formula>) -> Seq<FormulaV> {
    s.map_values(|f: Formula| f@)
}

/// An assignment written out as (atom, truth value) pairs.
pub open spec fn entries_view(a: Seq<(String, bool)>) -> Seq<(Seq<char>, bool)> {
    a.map_values(|p: (String, bool)| (p.0@, p.1))
}

/// The value given to `name` by the first pair that names it (false if none does).
pub open spec fn lookup(es: Seq<(Seq<char>, bool)>, name: Seq<char>) -> bool
    decreases es.len(),
{
    if es.len() == 0 {
        false
    } else if es[0].0 == name {
        es[0].1
    } else {
        lookup(es.drop_first(), name)
    }
}

pub open spec fn has_key(es: Seq<(Seq<char>, bool)>, name: Seq<char>) -> bool {
    exists|k: int| 0 <= k < es.len() && #[trigger] es[k].0 == name
}

/// The valuation that a list of pairs describes.
pub open spec fn valuation_of(es: Seq<(Seq<char>, bool)>) -> Valuation {
    |name: Seq<char>| lookup(es, name)
}

/// Bit `j` of the binary numeral of `i` (bit 0 is the least significant).
pub open spec fn bit(i: nat, j: nat) -> bool
    decreases j,
{
    if j == 0 {
        i % 2 == 1
    } else {
        bit(i / 2, (j - 1) as nat)
    }
}

/// Row `i` of the complete truth table over `names`: the atom at position `j`
/// is true exactly when bit `j` of `i` is 0, so row 0 makes every atom true.
pub open spec fn row_entries(names: Seq<Seq<char>>, i: nat) -> Seq<(Seq<char>, bool)> {
    Seq::new(names.len(), |j: int| (names[j], !bit(i, j as nat)))
}

pub open spec fn row_valuation(names: Seq<Seq<char>>, i: nat) -> Valuation {
    valuation_of(row_entries(names, i))
}

/// The number of rows of a complete truth table over `n` atoms: 2 to the `n`.
pub open spec fn row_count(n: nat) -> nat
    decreases n,
{
    if n == 0 {
        1
    } else {
        2 * row_count((n - 1) as nat)
    }
}

/// The largest number of distinct atoms for which truth tables are computed.
pub const MAX_TABLE_ATOMS: usize = 30;

pub proof fn lemma_row_count_mono(j: nat, k: nat)
    requires
        j <= k,
    ensures
        1 <= row_count(j) <= row_count(k),
    decreases k,
{
    if k > 0 {
        if j < k {
            lemma_row_count_mono(j, (k - 1) as nat);
        } else {
            lemma_row_count_mono((k - 1) as nat, (k - 1) as nat);
        }
    }
}

proof fn lemma_row_count_limit()
    ensures
        row_count(29) == 0x2000_0000,
{
    reveal_with_fuel(row_count, 30);
}

fn contains_name(names: &Vec<String>, name: &String) -> (r: bool)
    ensures
        r == strings_view(names@).contains(name@),
{
    let mut i: usize = 0;
    while i < names.len()
        invariant
            i <= names@.len(),
            forall|k: int| 0 <= k < i ==> names@[k]@ != name@,
        decreases names@.len() - i,
    {
        if names[i] == *name {
            assert(strings_view(names@)[i as int] == name@);
            return true;
        }
        i = i + 1;
    }
    assert forall|k: int| 0 <= k < strings_view(names@).len() implies strings_view(
        names@,
    )[k] != name@ by {
        assert(strings_view(names@)[k] == names@[k]@);
    }
    false
}

/// Appends to `atoms` each atom of `formula` that is not in it yet.
pub fn collect_atoms(formula: &Formula, atoms: &mut Vec<String>)
    ensures
        strings_view(final(atoms)@) == atoms_into(formula@, strings_view(old(atoms)@)),
    decreases formula,
{
    match formula {
        Formula::Atom(name) => {
            if !contains_name(atoms, name) {
                let ghost before = strings_view(atoms@);
                atoms.push(name.clone());
                assert(strings_view(atoms@) =~= before.push(name@));
            }
        },
        Formula::Not(inner) => collect_atoms(inner, atoms),
        Formula::And(l, r) => {
            collect_atoms(l, atoms);
            collect_atoms(r, atoms);
        },
        Formula::Or(l, r) => {
            collect_atoms(l, atoms);
            collect_atoms(r, atoms);
        },
        Formula::Implies(l, r) => {
            collect_atoms(l, atoms);
            collect_atoms(r, atoms);
        },
        Formula::Iff(l, r) => {
            collect_atoms(l, atoms);
            collect_atoms(r, atoms);
        },
    }
}

/// The atoms of `formula`, each once, in the order of their first occurrence.
pub fn atoms_of(formula: &Formula) -> (r: Vec<String>)
    ensures
        strings_view(r@) == atoms(formula@),
        strings_view(r@).no_duplicates(),
        forall|n: Seq<char>| #[trigger] strings_view(r@).contains(n) <==> occurs(n, formula@),
{
    proof {
        lemma_atoms_into(formula@, seq![]);
    }
    let mut set: Vec<String> = Vec::new();
    assert(strings_view(set@) =~= Seq::<Seq<char>>::empty());
    collect_atoms(formula, &mut set);
    set
}

fn lookup_value(assignment: &Vec<(String, bool)>, name: &String) -> (r: bool)
    requires
        has_key(entries_view(assignment@), name@),
    ensures
        r == lookup(entries_view(assignment@), name@),
{
    let ghost es = entries_view(assignment@);
    let n = assignment.len();
    let mut i: usize = 0;
    assert(es.skip(0) =~= es);
    loop
        invariant
            i <= es.len(),
            n == es.len(),
            es.len() == assignment@.len(),
            es == entries_view(assignment@),
            exists|k: int| i <= k < es.len() && #[trigger] es[k].0 == name@,
            lookup(es, name@) == lookup(es.skip(i as int), name@),
        decreases es.len() - i,
    {
        let ghost w = choose|k: int| i <= k < es.len() && #[trigger] es[k].0 == name@;
        assert(i < es.len());
        assert(es[i as int] == (assignment@[i as int].0@, assignment@[i as int].1));
        if assignment[i].0 == *name {
            return assignment[i].1;
        }
        assert(es.skip(i as int).drop_first() =~= es.skip(i + 1));
        i = i + 1;
    }
}

/// The truth value of `formula` under `assignment`; every atom of the formula
/// must be given a value.
pub fn eval(formula: &Formula, assignment: &Vec<(String, bool)>) -> (r: bool)
    requires
        forall|n: Seq<char>| occurs(n, formula@) ==> has_key(entries_view(assignment@), n),
    ensures
        r == truth_value(formula@, valuation_of(entries_view(assignment@))),
    decreases formula,
{
    let ghost es = entries_view(assignment@);
    match formula {
        Formula::Atom(name) => {
            assert(occurs(name@, formula@));
            lookup_value(assignment, name)
        },
        Formula::Not(inner) => {
            assert forall|n: Seq<char>| occurs(n, inner@) implies has_key(es, n) by {
                assert(occurs(n, formula@));
            }
            !eval(inner, assignment)
        },
        Formula::And(l, r) | Formula::Or(l, r) | Formula::Implies(l, r) | Formula::Iff(l, r) => {
            assert forall|n: Seq<char>| occurs(n, l@) || occurs(n, r@) implies has_key(es, n) by {
                assert(occurs(n, formula@));
            }
            let a = eval(l, assignment);
            let b = eval(r, assignment);
            match formula {
                Formula::And(_, _) => a && b,
                Formula::Or(_, _) => a || b,
                Formula::Implies(_, _) => !a || b,
                _ => a == b,
            }
        },
    }
}

/// Row `row` of the complete truth table over `atoms`, as (atom, value) pairs.
pub fn assignment_for(row: usize, atoms: &Vec<String>) -> (r: Vec<(String, bool)>)
    ensures
        entries_view(r@) == row_entries(strings_view(atoms@), row as nat),
{
    let ghost names = strings_view(atoms@);
    let mut entries: Vec<(String, bool)> = Vec::new();
    let mut k: usize = row;
    let mut j: usize = 0;
    while j < atoms.len()
        invariant
            j <= atoms@.len(),
            names == strings_view(atoms@),
            entries_view(entries@) == row_entries(names, row as nat).take(j as int),
            forall|jj: nat| jj >= j ==> #[trigger] bit(row as nat, jj) == bit(k as nat, (jj - j) as nat),
        decreases atoms@.len() - j,
    {
        let ghost before = entries_view(entries@);
        let value = k % 2 == 0;
        assert(bit(row as nat, j as nat) == bit(k as nat, 0));
        assert(bit(k as nat, 0) == (k % 2 == 1));
        let name = atoms[j].clone();
        assert(name@ == names[j as int]);
        entries.push((name, value));
        assert(entries_view(entries@) =~= before.push((name@, value)));
        assert(row_entries(names, row as nat)[j as int] == (names[j as int], value));
        assert(row_entries(names, row as nat).take(j + 1) =~= row_entries(names, row as nat).take(j as int).push((names[j as int], value)));
        assert(entries_view(entries@) =~= row_entries(names, row as nat).take(j + 1));
        assert forall|jj: nat| jj >= j + 1 implies #[trigger] bit(row as nat, jj) == bit(
            (k / 2) as nat,
            (jj - (j + 1)) as nat,
        ) by {
            assert(bit(row as nat, jj) == bit(k as nat, (jj - j) as nat));
        }
        k = k / 2;
        j = j + 1;
    }
    assert(row_entries(names, row as nat).take(j as int) =~= row_entries(names, row as nat));
    entries
}


proof fn lemma_row_has_keys(names: Seq<Seq<char>>, i: nat, f: FormulaV)
    requires
        forall|n: Seq<char>| occurs(n, f) ==> names.contains(n),
    ensures
        forall|n: Seq<char>| occurs(n, f) ==> has_key(row_entries(names, i), n),
{
    assert forall|n: Seq<char>| occurs(n, f) implies has_key(row_entries(names, i), n) by {
        let k = choose|k: int| 0 <= k < names.len() && names[k] == n;
        assert(row_entries(names, i)[k].0 == n);
    }
}

/// The number of rows of the complete truth table over `n` atoms, for `n` at most
/// `MAX_TABLE_ATOMS`.
fn rows_for(n: usize) -> (rows: usize)
    requires
        n <= MAX_TABLE_ATOMS,
    ensures
        rows == row_count(n as nat),
{
    let mut rows: usize = 1;
    let mut j: usize = 0;
    while j < n
        invariant
            j <= n <= MAX_TABLE_ATOMS,
            rows == row_count(j as nat),
        decreases n - j,
    {
        proof {
            lemma_row_count_mono(j as nat, 29);
            lemma_row_count_limit();
        }
        rows = rows * 2;
        j = j + 1;
    }
    rows
}

/// The result column of the complete truth table of `formula`: entry `i` is the
/// truth value of the formula in row `i` over its atoms in order of first occurrence.
pub fn result_column(formula: &Formula) -> (col: Vec<bool>)
    requires
        atoms(formula@).len() <= MAX_TABLE_ATOMS,
    ensures
        col@.len() == row_count(atoms(formula@).len()),
        forall|i: int|
            0 <= i < col@.len() ==> col@[i] == truth_value(
                formula@,
                row_valuation(atoms(formula@), i as nat),
            ),
{
    let names = atoms_of(formula);
    proof {
        lemma_atoms_into(formula@, seq![]);
    }
    let rows = rows_for(names.len());
    let mut col: Vec<bool> = Vec::new();
    let mut i: usize = 0;
    while i < rows
        invariant
            i <= rows,
            rows == row_count(atoms(formula@).len()),
            strings_view(names@) == atoms(formula@),
            forall|n: Seq<char>| occurs(n, formula@) ==> atoms(formula@).contains(n),
            col@.len() == i,
            forall|k: int|
                0 <= k < i ==> col@[k] == truth_value(
                    formula@,
                    row_valuation(atoms(formula@), k as nat),
                ),
        decreases rows - i,
    {
        let asg = assignment_for(i, &names);
        proof {
            lemma_row_has_keys(atoms(formula@), i as nat, formula@);
        }
        let value = eval(formula, &asg);
        col.push(value);
        i = i + 1;
    }
    col
}

/// Whether every entry of a result column is true.
pub fn is_tautology(col: &Vec<bool>) -> (r: bool)
    ensures
        r == (forall|i: int| 0 <= i < col@.len() ==> col@[i]),
{
    let mut i: usize = 0;
    while i < col.len()
        invariant
            i <= col@.len(),
            forall|k: int| 0 <= k < i ==> col@[k],
        decreases col@.len() - i,
    {
        if !col[i] {
            return false;
        }
        i = i + 1;
    }
    true
}

/// Whether every entry of a result column is false.
pub fn is_contradiction(col: &Vec<bool>) -> (r: bool)
    ensures
        r == (forall|i: int| 0 <= i < col@.len() ==> !col@[i]),
{
    let mut i: usize = 0;
    while i < col.len()
        invariant
            i <= col@.len(),
            forall|k: int| 0 <= k < i ==> !col@[k],
        decreases col@.len() - i,
    {
        if col[i] {
            return false;
        }
        i = i + 1;
    }
    true
}

/// The atoms of the premises `ps` taken in order, each once.
pub open spec fn premise_atoms(ps: Seq<FormulaV>) -> Seq<Seq<char>>
    decreases ps.len(),
{
    if ps.len() == 0 {
        seq![]
    } else {
        atoms_into(ps.last(), premise_atoms(ps.drop_last()))
    }
}

/// The atoms of an argument: those of the premises in order, then those of the
/// conclusion, each once.
pub open spec fn argument_atoms(ps: Seq<FormulaV>, c: FormulaV) -> Seq<Seq<char>> {
    atoms_into(c, premise_atoms(ps))
}

pub proof fn lemma_premise_atoms(ps: Seq<FormulaV>)
    ensures
        premise_atoms(ps).no_duplicates(),
        forall|n: Seq<char>| #[trigger]
            premise_atoms(ps).contains(n) <==> exists|k: int|
                0 <= k < ps.len() && occurs(n, #[trigger] ps[k]),
    decreases ps.len(),
{
    if ps.len() > 0 {
        let init = ps.drop_last();
        lemma_premise_atoms(init);
        lemma_atoms_into(ps.last(), premise_atoms(init));
        assert forall|n: Seq<char>| #[trigger]
            premise_atoms(ps).contains(n) <==> exists|k: int|
                0 <= k < ps.len() && occurs(n, #[trigger] ps[k]) by {
            if premise_atoms(ps).contains(n) {
                if premise_atoms(init).contains(n) {
                    let k = choose|k: int| 0 <= k < init.len() && occurs(n, #[trigger] init[k]);
                    assert(ps[k] == init[k]);
                } else {
                    assert(occurs(n, ps[ps.len() - 1]));
                }
            }
            if exists|k: int| 0 <= k < ps.len() && occurs(n, #[trigger] ps[k]) {
                let k = choose|k: int| 0 <= k < ps.len() && occurs(n, #[trigger] ps[k]);
                if k < ps.len() - 1 {
                    assert(init[k] == ps[k]);
                }
            }
        }
    } else {
        assert(premise_atoms(ps) =~= Seq::<Seq<char>>::empty());
    }
}

pub proof fn lemma_argument_atoms(ps: Seq<FormulaV>, c: FormulaV)
    ensures
        argument_atoms(ps, c).no_duplicates(),
        forall|n: Seq<char>| #[trigger]
            argument_atoms(ps, c).contains(n) <==> (occurs(n, c) || exists|k: int|
                0 <= k < ps.len() && occurs(n, #[trigger] ps[k])),
{
    lemma_premise_atoms(ps);
    lemma_atoms_into(c, premise_atoms(ps));
}

/// The atoms of the premises in order, then those of the conclusion, each once.
pub fn atoms_of_all(premises: &Vec<Formula>, conclusion: &Formula) -> (r: Vec<String>)
    ensures
        strings_view(r@) == argument_atoms(formulas_view(premises@), conclusion@),
        strings_view(r@).no_duplicates(),
        forall|n: Seq<char>| #[trigger]
            strings_view(r@).contains(n) <==> (occurs(n, conclusion@) || exists|k: int|
                0 <= k < premises@.len() && occurs(n, #[trigger] formulas_view(premises@)[k])),
{
    proof {
        lemma_argument_atoms(formulas_view(premises@), conclusion@);
    }
    let ghost ps = formulas_view(premises@);
    let mut names: Vec<String> = Vec::new();
    let mut i: usize = 0;
    assert(strings_view(names@) =~= premise_atoms(ps.take(0)));
    while i < premises.len()
        invariant
            i <= premises@.len(),
            ps == formulas_view(premises@),
            strings_view(names@) == premise_atoms(ps.take(i as int)),
        decreases premises@.len() - i,
    {
        collect_atoms(&premises[i], &mut names);
        assert(ps.take(i + 1).drop_last() =~= ps.take(i as int));
        i = i + 1;
    }
    assert(ps.take(i as int) =~= ps);
    collect_atoms(conclusion, &mut names);
    names
}

/// Whether row `i` over `names` makes every premise true and the conclusion false.
pub open spec fn is_counterexample(
    ps: Seq<FormulaV>,
    c: FormulaV,
    names: Seq<Seq<char>>,
    i: nat,
) -> bool {
    &&& forall|k: int| 0 <= k < ps.len() ==> truth_value(#[trigger] ps[k], row_valuation(names, i))
    &&& !truth_value(c, row_valuation(names, i))
}

/// Looks for a row of the complete truth table of the argument (over its atoms
/// in order) that makes every premise true and the conclusion false: the first
/// such row, or `None` when there is none, that is, when the premises entail the
/// conclusion.
pub fn entails(premises: &Vec<Formula>, conclusion: &Formula) -> (r: Option<usize>)
    requires
        argument_atoms(formulas_view(premises@), conclusion@).len() <= MAX_TABLE_ATOMS,
    ensures
        ({
            let ps = formulas_view(premises@);
            let names = argument_atoms(ps, conclusion@);
            match r {
                Some(i) => {
                    &&& i < row_count(names.len())
                    &&& is_counterexample(ps, conclusion@, names, i as nat)
                    &&& forall|j: nat| j < i ==> !is_counterexample(ps, conclusion@, names, j)
                },
                None => forall|j: nat|
                    j < row_count(names.len()) ==> !is_counterexample(ps, conclusion@, names, j),
            }
        }),
{
    let ghost ps = formulas_view(premises@);
    let names = atoms_of_all(premises, conclusion);
    let ghost nv = strings_view(names@);
    proof {
        lemma_argument_atoms(ps, conclusion@);
    }
    let rows = rows_for(names.len());
    let mut i: usize = 0;
    while i < rows
        invariant
            i <= rows,
            rows == row_count(nv.len()),
            ps == formulas_view(premises@),
            nv == strings_view(names@),
            nv == argument_atoms(ps, conclusion@),
            forall|n: Seq<char>| #[trigger]
                nv.contains(n) <==> (occurs(n, conclusion@) || exists|k: int|
                    0 <= k < ps.len() && occurs(n, #[trigger] ps[k])),
            forall|j: nat| j < i ==> !is_counterexample(ps, conclusion@, nv, j),
        decreases rows - i,
    {
        let asg = assignment_for(i, &names);
        let ghost v = row_valuation(nv, i as nat);
        let mut all_true = true;
        let mut k: usize = 0;
        while k < premises.len()
            invariant
                k <= premises@.len(),
                ps == formulas_view(premises@),
                entries_view(asg@) == row_entries(nv, i as nat),
                v == row_valuation(nv, i as nat),
                forall|n: Seq<char>| #[trigger]
                    nv.contains(n) <==> (occurs(n, conclusion@) || exists|k: int|
                        0 <= k < ps.len() && occurs(n, #[trigger] ps[k])),
                all_true == (forall|m: int| 0 <= m < k ==> truth_value(#[trigger] ps[m], v)),
            decreases premises@.len() - k,
        {
            assert(ps[k as int] == premises@[k as int]@);
            assert forall|n: Seq<char>| occurs(n, premises@[k as int]@) implies nv.contains(n) by {
                assert(occurs(n, ps[k as int]));
            }
            proof {
                lemma_row_has_keys(nv, i as nat, premises@[k as int]@);
            }
            let value = eval(&premises[k], &asg);
            if !value {
                all_true = false;
            }
            k = k + 1;
        }
        proof {
            lemma_row_has_keys(nv, i as nat, conclusion@);
        }
        if all_true && !eval(conclusion, &asg) {
            return Some(i);
        }
        i = i + 1;
    }
    None
}

} // verus!
