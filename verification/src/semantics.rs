use vstd::prelude::*;

use crate::eval::{
    Valuation, argument_atoms, atoms, bit, is_counterexample, lemma_argument_atoms, lemma_atoms_into,
    lookup, occurs, row_count, row_entries, row_valuation, truth_value,
};
use crate::parser::FormulaV;
use crate::repl::{first_counterexample, first_row};

verus! {

/// The truth value of a sentence depends only on the values of its own atoms.
pub proof fn lemma_coincidence(f: FormulaV, v1: Valuation, v2: Valuation)
    requires
        forall|n: Seq<char>| occurs(n, f) ==> v1(n) == v2(n),
    ensures
        truth_value(f, v1) == truth_value(f, v2),
    decreases f,
{
    match f {
        FormulaV::Atom(n) => {
            assert(occurs(n, f));
        },
        FormulaV::Not(a) => {
            assert forall|n: Seq<char>| occurs(n, *a) implies v1(n) == v2(n) by {
                assert(occurs(n, f));
            }
            lemma_coincidence(*a, v1, v2);
        },
        FormulaV::And(l, r) => {
            lemma_coincidence_pair(f, *l, *r, v1, v2);
            lemma_coincidence(*l, v1, v2);
            lemma_coincidence(*r, v1, v2);
        },
        FormulaV::Or(l, r) => {
            lemma_coincidence_pair(f, *l, *r, v1, v2);
            lemma_coincidence(*l, v1, v2);
            lemma_coincidence(*r, v1, v2);
        },
        FormulaV::Implies(l, r) => {
            lemma_coincidence_pair(f, *l, *r, v1, v2);
            lemma_coincidence(*l, v1, v2);
            lemma_coincidence(*r, v1, v2);
        },
        FormulaV::Iff(l, r) => {
            lemma_coincidence_pair(f, *l, *r, v1, v2);
            lemma_coincidence(*l, v1, v2);
            lemma_coincidence(*r, v1, v2);
        },
    }
}

proof fn lemma_coincidence_pair(f: FormulaV, l: FormulaV, r: FormulaV, v1: Valuation, v2: Valuation)
    requires
        forall|n: Seq<char>| occurs(n, f) ==> v1(n) == v2(n),
        forall|n: Seq<char>| occurs(n, l) || occurs(n, r) ==> occurs(n, f),
    ensures
        forall|n: Seq<char>| occurs(n, l) ==> v1(n) == v2(n),
        forall|n: Seq<char>| occurs(n, r) ==> v1(n) == v2(n),
{
}

/// The row number whose bits encode the truth values `bs`: bit `j` is 0 exactly
/// when `bs[j]` is true.
pub open spec fn row_of(bs: Seq<bool>) -> nat
    decreases bs.len(),
{
    if bs.len() == 0 {
        0
    } else {
        (if bs[0] {
            0nat
        } else {
            1nat
        }) + 2 * row_of(bs.drop_first())
    }
}

pub proof fn lemma_row_of(bs: Seq<bool>)
    ensures
        row_of(bs) < row_count(bs.len()),
        forall|j: nat| j < bs.len() ==> #[trigger] bit(row_of(bs), j) == !bs[j as int],
    decreases bs.len(),
{
    if bs.len() > 0 {
        let rest = bs.drop_first();
        lemma_row_of(rest);
        let b: nat = if bs[0] {
            0
        } else {
            1
        };
        let e = row_of(bs);
        assert(e == b + 2 * row_of(rest));
        assert(e % 2 == b);
        assert(e / 2 == row_of(rest));
        assert forall|j: nat| j < bs.len() implies #[trigger] bit(e, j) == !bs[j as int] by {
            if j > 0 {
                assert(bit(e, j) == bit(e / 2, (j - 1) as nat));
                assert(bit(row_of(rest), (j - 1) as nat) == !rest[j - 1]);
            }
        }
    }
}

/// The first pair that names `es[j].0` is the one at `j`.
pub proof fn lemma_lookup_at(es: Seq<(Seq<char>, bool)>, j: int)
    requires
        0 <= j < es.len(),
        forall|k: int| 0 <= k < j ==> es[k].0 != es[j].0,
    ensures
        lookup(es, es[j].0) == es[j].1,
    decreases j,
{
    if j > 0 {
        let rest = es.drop_first();
        assert(rest[j - 1] == es[j]);
        lemma_lookup_at(rest, j - 1);
    }
}

/// In row `i` over atoms without repetition, the atom at position `j` has the
/// value given by bit `j` of `i`.
pub proof fn lemma_row_value(names: Seq<Seq<char>>, i: nat, j: int)
    requires
        names.no_duplicates(),
        0 <= j < names.len(),
    ensures
        row_valuation(names, i)(names[j]) == !bit(i, j as nat),
{
    let es = row_entries(names, i);
    assert(es[j].0 == names[j]);
    lemma_lookup_at(es, j);
}

/// Every valuation agrees, on a list of atoms without repetition, with some row
/// of the complete truth table over that list.
pub proof fn lemma_some_row(names: Seq<Seq<char>>, v: Valuation) -> (i: nat)
    requires
        names.no_duplicates(),
    ensures
        i < row_count(names.len()),
        forall|n: Seq<char>| names.contains(n) ==> #[trigger] row_valuation(names, i)(n) == v(n),
{
    let bs = Seq::new(names.len(), |j: int| v(names[j]));
    lemma_row_of(bs);
    let i = row_of(bs);
    assert forall|n: Seq<char>| names.contains(n) implies #[trigger] row_valuation(names, i)(n)
        == v(n) by {
        let j = choose|j: int| 0 <= j < names.len() && names[j] == n;
        lemma_row_value(names, i, j);
        assert(bit(i, j as nat) == !bs[j]);
    }
    i
}

/// A sentence is true in every row of its complete truth table exactly when it is
/// true under every valuation: the table decides tautologies.
pub proof fn law_table_decides_tautology(f: FormulaV)
    ensures
        (forall|i: nat| i < row_count(atoms(f).len()) ==> #[trigger] truth_value(
            f,
            row_valuation(atoms(f), i),
        )) <==> (forall|v: Valuation| #[trigger] truth_value(f, v)),
{
    lemma_atoms_into(f, seq![]);
    let names = atoms(f);
    if forall|i: nat| i < row_count(names.len()) ==> #[trigger] truth_value(
        f,
        row_valuation(names, i),
    ) {
        assert forall|v: Valuation| #[trigger] truth_value(f, v) by {
            let i = lemma_some_row(names, v);
            lemma_coincidence(f, row_valuation(names, i), v);
        }
    }
}

/// A sentence is false in every row of its complete truth table exactly when it is
/// false under every valuation: the table decides contradictions.
pub proof fn law_table_decides_contradiction(f: FormulaV)
    ensures
        (forall|i: nat| i < row_count(atoms(f).len()) ==> !#[trigger] truth_value(
            f,
            row_valuation(atoms(f), i),
        )) <==> (forall|v: Valuation| !#[trigger] truth_value(f, v)),
{
    lemma_atoms_into(f, seq![]);
    let names = atoms(f);
    if forall|i: nat| i < row_count(names.len()) ==> !#[trigger] truth_value(
        f,
        row_valuation(names, i),
    ) {
        assert forall|v: Valuation| !#[trigger] truth_value(f, v) by {
            let i = lemma_some_row(names, v);
            lemma_coincidence(f, row_valuation(names, i), v);
        }
    }
}

/// Semantic entailment: the premises entail the conclusion when no valuation makes
/// every premise true and the conclusion false.
pub open spec fn entailed(ps: Seq<FormulaV>, c: FormulaV) -> bool {
    forall|v: Valuation|
        (forall|k: int| 0 <= k < ps.len() ==> truth_value(#[trigger] ps[k], v)) ==> #[trigger]
            truth_value(c, v)
}

/// No row of the complete truth table of an argument is a counterexample exactly
/// when its premises entail its conclusion: the table decides entailment.
pub proof fn law_table_decides_entailment(ps: Seq<FormulaV>, c: FormulaV)
    ensures
        (forall|i: nat| i < row_count(argument_atoms(ps, c).len()) ==> !#[trigger] is_counterexample(
            ps,
            c,
            argument_atoms(ps, c),
            i,
        )) <==> entailed(ps, c),
{
    lemma_argument_atoms(ps, c);
    let names = argument_atoms(ps, c);
    if forall|i: nat| i < row_count(names.len()) ==> !#[trigger] is_counterexample(
        ps,
        c,
        names,
        i,
    ) {
        assert forall|v: Valuation|
            (forall|k: int| 0 <= k < ps.len() ==> truth_value(#[trigger] ps[k], v)) implies #[trigger]
            truth_value(c, v) by {
            let i = lemma_some_row(names, v);
            let w = row_valuation(names, i);
            assert(!is_counterexample(ps, c, names, i));
            assert forall|k: int| 0 <= k < ps.len() implies truth_value(#[trigger] ps[k], w) by {
                assert forall|n: Seq<char>| occurs(n, ps[k]) implies w(n) == v(n) by {
                    assert(names.contains(n));
                }
                lemma_coincidence(ps[k], w, v);
            }
            assert forall|n: Seq<char>| occurs(n, c) implies w(n) == v(n) by {
                assert(names.contains(n));
            }
            lemma_coincidence(c, w, v);
        }
    }
    if entailed(ps, c) {
        assert forall|i: nat| i < row_count(names.len()) implies !#[trigger] is_counterexample(
            ps,
            c,
            names,
            i,
        ) by {
            let w = row_valuation(names, i);
            if forall|k: int| 0 <= k < ps.len() ==> truth_value(#[trigger] ps[k], w) {
                assert(truth_value(c, w));
            }
        }
    }
}


pub(crate) proof fn lemma_first_row_facts(f: FormulaV, names: Seq<Seq<char>>, value: bool, start: nat, end: nat)
    requires
        start <= end,
    ensures
        start <= first_row(f, names, value, start, end) <= end,
        first_row(f, names, value, start, end) < end ==> truth_value(
            f,
            row_valuation(names, first_row(f, names, value, start, end)),
        ) == value,
        forall|k: nat|
            start <= k < first_row(f, names, value, start, end) ==> truth_value(
                f,
                #[trigger] row_valuation(names, k),
            ) != value,
    decreases end - start,
{
    if start < end && truth_value(f, row_valuation(names, start)) != value {
        lemma_first_row_facts(f, names, value, start + 1, end);
    }
}

pub(crate) proof fn lemma_first_counterexample_facts(
    ps: Seq<FormulaV>,
    c: FormulaV,
    names: Seq<Seq<char>>,
    start: nat,
    end: nat,
)
    requires
        start <= end,
    ensures
        start <= first_counterexample(ps, c, names, start, end) <= end,
        first_counterexample(ps, c, names, start, end) < end ==> is_counterexample(
            ps,
            c,
            names,
            first_counterexample(ps, c, names, start, end),
        ),
        forall|k: nat|
            start <= k < first_counterexample(ps, c, names, start, end) ==> !#[trigger] is_counterexample(
                ps,
                c,
                names,
                k,
            ),
    decreases end - start,
{
    if start < end && !is_counterexample(ps, c, names, start) {
        lemma_first_counterexample_facts(ps, c, names, start + 1, end);
    }
}

/// What `:taut` reports is right: it finds no false row exactly when the sentence
/// is a tautology, and a row it reports makes the sentence false.
pub proof fn law_taut_verdict(f: FormulaV)
    ensures
        ({
            let names = atoms(f);
            let n = row_count(names.len());
            let i = first_row(f, names, false, 0, n);
            &&& i == n <==> (forall|v: Valuation| #[trigger] truth_value(f, v))
            &&& i < n ==> !truth_value(f, row_valuation(names, i))
        }),
{
    let names = atoms(f);
    let n = row_count(names.len());
    lemma_first_row_facts(f, names, false, 0, n);
    law_table_decides_tautology(f);
    if first_row(f, names, false, 0, n) == n {
        assert forall|i: nat| i < n implies #[trigger] truth_value(f, row_valuation(names, i)) by {
            assert(truth_value(f, row_valuation(names, i)) != false);
        }
    }
}

/// What `:contra` reports is right: it finds no true row exactly when the sentence
/// is a contradiction, and a row it reports makes the sentence true.
pub proof fn law_contra_verdict(f: FormulaV)
    ensures
        ({
            let names = atoms(f);
            let n = row_count(names.len());
            let i = first_row(f, names, true, 0, n);
            &&& i == n <==> (forall|v: Valuation| !#[trigger] truth_value(f, v))
            &&& i < n ==> truth_value(f, row_valuation(names, i))
        }),
{
    let names = atoms(f);
    let n = row_count(names.len());
    lemma_first_row_facts(f, names, true, 0, n);
    law_table_decides_contradiction(f);
    if first_row(f, names, true, 0, n) == n {
        assert forall|i: nat| i < n implies !#[trigger] truth_value(f, row_valuation(names, i)) by {
            assert(truth_value(f, row_valuation(names, i)) != true);
        }
    }
}

/// What `:entails` reports is right: it finds no counterexample row exactly when
/// the premises entail the conclusion, and a row it reports makes every premise
/// true and the conclusion false.
pub proof fn law_entail_verdict(ps: Seq<FormulaV>, c: FormulaV)
    ensures
        ({
            let names = argument_atoms(ps, c);
            let n = row_count(names.len());
            let i = first_counterexample(ps, c, names, 0, n);
            &&& i == n <==> entailed(ps, c)
            &&& i < n ==> is_counterexample(ps, c, names, i)
        }),
{
    let names = argument_atoms(ps, c);
    let n = row_count(names.len());
    lemma_first_counterexample_facts(ps, c, names, 0, n);
    law_table_decides_entailment(ps, c);
}

/// With no premises, entailment is validity: the empty set of premises entails
/// exactly the tautologies.
pub proof fn law_entailed_by_nothing(c: FormulaV)
    ensures
        entailed(seq![], c) <==> (forall|v: Valuation| #[trigger] truth_value(c, v)),
{
    if entailed(seq![], c) {
        assert forall|v: Valuation| #[trigger] truth_value(c, v) by {
            assert(forall|k: int| 0 <= k < Seq::<FormulaV>::empty().len() ==> truth_value(
                #[trigger] Seq::<FormulaV>::empty()[k],
                v,
            ));
        }
    }
}


/// What `:equiv` reports is right: it finds no row where the two sentences differ
/// exactly when they have the same truth value under every valuation, and a row it
/// reports gives them different values.
pub proof fn law_equiv_verdict(a: FormulaV, b: FormulaV)
    ensures
        ({
            let f = FormulaV::Iff(Box::new(a), Box::new(b));
            let names = atoms(f);
            let n = row_count(names.len());
            let i = first_row(f, names, false, 0, n);
            &&& i == n <==> (forall|v: Valuation| #[trigger] truth_value(a, v) == truth_value(b, v))
            &&& i < n ==> truth_value(a, row_valuation(names, i)) != truth_value(
                b,
                row_valuation(names, i),
            )
        }),
{
    let f = FormulaV::Iff(Box::new(a), Box::new(b));
    law_taut_verdict(f);
    assert forall|v: Valuation| #[trigger] truth_value(f, v) == (truth_value(a, v) == truth_value(b, v)) by {}
    if forall|v: Valuation| #[trigger] truth_value(a, v) == truth_value(b, v) {
        assert forall|v: Valuation| #[trigger] truth_value(f, v) by {
            assert(truth_value(a, v) == truth_value(b, v));
        }
    }
    if forall|v: Valuation| #[trigger] truth_value(f, v) {
        assert forall|v: Valuation| #[trigger] truth_value(a, v) == truth_value(b, v) by {
            assert(truth_value(f, v));
        }
    }
}


/// The characteristic truth tables (chapters 9 and 10 of the book): an atom has the
/// value the valuation gives it; a negation has the opposite value of the sentence
/// negated; a conjunction is true exactly when both parts are, a disjunction
/// exactly when at least one is, a conditional unless its antecedent is true and
/// its consequent false, and a biconditional exactly when both parts agree.
pub proof fn law_characteristic_tables(n: Seq<char>, a: FormulaV, b: FormulaV, v: Valuation)
    ensures
        truth_value(FormulaV::Atom(n), v) == v(n),
        truth_value(FormulaV::Not(Box::new(a)), v) == !truth_value(a, v),
        truth_value(FormulaV::And(Box::new(a), Box::new(b)), v) == (truth_value(a, v)
            && truth_value(b, v)),
        truth_value(FormulaV::Or(Box::new(a), Box::new(b)), v) == (truth_value(a, v)
            || truth_value(b, v)),
        truth_value(FormulaV::Implies(Box::new(a), Box::new(b)), v) == !(truth_value(a, v)
            && !truth_value(b, v)),
        truth_value(FormulaV::Iff(Box::new(a), Box::new(b)), v) == (truth_value(a, v)
            == truth_value(b, v)),
{
}

proof fn lemma_bits_differ(i1: nat, i2: nat, n: nat)
    requires
        i1 < row_count(n),
        i2 < row_count(n),
        i1 != i2,
    ensures
        exists|j: nat| j < n && #[trigger] bit(i1, j) != bit(i2, j),
    decreases n,
{
    if n == 0 {
        assert(false);
    } else if i1 % 2 != i2 % 2 {
        assert(bit(i1, 0) != bit(i2, 0));
    } else {
        assert(i1 / 2 != i2 / 2);
        lemma_bits_differ(i1 / 2, i2 / 2, (n - 1) as nat);
        let j = choose|j: nat| j < n - 1 && #[trigger] bit(i1 / 2, j) != bit(i2 / 2, j);
        assert(bit(i1, j + 1) == bit(i1 / 2, j));
        assert(bit(i2, j + 1) == bit(i2 / 2, j));
        assert(bit(i1, j + 1) != bit(i2, j + 1));
    }
}

/// Row `i` over `names` gives each of those atoms the value that `v` gives it.
pub open spec fn row_agrees(names: Seq<Seq<char>>, i: nat, v: Valuation) -> bool {
    forall|n: Seq<char>| names.contains(n) ==> #[trigger] row_valuation(names, i)(n) == v(n)
}

/// Rows `i1` and `i2` over `names` give some atom of `names` different values.
pub open spec fn rows_differ(names: Seq<Seq<char>>, i1: nat, i2: nat) -> bool {
    exists|j: int|
        0 <= j < names.len() && row_valuation(names, i1)(#[trigger] names[j]) != row_valuation(
            names,
            i2,
        )(names[j])
}

/// The rows of a complete truth table over atoms without repetition are exactly
/// the valuations of those atoms, each once: every valuation agrees on the atoms
/// with some row, and two different rows differ on some atom.
pub proof fn law_rows_are_the_valuations(names: Seq<Seq<char>>, v: Valuation)
    requires
        names.no_duplicates(),
    ensures
        exists|i: nat| i < row_count(names.len()) && #[trigger] row_agrees(names, i, v),
        forall|i1: nat, i2: nat|
            i1 < row_count(names.len()) && i2 < row_count(names.len()) && i1 != i2
                ==> #[trigger] rows_differ(names, i1, i2),
{
    let i = lemma_some_row(names, v);
    assert(row_agrees(names, i, v));
    assert forall|i1: nat, i2: nat|
        i1 < row_count(names.len()) && i2 < row_count(names.len()) && i1 != i2
        implies #[trigger] rows_differ(names, i1, i2) by {
        lemma_bits_differ(i1, i2, names.len());
        let j = choose|j: nat| j < names.len() && #[trigger] bit(i1, j) != bit(i2, j);
        lemma_row_value(names, i1, j as int);
        lemma_row_value(names, i2, j as int);
        assert(row_valuation(names, i1)(names[j as int]) != row_valuation(names, i2)(
            names[j as int],
        ));
    }
}

} // verus!
