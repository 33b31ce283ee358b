use tfl::eval::{
    assignment_for, atoms_of, atoms_of_all, entails, eval, is_contradiction, is_tautology,
    result_column,
};
use tfl::parser::Formula;
use tfl::pipeline::parse_source;

fn assign(s: &[(&str, bool)]) -> Vec<(String, bool)> {
    s.iter().map(|(k, v)| (k.to_string(), *v)).collect()
}

fn read(s: &str) -> Formula {
    parse_source(s).unwrap()
}

#[test]
fn atom_not_flips() {
    let f = Formula::not(Formula::atom("A"));
    assert_eq!(eval(&f, &assign(&vec![("A", true)])), false);
    assert_eq!(eval(&f, &assign(&vec![("A", false)])), true);
}

#[test]
fn characteristic_truth_tables() {
    let cases = [
        ("(P & Q)", [true, false, false, false]),
        ("(P | Q)", [true, true, true, false]),
        ("(P -> Q)", [true, false, true, true]),
        ("(P <-> Q)", [true, false, false, true]),
    ];
    for (text, want) in cases {
        let f = read(text);
        for (i, (p, q)) in [(true, true), (true, false), (false, true), (false, false)]
            .iter()
            .enumerate()
        {
            assert_eq!(eval(&f, &assign(&[("P", *p), ("Q", *q)])), want[i], "{text}");
        }
    }
}

#[test]
fn atoms_in_order_of_first_occurrence() {
    let f = read("((Q -> P) & (R | Q))");
    assert_eq!(atoms_of(&f), vec!["Q".to_string(), "P".to_string(), "R".to_string()]);
    let ps = vec![read("(P -> Q)"), read("Q")];
    assert_eq!(
        atoms_of_all(&ps, &read("(R & P)")),
        vec!["P".to_string(), "Q".to_string(), "R".to_string()]
    );
}

#[test]
fn rows_count_in_binary_with_true_first() {
    let atoms = vec!["P".to_string(), "Q".to_string()];
    assert_eq!(assignment_for(0, &atoms), assign(&[("P", true), ("Q", true)]));
    assert_eq!(assignment_for(1, &atoms), assign(&[("P", false), ("Q", true)]));
    assert_eq!(assignment_for(2, &atoms), assign(&[("P", true), ("Q", false)]));
    assert_eq!(assignment_for(3, &atoms), assign(&[("P", false), ("Q", false)]));
}

#[test]
fn result_column_has_two_to_the_n_rows() {
    assert_eq!(result_column(&read("(P -> Q)")), vec![true, true, false, true]);
    assert_eq!(result_column(&read("P")), vec![true, false]);
    assert_eq!(result_column(&read("((A & B) | C)")).len(), 8);
}

#[test]
fn tautology_and_contradiction() {
    let col = result_column(&read("(P | ~P)"));
    assert!(is_tautology(&col));
    assert!(!is_contradiction(&col));
    let col = result_column(&read("(P & ~P)"));
    assert!(!is_tautology(&col));
    assert!(is_contradiction(&col));
    let col = result_column(&read("((P -> Q) <-> (~Q -> ~P))"));
    assert!(is_tautology(&col));
    let col = result_column(&read("(P -> Q)"));
    assert!(!is_tautology(&col) && !is_contradiction(&col));
}

#[test]
fn entailment() {
    // the README's examples
    let ps = vec![read("(~L -> (J | L))"), read("~L")];
    assert_eq!(entails(&ps, &read("J")), None);
    let ps = vec![read("(P -> Q)"), read("Q")];
    assert_eq!(entails(&ps, &read("P")), Some(1));
    // modus ponens
    let ps = vec![read("(P -> Q)"), read("P")];
    assert_eq!(entails(&ps, &read("Q")), None);
    // no premises: only tautologies are entailed
    assert_eq!(entails(&vec![], &read("(P | ~P)")), None);
    assert_eq!(entails(&vec![], &read("P")), Some(1));
    // inconsistent premises entail anything
    let ps = vec![read("P"), read("~P")];
    assert_eq!(entails(&ps, &read("Q")), None);
}
