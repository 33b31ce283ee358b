use tfl::repl::{check_contra, check_entail, check_equiv, check_taut, process_line, run_command, run_formula, Line, Response};

const EMPH: &str = "\x1b[1;3m";
const RESET: &str = "\x1b[0m";

fn lines(r: Response) -> Vec<(bool, String)> {
    match r {
        Response::Lines(ls) => ls
            .into_iter()
            .map(|l| match l {
                Line::Out(s) => (false, s),
                Line::Error(s) => (true, s),
            })
            .collect(),
        _ => panic!("expected lines"),
    }
}

fn out(s: &str) -> (bool, String) {
    (false, s.to_string())
}

fn err(s: &str) -> (bool, String) {
    (true, s.to_string())
}

#[test]
fn taut_reports_tautology() {
    assert_eq!(
        lines(check_taut("((P -> Q) <-> (~Q -> ~P))")),
        vec![
            out(""),
            out(&format!(" ((P →  Q) ↔  (¬Q →  ¬P)) {EMPH}is a tautology{RESET}")),
            out("")
        ]
    );
}

#[test]
fn taut_reports_falsifying_row() {
    assert_eq!(
        lines(check_taut("(P -> Q)")),
        vec![
            out(""),
            out(&format!(" {EMPH} not a tautology, false when {RESET} P=T, Q=F")),
            out("")
        ]
    );
}

#[test]
fn taut_usage_and_errors() {
    assert_eq!(lines(check_taut("")), vec![out(" usage: :taut <formula>")]);
    assert_eq!(
        lines(check_taut("(P &")),
        vec![err(" parser error: expected a formula, but input ended")]
    );
}

#[test]
fn contra_reports() {
    assert_eq!(
        lines(check_contra("(P & ~P)")),
        vec![
            out(""),
            out(&format!(" (P ∧ ¬P) {EMPH}is a contradiction{RESET}")),
            out("")
        ]
    );
    assert_eq!(
        lines(check_contra("(P & Q)")),
        vec![
            out(""),
            out(&format!(" {EMPH} not a contradiction, true when {RESET} P=T, Q=T")),
            out("")
        ]
    );
    assert_eq!(lines(check_contra("")), vec![out(" usage :contra <formula>")]);
}

#[test]
fn entail_reports() {
    assert_eq!(
        lines(check_entail("(~L -> (J | L)), ~L |= J")),
        vec![out(""), out(&format!("{EMPH} entails.{RESET}")), out("")]
    );
    assert_eq!(
        lines(check_entail("(P -> Q), Q |= P")),
        vec![
            out(""),
            out(&format!(" {EMPH} does not entail: {RESET} P=F, Q=T")),
            out("")
        ]
    );
}

#[test]
fn entail_usage_and_errors() {
    assert_eq!(
        lines(check_entail("P, Q")),
        vec![err(" usage: :entails p1, p2 |= conclusion")]
    );
    assert_eq!(
        lines(check_entail("P, q, , Q |= (P")),
        vec![
            err(" premise error: lex error: unexpected character 'q'"),
            err(" conclusion error: parser error: expected a formula, but input ended")
        ]
    );
    // a premise that does not read is left out
    assert_eq!(
        lines(check_entail("q, P |= P")),
        vec![
            err(" premise error: lex error: unexpected character 'q'"),
            out(""),
            out(&format!("{EMPH} entails.{RESET}")),
            out("")
        ]
    );
}

#[test]
fn formula_lines_print_truth_table() {
    assert_eq!(
        lines(run_formula("(P | ~P)")),
        vec![
            out(" (P ∨ ¬P)"),
            out(" P=T  result: true"),
            out(" P=F  result: true"),
            out(" tautology.")
        ]
    );
    assert_eq!(
        lines(run_formula("(P & ~P)")),
        vec![
            out(" (P ∧ ¬P)"),
            out(" P=T  result: false"),
            out(" P=F  result: false"),
            out(" contradiction.")
        ]
    );
    assert_eq!(
        lines(run_formula("(P -> Q)")),
        vec![
            out(" (P →  Q)"),
            out(" P=T, Q=T  result: true"),
            out(" P=F, Q=T  result: true"),
            out(" P=T, Q=F  result: false"),
            out(" P=F, Q=F  result: true"),
            out(" contingent.")
        ]
    );
    assert_eq!(
        lines(run_formula("P Q")),
        vec![err(" parser error: unexpected token after formula: Q")]
    );
}

#[test]
fn commands_dispatch() {
    assert!(matches!(run_command("help"), Response::Help));
    assert!(matches!(run_command("quit"), Response::Quit));
    assert_eq!(lines(run_command("nope now")), vec![out(" unknown command: nope")]);
    assert_eq!(
        lines(run_command("taut   (P | ~P)  ")),
        vec![
            out(""),
            out(&format!(" (P ∨ ¬P) {EMPH}is a tautology{RESET}")),
            out("")
        ]
    );
    assert_eq!(lines(run_command("taut")), vec![out(" usage: :taut <formula>")]);
    assert_eq!(
        lines(run_command("entails P |= P")),
        vec![out(""), out(&format!("{EMPH} entails.{RESET}")), out("")]
    );
    assert_eq!(
        lines(run_command("entail P |= P")),
        vec![out(""), out(&format!("{EMPH} entails.{RESET}")), out("")]
    );
}

#[test]
fn lines_are_classified() {
    assert_eq!(lines(process_line("")), vec![]);
    assert!(matches!(process_line(":help"), Response::Help));
    assert!(matches!(process_line(":quit"), Response::Quit));
    assert_eq!(
        lines(process_line("P")),
        vec![
            out(" P"),
            out(" P=T  result: true"),
            out(" P=F  result: false"),
            out(" contingent.")
        ]
    );
}

#[test]
fn too_many_atoms() {
    let big: Vec<String> = (0..31).map(|i| format!("A{i}")).collect();
    let mut text = big[0].clone();
    for a in &big[1..] {
        text = format!("({text} & {a})");
    }
    assert!(matches!(run_formula(&text), Response::TooManyAtoms));
    assert!(matches!(check_taut(&text), Response::TooManyAtoms));
}

#[test]
fn equiv_reports() {
    assert_eq!(
        lines(check_equiv("(P -> Q), (~P | Q)")),
        vec![
            out(""),
            out(&format!(" (P →  Q) {EMPH}is equivalent to{RESET} (¬P ∨ Q)")),
            out("")
        ]
    );
    assert_eq!(
        lines(check_equiv("P, Q")),
        vec![
            out(""),
            out(&format!(" {EMPH} not equivalent, they differ when {RESET} P=F, Q=T")),
            out("")
        ]
    );
    assert_eq!(
        lines(check_equiv("(P & Q)")),
        vec![err(" usage: :equiv <formula>, <formula>")]
    );
    assert_eq!(
        lines(check_equiv("P, (Q")),
        vec![err(" parser error: expected a formula, but input ended")]
    );
    assert_eq!(
        lines(run_command("equiv ~~P, P")),
        vec![
            out(""),
            out(&format!(" ¬¬P {EMPH}is equivalent to{RESET} P")),
            out("")
        ]
    );
}
