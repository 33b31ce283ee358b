use tfl::lexer::{tokenize, Token};
use tfl::parser::{Formula, ParseError, Parser};
use tfl::pipeline::{parse_source, PipelineError};

use tfl::parser::Formula as F;

const LONG_TFL_SENTENCE: &str = "(((P →  Q) ∧ ¬R) ∧ (Q ∨ R))";

#[test]
fn prints_implies_with_negation() {
    let f = F::implies(F::atom("P"), F::not(F::atom("Q")));
    assert_eq!(f.to_string(), "(P →  ¬Q)")
}

#[test]
fn prints_double_negation() {
    let f = F::not(F::not(F::atom("A")));
    assert_eq!(f.to_string(), "¬¬A")
}

#[test]
fn prints_nested_binary() {
    let f = F::and(
        F::and(F::implies(F::atom("P"), F::atom("Q")), F::not(F::atom("R"))),
        F::or(F::atom("Q"), F::atom("R")),
    );
    assert_eq!(f.to_string(), LONG_TFL_SENTENCE)
}

#[test]
fn lexer_and_parser_compose() {
    let tokens = tokenize("(P -> ~Q)").unwrap();
    let tree = Parser::new(tokens).parse().unwrap();
    assert_eq!(tree, F::implies(F::atom("P"), F::not(F::atom("Q"))));
}

#[test]
fn lexer_and_parser_compose_long() {
    let tokens = tokenize(LONG_TFL_SENTENCE).unwrap();
    let tree = Parser::new(tokens).parse().unwrap();
    assert_eq!(
        tree,
        F::and(
            F::and(F::implies(F::atom("P"), F::atom("Q")), F::not(F::atom("R"))),
            F::or(F::atom("Q"), F::atom("R")),
        )
    );
}

#[test]
fn prints_every_connective() {
    assert_eq!(F::or(F::atom("P"), F::atom("Q")).to_string(), "(P ∨ Q)");
    assert_eq!(F::iff(F::atom("P"), F::atom("Q")).to_string(), "(P ↔  Q)");
    assert_eq!(F::atom("S1").to_string(), "S1");
}

#[test]
fn printed_text_reads_back() {
    let f = F::iff(
        F::or(F::atom("A1"), F::not(F::atom("B"))),
        F::implies(F::atom("C"), F::and(F::atom("A1"), F::atom("D22"))),
    );
    let text = f.to_string();
    assert_eq!(parse_source(&text), Ok(f));
}

#[test]
fn read_print_read_is_canonical() {
    let f = parse_source("((P->Q)<->(~Q -> !P)) -- contraposition").unwrap();
    let text = f.to_string();
    assert_eq!(text, "((P →  Q) ↔  (¬Q →  ¬P))");
    assert_eq!(parse_source(&text), Ok(f));
}

#[test]
fn missing_closing_paren() {
    let mut p = Parser::new(tokenize("(P & Q").unwrap());
    assert_eq!(
        p.parse(),
        Err(ParseError::Expected {
            want: Token::RightParen,
            found: None
        })
    );
    let mut p = Parser::new(tokenize("(P & Q R").unwrap());
    assert_eq!(
        p.parse(),
        Err(ParseError::Expected {
            want: Token::RightParen,
            found: Some(Token::Atom("R".into()))
        })
    );
}

#[test]
fn unexpected_start() {
    let mut p = Parser::new(vec![]);
    assert_eq!(p.parse(), Err(ParseError::UnexpectedStart(None)));
    let mut p = Parser::new(tokenize(")").unwrap());
    assert_eq!(
        p.parse(),
        Err(ParseError::UnexpectedStart(Some(Token::RightParen)))
    );
    let mut p = Parser::new(tokenize("(P &").unwrap());
    assert_eq!(p.parse(), Err(ParseError::UnexpectedStart(None)));
}

#[test]
fn expected_connective() {
    let mut p = Parser::new(tokenize("(P ~ Q)").unwrap());
    assert_eq!(
        p.parse(),
        Err(ParseError::ExpectedConnective(Some(Token::Not)))
    );
}

#[test]
fn ambiguous_conjunction_is_refused() {
    // every binary connective needs its own parentheses
    let mut p = Parser::new(tokenize("P & Q").unwrap());
    assert_eq!(p.parse(), Err(ParseError::TrailingTokens(Token::And)));
    assert_eq!(
        parse_source("(P & Q & R)"),
        Err(PipelineError::Parse(ParseError::Expected {
            want: Token::RightParen,
            found: Some(Token::And)
        }))
    );
}

#[test]
fn pipeline_reports_lex_errors_first() {
    assert_eq!(
        parse_source("(P & q)"),
        Err(PipelineError::Lex(tfl::lexer::LexError::Unexpected('q')))
    );
}

#[test]
fn error_messages() {
    assert_eq!(
        ParseError::Expected {
            want: Token::RightParen,
            found: Some(Token::And)
        }
        .to_string(),
        "want ), found ∧"
    );
    assert_eq!(
        ParseError::Expected {
            want: Token::RightParen,
            found: None
        }
        .to_string(),
        "want ), found nothing"
    );
    assert_eq!(
        ParseError::UnexpectedStart(None).to_string(),
        "expected a formula, but input ended"
    );
    assert_eq!(
        ParseError::UnexpectedStart(Some(Token::Or)).to_string(),
        "expected a formula, found ∨"
    );
    assert_eq!(
        ParseError::ExpectedConnective(None).to_string(),
        "expected a connective, but input ended"
    );
    assert_eq!(
        ParseError::ExpectedConnective(Some(Token::Atom("P".into()))).to_string(),
        "expected a connective, found P"
    );
    assert_eq!(
        ParseError::TrailingTokens(Token::Iff).to_string(),
        "unexpected token after formula: ↔"
    );
    assert_eq!(
        parse_source("p").unwrap_err().to_string(),
        "lex error: unexpected character 'p'"
    );
    assert_eq!(
        parse_source("P Q").unwrap_err().to_string(),
        "parser error: unexpected token after formula: Q"
    );
}

#[test]
fn pipeline_error_from() {
    let e: PipelineError = tfl::lexer::LexError::Unexpected('x').into();
    assert_eq!(e, PipelineError::Lex(tfl::lexer::LexError::Unexpected('x')));
    let e: PipelineError = ParseError::UnexpectedStart(None).into();
    assert_eq!(e, PipelineError::Parse(ParseError::UnexpectedStart(None)));
}

#[allow(dead_code)]
fn unused(_: Formula) {}
