use tfl::lexer::{tokenize, LexError, Token};

#[test]
fn scans_unicode() {
    let t = tokenize("(P → Q ∧ ¬R)").unwrap();
    assert_eq!(
        t,
        vec![
            Token::LeftParen,
            Token::Atom("P".into()),
            Token::Implies,
            Token::Atom("Q".into()),
            Token::And,
            Token::Not,
            Token::Atom("R".into()),
            Token::RightParen
        ]
    );
}

#[test]
fn error_when_incomplete_biconditional() {
    let t = tokenize("(P <- Q)");
    assert_eq!(
        t,
        Err(LexError::Incomplete {
            expected: "'>' after '<-'",
            found: Some(' ')
        })
    );
}

#[test]
fn ascii_spellings_match_book_symbols() {
    assert_eq!(tokenize("(P -> Q)").unwrap(), tokenize("(P → Q)").unwrap());
    assert_eq!(tokenize("(P <-> Q)").unwrap(), tokenize("(P ↔ Q)").unwrap());
    assert_eq!(tokenize("~P").unwrap(), tokenize("¬P").unwrap());
    assert_eq!(tokenize("!P").unwrap(), tokenize("¬P").unwrap());
    assert_eq!(tokenize("(P & Q)").unwrap(), tokenize("(P ∧ Q)").unwrap());
    assert_eq!(tokenize("(P | Q)").unwrap(), tokenize("(P ∨ Q)").unwrap());
}

#[test]
fn atoms_take_trailing_digits() {
    assert_eq!(
        tokenize("S1 E22 P").unwrap(),
        vec![
            Token::Atom("S1".into()),
            Token::Atom("E22".into()),
            Token::Atom("P".into())
        ]
    );
    assert_eq!(
        tokenize("P1Q").unwrap(),
        vec![Token::Atom("P1".into()), Token::Atom("Q".into())]
    );
}

#[test]
fn comments_run_to_end_of_line() {
    assert_eq!(
        tokenize("P -- a remark\nQ").unwrap(),
        vec![Token::Atom("P".into()), Token::Atom("Q".into())]
    );
    assert_eq!(tokenize("-- only a remark").unwrap(), vec![]);
    assert_eq!(tokenize("").unwrap(), vec![]);
    assert_eq!(tokenize(" \t\n\u{3000}").unwrap(), vec![]);
}

#[test]
fn unexpected_character() {
    assert_eq!(tokenize("(p)"), Err(LexError::Unexpected('p')));
    assert_eq!(tokenize("P # Q"), Err(LexError::Unexpected('#')));
}

#[test]
fn incomplete_arrows() {
    assert_eq!(
        tokenize("P -"),
        Err(LexError::Incomplete {
            expected: "'>' after '-",
            found: None
        })
    );
    assert_eq!(
        tokenize("P -Q"),
        Err(LexError::Incomplete {
            expected: "'>' after '-",
            found: Some('Q')
        })
    );
    assert_eq!(
        tokenize("P <"),
        Err(LexError::Incomplete {
            expected: "'-' after '<'",
            found: None
        })
    );
    assert_eq!(
        tokenize("P <>"),
        Err(LexError::Incomplete {
            expected: "'-' after '<'",
            found: Some('>')
        })
    );
    assert_eq!(
        tokenize("P <-"),
        Err(LexError::Incomplete {
            expected: "'>' after '<-'",
            found: None
        })
    );
}

#[test]
fn lex_error_messages() {
    assert_eq!(
        LexError::Unexpected('#').to_string(),
        "unexpected character '#'"
    );
    assert_eq!(
        LexError::Incomplete {
            expected: "'>' after '<-'",
            found: Some(' ')
        }
        .to_string(),
        "expected '>' after '<-', found ' '"
    );
    assert_eq!(
        LexError::Incomplete {
            expected: "'-' after '<'",
            found: None
        }
        .to_string(),
        "expected '-' after '<', but input ended"
    );
}

#[test]
fn token_symbols() {
    assert_eq!(Token::LeftParen.to_string(), "(");
    assert_eq!(Token::RightParen.to_string(), ")");
    assert_eq!(Token::Atom("Q7".into()).to_string(), "Q7");
    assert_eq!(Token::And.to_string(), "∧");
    assert_eq!(Token::Or.to_string(), "∨");
    assert_eq!(Token::Implies.to_string(), "→");
    assert_eq!(Token::Iff.to_string(), "↔");
    assert_eq!(Token::Not.to_string(), "¬");
}

#[test]
fn respelling_anywhere_keeps_tokens() {
    let ascii = "((~P & !Q) | (R1 -> S)) <-> T -- note: -> stays in the comment\n~U";
    let mixed = "((¬P & ¬Q) ∨ (R1 → S)) ↔ T -- note: -> stays in the comment\n~U";
    assert_eq!(tokenize(ascii), tokenize(mixed));
    assert_eq!(tokenize("P ~ #"), tokenize("P ¬ #"));
}

#[test]
fn spelled_tokens_lex_back() {
    let ts = vec![
        Token::LeftParen,
        Token::Not,
        Token::Atom("Q1".into()),
        Token::Iff,
        Token::Atom("R".into()),
        Token::RightParen,
        Token::And,
        Token::Or,
        Token::Implies,
    ];
    let text: Vec<String> = ts.iter().map(|t| t.to_string()).collect();
    assert_eq!(tokenize(&text.join(" ")), Ok(ts));
}
