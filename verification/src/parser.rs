use vstd::prelude::*;
use vstd::string::StringExecFns;

use crate::lexer::{Token, TokenV, tokens_view};

verus! {

/// A sentence of truth-functional logic.
#[derive(Debug, PartialEq)]
pub enum Formula {
    Atom(String),
    Not(Box<Formula>),
    And(Box<Formula>, Box<Formula>),
    Or(Box<Formula>, Box<Formula>),
    Implies(Box<Formula>, Box<Formula>),
    Iff(Box<Formula>, Box<Formula>),
}

/// The mathematical value of a sentence: an atom is its sequence of characters.
pub enum FormulaV {
    Atom(Seq<char>),
    Not(Box<FormulaV>),
    And(Box<FormulaV>, Box<FormulaV>),
    Or(Box<FormulaV>, Box<FormulaV>),
    Implies(Box<FormulaV>, Box<FormulaV>),
    Iff(Box<FormulaV>, Box<FormulaV>),
}

pub open spec fn formula_view(f: Formula) -> FormulaV
    decreases f,
{
    match f {
        Formula::Atom(name) => FormulaV::Atom(name@),
        Formula::Not(a) => FormulaV::Not(Box::new(formula_view(*a))),
        Formula::And(l, r) => FormulaV::And(Box::new(formula_view(*l)), Box::new(formula_view(*r))),
        Formula::Or(l, r) => FormulaV::Or(Box::new(formula_view(*l)), Box::new(formula_view(*r))),
        Formula::Implies(l, r) => FormulaV::Implies(
            Box::new(formula_view(*l)),
            Box::new(formula_view(*r)),
        ),
        Formula::Iff(l, r) => FormulaV::Iff(Box::new(formula_view(*l)), Box::new(formula_view(*r))),
    }
}

impl View for Formula {
    type V = FormulaV;

    open spec fn view(&self) -> FormulaV {
        formula_view(*self)
    }
}

impl Formula {
    /// An atomic sentence with the given name.
    pub fn atom(name: &str) -> (f: Formula)
        ensures
            f@ == FormulaV::Atom(name@),
    {
        Formula::Atom(String::from_str(name))
    }

    /// The negation of `f`.
    pub fn not(f: Formula) -> (r: Formula)
        ensures
            r@ == FormulaV::Not(Box::new(f@)),
    {
        Formula::Not(Box::new(f))
    }

    /// The conjunction of `l` and `r`.
    pub fn and(l: Formula, r: Formula) -> (f: Formula)
        ensures
            f@ == FormulaV::And(Box::new(l@), Box::new(r@)),
    {
        Formula::And(Box::new(l), Box::new(r))
    }

    /// The disjunction of `l` and `r`.
    pub fn or(l: Formula, r: Formula) -> (f: Formula)
        ensures
            f@ == FormulaV::Or(Box::new(l@), Box::new(r@)),
    {
        Formula::Or(Box::new(l), Box::new(r))
    }

    /// The conditional with antecedent `l` and consequent `r`.
    pub fn implies(l: Formula, r: Formula) -> (f: Formula)
        ensures
            f@ == FormulaV::Implies(Box::new(l@), Box::new(r@)),
    {
        Formula::Implies(Box::new(l), Box::new(r))
    }

    /// The biconditional of `l` and `r`.
    pub fn iff(l: Formula, r: Formula) -> (f: Formula)
        ensures
            f@ == FormulaV::Iff(Box::new(l@), Box::new(r@)),
    {
        Formula::Iff(Box::new(l), Box::new(r))
    }
}

/// Why a sequence of tokens is not a sentence.
#[derive(Debug, Clone, PartialEq)]
pub enum ParseError {
    Expected { want: Token, found: Option<Token> },
    UnexpectedStart(Option<Token>),
    ExpectedConnective(Option<Token>),
    TrailingTokens(Token),
}

pub enum ParseErrorV {
    Expected { want: TokenV, found: Option<TokenV> },
    UnexpectedStart(Option<TokenV>),
    ExpectedConnective(Option<TokenV>),
    TrailingTokens(TokenV),
}

pub open spec fn token_opt_view(t: Option<Token>) -> Option<TokenV> {
    match t {
        Some(t) => Some(t@),
        None => None,
    }
}

impl View for ParseError {
    type V = ParseErrorV;

    open spec fn view(&self) -> ParseErrorV {
        match self {
            ParseError::Expected { want, found } => ParseErrorV::Expected {
                want: want@,
                found: token_opt_view(*found),
            },
            ParseError::UnexpectedStart(t) => ParseErrorV::UnexpectedStart(token_opt_view(*t)),
            ParseError::ExpectedConnective(t) => ParseErrorV::ExpectedConnective(token_opt_view(*t)),
            ParseError::TrailingTokens(t) => ParseErrorV::TrailingTokens(t@),
        }
    }
}

pub open spec fn parse_result_view(r: Result<Formula, ParseError>) -> Result<FormulaV, ParseErrorV> {
    match r {
        Ok(f) => Ok(f@),
        Err(e) => Err(e@),
    }
}

pub open spec fn first_token(ts: Seq<TokenV>) -> Option<TokenV> {
    if ts.len() > 0 {
        Some(ts[0])
    } else {
        None
    }
}

pub open spec fn after_first(ts: Seq<TokenV>) -> Seq<TokenV> {
    if ts.len() > 0 {
        ts.drop_first()
    } else {
        ts
    }
}

/// The sentence that a connective token builds from two sentences.
pub open spec fn connect(op: Option<TokenV>, l: FormulaV, r: FormulaV) -> Option<FormulaV> {
    match op {
        Some(TokenV::And) => Some(FormulaV::And(Box::new(l), Box::new(r))),
        Some(TokenV::Or) => Some(FormulaV::Or(Box::new(l), Box::new(r))),
        Some(TokenV::Implies) => Some(FormulaV::Implies(Box::new(l), Box::new(r))),
        Some(TokenV::Iff) => Some(FormulaV::Iff(Box::new(l), Box::new(r))),
        _ => None,
    }
}

/// Reads one sentence from the front of `ts` by the book's grammar: an atom, `¬`
/// followed by a sentence, or `(` sentence connective sentence `)`. Returns the
/// sentence or the first error, and the tokens not consumed.
pub open spec fn sentence(ts: Seq<TokenV>) -> (Result<FormulaV, ParseErrorV>, Seq<TokenV>)
    decreases ts.len(),
{
    if ts.len() == 0 {
        (Err(ParseErrorV::UnexpectedStart(None)), ts)
    } else {
        let rest = ts.drop_first();
        match ts[0] {
            TokenV::Atom(name) => (Ok(FormulaV::Atom(name)), rest),
            TokenV::Not => {
                let (inner, r) = sentence(rest);
                match inner {
                    Ok(f) => (Ok(FormulaV::Not(Box::new(f))), r),
                    Err(e) => (Err(e), r),
                }
            },
            TokenV::LeftParen => {
                let (lres, r1) = sentence(rest);
                match lres {
                    Err(e) => (Err(e), r1),
                    Ok(left) => {
                        if r1.len() >= ts.len() {
                            // never taken: a sentence consumes at least one token
                            (Err(ParseErrorV::UnexpectedStart(None)), r1)
                        } else {
                            let op = first_token(r1);
                            let (rres, r3) = sentence(after_first(r1));
                            match rres {
                                Err(e) => (Err(e), r3),
                                Ok(right) => {
                                    let closing = first_token(r3);
                                    let r4 = after_first(r3);
                                    if closing != Some(TokenV::RightParen) {
                                        (
                                            Err(
                                                ParseErrorV::Expected {
                                                    want: TokenV::RightParen,
                                                    found: closing,
                                                },
                                            ),
                                            r4,
                                        )
                                    } else {
                                        match connect(op, left, right) {
                                            Some(f) => (Ok(f), r4),
                                            None => (Err(ParseErrorV::ExpectedConnective(op)), r4),
                                        }
                                    }
                                },
                            }
                        }
                    },
                }
            },
            other => (Err(ParseErrorV::UnexpectedStart(Some(other))), rest),
        }
    }
}

/// Reading a sentence consumes at least one token of a nonempty input.
pub proof fn lemma_sentence_consumes(ts: Seq<TokenV>)
    ensures
        ts.len() > 0 ==> sentence(ts).1.len() < ts.len(),
        ts.len() == 0 ==> sentence(ts).1 == ts,
    decreases ts.len(),
{
    if ts.len() > 0 {
        let rest = ts.drop_first();
        lemma_sentence_consumes(rest);
        if ts[0] == TokenV::LeftParen {
            let r1 = sentence(rest).1;
            if sentence(rest).0 is Ok && r1.len() < ts.len() {
                lemma_sentence_consumes(after_first(r1));
            }
        }
    }
}

/// A whole token sequence read as one sentence: what `Parser::parse` computes,
/// with the tokens left unconsumed.
pub open spec fn parse_tokens(ts: Seq<TokenV>) -> (Result<FormulaV, ParseErrorV>, Seq<TokenV>) {
    let (r, rest) = sentence(ts);
    match r {
        Err(e) => (Err(e), rest),
        Ok(f) => if rest.len() == 0 {
            (Ok(f), rest)
        } else {
            (Err(ParseErrorV::TrailingTokens(rest[0])), rest.drop_first())
        },
    }
}

/// A recursive-descent parser over a sequence of tokens.
pub struct Parser {
    // the tokens not read yet, last one first
    tokens: Vec<Token>,
}

pub open spec fn expected_error(r: Result<(), ParseError>, want: TokenV, found: Option<TokenV>) -> bool {
    match r {
        Err(e) => e@ == (ParseErrorV::Expected { want: want, found: found }),
        Ok(_) => false,
    }
}

fn same_token(a: &Token, b: &Token) -> (r: bool)
    ensures
        r == (a@ == b@),
{
    match (a, b) {
        (Token::LeftParen, Token::LeftParen) => true,
        (Token::RightParen, Token::RightParen) => true,
        (Token::Atom(x), Token::Atom(y)) => *x == *y,
        (Token::And, Token::And) => true,
        (Token::Or, Token::Or) => true,
        (Token::Iff, Token::Iff) => true,
        (Token::Implies, Token::Implies) => true,
        (Token::Not, Token::Not) => true,
        _ => false,
    }
}

impl Parser {
    /// The tokens that have not been read yet, in order.
    pub closed spec fn rest(&self) -> Seq<TokenV> {
        tokens_view(self.tokens@.reverse())
    }

    /// A parser that reads the given tokens from the first on.
    pub fn new(tokens: Vec<Token>) -> (p: Parser)
        ensures
            p.rest() == tokens_view(tokens@),
    {
        let ghost all = tokens@;
        let mut src = tokens;
        let mut rev: Vec<Token> = Vec::new();
        while src.len() > 0
            invariant
                all == src@ + rev@.reverse(),
            decreases src@.len(),
        {
            let ghost before_src = src@;
            let ghost before_rev = rev@;
            let t = src.pop().unwrap();
            rev.push(t);
            assert(rev@.reverse() =~= seq![t] + before_rev.reverse());
            assert(before_src =~= src@ + seq![t]);
            assert(all =~= src@ + rev@.reverse());
        }
        assert(all =~= rev@.reverse());
        Parser { tokens: rev }
    }

    fn advance(&mut self) -> (t: Option<Token>)
        ensures
            token_opt_view(t) == first_token(old(self).rest()),
            final(self).rest() == after_first(old(self).rest()),
    {
        let ghost before = self.tokens@;
        let t = self.tokens.pop();
        proof {
            if before.len() > 0 {
                assert(before.reverse()[0] == before.last());
                assert(self.tokens@.reverse() =~= before.reverse().drop_first());
                assert(tokens_view(self.tokens@.reverse()) =~= tokens_view(before.reverse()).drop_first());
            }
        }
        t
    }

    fn expect(&mut self, want: Token) -> (r: Result<(), ParseError>)
        ensures
            final(self).rest() == after_first(old(self).rest()),
            first_token(old(self).rest()) == Some(want@) ==> r is Ok,
            first_token(old(self).rest()) != Some(want@) ==> expected_error(r, want@, first_token(old(self).rest())),
    {
        let found = self.advance();
        match found {
            Some(t) => {
                if same_token(&t, &want) {
                    Ok(())
                } else {
                    Err(ParseError::Expected { want, found: Some(t) })
                }
            },
            None => Err(ParseError::Expected { want, found: None }),
        }
    }

    fn sentence(&mut self) -> (r: Result<Formula, ParseError>)
        ensures
            (parse_result_view(r), final(self).rest()) == sentence(old(self).rest()),
        decreases old(self).rest().len(),
    {
        let ghost ts = self.rest();
        proof {
            lemma_sentence_consumes(ts);
        }
        match self.advance() {
            Some(Token::Atom(name)) => Ok(Formula::Atom(name)),
            Some(Token::Not) => {
                match self.sentence() {
                    Ok(inner) => Ok(Formula::not(inner)),
                    Err(e) => Err(e),
                }
            },
            Some(Token::LeftParen) => {
                let ghost rest = self.rest();
                proof {
                    lemma_sentence_consumes(rest);
                }
                let left = match self.sentence() {
                    Ok(f) => f,
                    Err(e) => {
                        return Err(e);
                    },
                };
                let op = self.advance();
                let right = match self.sentence() {
                    Ok(f) => f,
                    Err(e) => {
                        return Err(e);
                    },
                };
                match self.expect(Token::RightParen) {
                    Ok(()) => {},
                    Err(e) => {
                        return Err(e);
                    },
                }
                match op {
                    Some(Token::And) => Ok(Formula::and(left, right)),
                    Some(Token::Or) => Ok(Formula::or(left, right)),
                    Some(Token::Implies) => Ok(Formula::implies(left, right)),
                    Some(Token::Iff) => Ok(Formula::iff(left, right)),
                    found => Err(ParseError::ExpectedConnective(found)),
                }
            },
            found => Err(ParseError::UnexpectedStart(found)),
        }
    }

    /// Reads the whole remaining input as one sentence: fails if it is not a
    /// sentence or if tokens are left after it.
    pub fn parse(&mut self) -> (r: Result<Formula, ParseError>)
        ensures
            (parse_result_view(r), final(self).rest()) == parse_tokens(old(self).rest()),
    {
        let formula = match self.sentence() {
            Ok(f) => f,
            Err(e) => {
                return Err(e);
            },
        };
        match self.advance() {
            None => Ok(formula),
            Some(t) => Err(ParseError::TrailingTokens(t)),
        }
    }
}

} // verus!
