use vstd::prelude::*;

use vstd::string::StringExecFns;

use crate::lexer::{LexError, Token, TokenV, push_char};
use crate::parser::{Formula, FormulaV, ParseError, ParseErrorV};
use crate::pipeline::{PipelineError, PipelineErrorV};

verus! {

/// The text between the two sides of a binary connective: the book's symbol with
/// spaces around it.
pub open spec fn connective_text(f: FormulaV) -> Seq<char> {
    match f {
        FormulaV::And(_, _) => seq![' ', '\u{2227}', ' '],
        FormulaV::Or(_, _) => seq![' ', '\u{2228}', ' '],
        FormulaV::Implies(_, _) => seq![' ', '\u{2192}', ' ', ' '],
        FormulaV::Iff(_, _) => seq![' ', '\u{2194}', ' ', ' '],
        _ => seq![],
    }
}

/// The canonical text of a sentence, in the book's notation: `¬` before a negated
/// sentence, and every binary connective inside its own pair of parentheses.
pub open spec fn show(f: FormulaV) -> Seq<char>
    decreases f,
{
    match f {
        FormulaV::Atom(n) => n,
        FormulaV::Not(a) => seq!['\u{ac}'] + show(*a),
        FormulaV::And(l, r) => seq!['('] + show(*l) + connective_text(f) + show(*r) + seq![')'],
        FormulaV::Or(l, r) => seq!['('] + show(*l) + connective_text(f) + show(*r) + seq![')'],
        FormulaV::Implies(l, r) => seq!['('] + show(*l) + connective_text(f) + show(*r) + seq![
            ')',
        ],
        FormulaV::Iff(l, r) => seq!['('] + show(*l) + connective_text(f) + show(*r) + seq![')'],
    }
}

pub(crate) fn push_str_chars(out: &mut String, s: &String)
    ensures
        final(out)@ == old(out)@ + s@,
{
    let cs = crate::lexer::chars_of(s.as_str());
    let ghost start = out@;
    let mut i: usize = 0;
    while i < cs.len()
        invariant
            i <= cs@.len(),
            cs@ == s@,
            out@ == start + cs@.take(i as int),
        decreases cs@.len() - i,
    {
        push_char(out, cs[i]);
        i = i + 1;
        assert(out@ =~= start + cs@.take(i as int));
    }
    assert(cs@.take(i as int) =~= s@);
}

fn push_connective(out: &mut String, f: &Formula)
    ensures
        final(out)@ == old(out)@ + connective_text(f@),
{
    let ghost start = out@;
    match f {
        Formula::And(_, _) => {
            push_char(out, ' ');
            push_char(out, '\u{2227}');
            push_char(out, ' ');
        },
        Formula::Or(_, _) => {
            push_char(out, ' ');
            push_char(out, '\u{2228}');
            push_char(out, ' ');
        },
        Formula::Implies(_, _) => {
            push_char(out, ' ');
            push_char(out, '\u{2192}');
            push_char(out, ' ');
            push_char(out, ' ');
        },
        Formula::Iff(_, _) => {
            push_char(out, ' ');
            push_char(out, '\u{2194}');
            push_char(out, ' ');
            push_char(out, ' ');
        },
        _ => {},
    }
    assert(out@ =~= start + connective_text(f@));
}

fn write_formula(f: &Formula, out: &mut String)
    ensures
        final(out)@ == old(out)@ + show(f@),
    decreases f,
{
    let ghost start = out@;
    match f {
        Formula::Atom(name) => {
            push_str_chars(out, name);
        },
        Formula::Not(inner) => {
            push_char(out, '\u{ac}');
            write_formula(inner, out);
            assert(out@ =~= start + show(f@));
        },
        Formula::And(l, r) | Formula::Or(l, r) | Formula::Implies(l, r) | Formula::Iff(l, r) => {
            push_char(out, '(');
            write_formula(l, out);
            push_connective(out, f);
            write_formula(r, out);
            push_char(out, ')');
            assert(out@ =~= start + show(f@));
        },
    }
}

impl Formula {
    /// The canonical text of the sentence.
    pub fn to_string(&self) -> (s: String)
        ensures
            s@ == show(self@),
    {
        let mut out = String::new();
        write_formula(self, &mut out);
        assert(out@ =~= show(self@));
        out
    }
}


/// How a token is written in messages: its symbol in the book's notation.
pub open spec fn token_text(t: TokenV) -> Seq<char> {
    match t {
        TokenV::LeftParen => seq!['('],
        TokenV::RightParen => seq![')'],
        TokenV::Atom(n) => n,
        TokenV::And => seq!['\u{2227}'],
        TokenV::Or => seq!['\u{2228}'],
        TokenV::Iff => seq!['\u{2194}'],
        TokenV::Implies => seq!['\u{2192}'],
        TokenV::Not => seq!['\u{ac}'],
    }
}

pub open spec fn lex_error_text(e: LexError) -> Seq<char> {
    match e {
        LexError::Unexpected(c) => "unexpected character '"@ + seq![c] + "'"@,
        LexError::Incomplete { expected, found: Some(c) } => "expected "@ + expected@ + ", found '"@
            + seq![c] + "'"@,
        LexError::Incomplete { expected, found: None } => "expected "@ + expected@
            + ", but input ended"@,
    }
}

pub open spec fn parse_error_text(e: ParseErrorV) -> Seq<char> {
    match e {
        ParseErrorV::Expected { want, found: Some(t) } => "want "@ + token_text(want) + ", found "@
            + token_text(t),
        ParseErrorV::Expected { want, found: None } => "want "@ + token_text(want)
            + ", found nothing"@,
        ParseErrorV::UnexpectedStart(Some(t)) => "expected a formula, found "@ + token_text(t),
        ParseErrorV::UnexpectedStart(None) => "expected a formula, but input ended"@,
        ParseErrorV::ExpectedConnective(Some(t)) => "expected a connective, found "@ + token_text(t),
        ParseErrorV::ExpectedConnective(None) => "expected a connective, but input ended"@,
        ParseErrorV::TrailingTokens(t) => "unexpected token after formula: "@ + token_text(t),
    }
}

pub open spec fn pipeline_error_text(e: PipelineErrorV) -> Seq<char> {
    match e {
        PipelineErrorV::Lex(e) => "lex error: "@ + lex_error_text(e),
        PipelineErrorV::Parse(e) => "parser error: "@ + parse_error_text(e),
    }
}

fn push_token(out: &mut String, t: &Token)
    ensures
        final(out)@ == old(out)@ + token_text(t@),
{
    let ghost start = out@;
    match t {
        Token::LeftParen => push_char(out, '('),
        Token::RightParen => push_char(out, ')'),
        Token::Atom(n) => push_str_chars(out, n),
        Token::And => push_char(out, '\u{2227}'),
        Token::Or => push_char(out, '\u{2228}'),
        Token::Iff => push_char(out, '\u{2194}'),
        Token::Implies => push_char(out, '\u{2192}'),
        Token::Not => push_char(out, '\u{ac}'),
    }
    assert(out@ =~= start + token_text(t@));
}

impl Token {
    /// The token's symbol in the book's notation.
    pub fn to_string(&self) -> (s: String)
        ensures
            s@ == token_text(self@),
    {
        let mut out = String::new();
        push_token(&mut out, self);
        assert(out@ =~= token_text(self@));
        out
    }
}

fn push_lex_error(out: &mut String, e: &LexError)
    ensures
        final(out)@ == old(out)@ + lex_error_text(*e),
{
    let ghost start = out@;
    match e {
        LexError::Unexpected(c) => {
            out.append("unexpected character '");
            push_char(out, *c);
            out.append("'");
        },
        LexError::Incomplete { expected, found: Some(c) } => {
            out.append("expected ");
            out.append(expected);
            out.append(", found '");
            push_char(out, *c);
            out.append("'");
        },
        LexError::Incomplete { expected, found: None } => {
            out.append("expected ");
            out.append(expected);
            out.append(", but input ended");
        },
    }
    assert(out@ =~= start + lex_error_text(*e));
}

impl LexError {
    /// The message that describes the error.
    pub fn to_string(&self) -> (s: String)
        ensures
            s@ == lex_error_text(*self),
    {
        let mut out = String::new();
        push_lex_error(&mut out, self);
        assert(out@ =~= lex_error_text(*self));
        out
    }
}

fn push_parse_error(out: &mut String, e: &ParseError)
    ensures
        final(out)@ == old(out)@ + parse_error_text(e@),
{
    let ghost start = out@;
    match e {
        ParseError::Expected { want, found: Some(t) } => {
            out.append("want ");
            push_token(out, want);
            out.append(", found ");
            push_token(out, t);
        },
        ParseError::Expected { want, found: None } => {
            out.append("want ");
            push_token(out, want);
            out.append(", found nothing");
        },
        ParseError::UnexpectedStart(Some(t)) => {
            out.append("expected a formula, found ");
            push_token(out, t);
        },
        ParseError::UnexpectedStart(None) => {
            out.append("expected a formula, but input ended");
        },
        ParseError::ExpectedConnective(Some(t)) => {
            out.append("expected a connective, found ");
            push_token(out, t);
        },
        ParseError::ExpectedConnective(None) => {
            out.append("expected a connective, but input ended");
        },
        ParseError::TrailingTokens(t) => {
            out.append("unexpected token after formula: ");
            push_token(out, t);
        },
    }
    assert(out@ =~= start + parse_error_text(e@));
}

impl ParseError {
    /// The message that describes the error.
    pub fn to_string(&self) -> (s: String)
        ensures
            s@ == parse_error_text(self@),
    {
        let mut out = String::new();
        push_parse_error(&mut out, self);
        assert(out@ =~= parse_error_text(self@));
        out
    }
}

pub(crate) fn push_pipeline_error(out: &mut String, e: &PipelineError)
    ensures
        final(out)@ == old(out)@ + pipeline_error_text(e@),
{
    let ghost start = out@;
    match e {
        PipelineError::Lex(e) => {
            out.append("lex error: ");
            push_lex_error(out, e);
        },
        PipelineError::Parse(e) => {
            out.append("parser error: ");
            push_parse_error(out, e);
        },
    }
    assert(out@ =~= start + pipeline_error_text(e@));
}

impl PipelineError {
    /// The message that describes the error.
    pub fn to_string(&self) -> (s: String)
        ensures
            s@ == pipeline_error_text(self@),
    {
        let mut out = String::new();
        push_pipeline_error(&mut out, self);
        assert(out@ =~= pipeline_error_text(self@));
        out
    }
}

} // verus!
