use vstd::prelude::*;

use crate::lexer::{LexError, lex, tokenize};
use crate::parser::{Formula, FormulaV, ParseError, ParseErrorV, Parser, parse_tokens};

verus! {

/// Why a source text is not a sentence: it could not be lexed, or not parsed.
#[derive(Debug, PartialEq)]
pub enum PipelineError {
    Lex(LexError),
    Parse(ParseError),
}

pub enum PipelineErrorV {
    Lex(LexError),
    Parse(ParseErrorV),
}

impl View for PipelineError {
    type V = PipelineErrorV;

    open spec fn view(&self) -> PipelineErrorV {
        match self {
            PipelineError::Lex(e) => PipelineErrorV::Lex(*e),
            PipelineError::Parse(e) => PipelineErrorV::Parse(e@),
        }
    }
}

impl From<LexError> for PipelineError {
    fn from(value: LexError) -> (r: PipelineError)
        ensures
            r == PipelineError::Lex(value),
    {
        PipelineError::Lex(value)
    }
}

impl vstd::std_specs::convert::FromSpecImpl<LexError> for PipelineError {
    open spec fn obeys_from_spec() -> bool {
        true
    }

    open spec fn from_spec(v: LexError) -> PipelineError {
        PipelineError::Lex(v)
    }
}

impl From<ParseError> for PipelineError {
    fn from(value: ParseError) -> (r: PipelineError)
        ensures
            r == PipelineError::Parse(value),
    {
        PipelineError::Parse(value)
    }
}

impl vstd::std_specs::convert::FromSpecImpl<ParseError> for PipelineError {
    open spec fn obeys_from_spec() -> bool {
        true
    }

    open spec fn from_spec(v: ParseError) -> PipelineError {
        PipelineError::Parse(v)
    }
}

/// The sentence that a source text denotes, or why it denotes none.
pub open spec fn read(s: Seq<char>) -> Result<FormulaV, PipelineErrorV> {
    match lex(s) {
        Err(e) => Err(PipelineErrorV::Lex(e)),
        Ok(ts) => match parse_tokens(ts).0 {
            Ok(f) => Ok(f),
            Err(e) => Err(PipelineErrorV::Parse(e)),
        },
    }
}

pub open spec fn read_result_view(r: Result<Formula, PipelineError>) -> Result<
    FormulaV,
    PipelineErrorV,
> {
    match r {
        Ok(f) => Ok(f@),
        Err(e) => Err(e@),
    }
}

/// Lexes and parses a source text as one sentence.
pub fn parse_source(source: &str) -> (r: Result<Formula, PipelineError>)
    ensures
        read_result_view(r) == read(source@),
{
    let tokens = match tokenize(source) {
        Ok(ts) => ts,
        Err(e) => {
            return Err(PipelineError::Lex(e));
        },
    };
    let mut parser = Parser::new(tokens);
    match parser.parse() {
        Ok(f) => Ok(f),
        Err(e) => Err(PipelineError::Parse(e)),
    }
}

} // verus!
