pub mod lexer;
pub mod parser;
pub mod pipeline;
pub mod eval;
pub mod semantics;
pub mod printer;
pub mod roundtrip;
pub mod text;
pub mod repl;
pub mod answers;
