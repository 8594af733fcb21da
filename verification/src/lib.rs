//! Front end of a small scripting-language toolchain: a lexical scanner that
//! turns raw source text into a stream of typed tokens, and an expression
//! tree with a fully parenthesized textual printer.

pub mod ast;
pub mod scanner;
pub mod tokens;
