//! A lexical scanner for a small bracket-structured configuration language:
//! `#` section markers, `$` variable markers, round and curly brackets,
//! quoted strings, decimal numbers, `true` / `false` / `null`, bare ascii
//! words and `//` line comments.
//!
//! [`grammar`] states, as spec functions, which tokens (or which error) a text
//! yields; [`Scanner`] computes them and is proved to agree.
pub mod grammar;
pub mod laws;
pub mod literals;
pub mod scanner;
pub mod scanner_error;
mod text;
pub mod token;
pub mod token_type;

pub use literals::Literals;
pub use scanner::Scanner;
pub use scanner_error::ScannerError;
pub use token::Token;
pub use token_type::TokenType;
