//! The assembler's front end: from program text to tokens.
//!
//! A program is line-oriented text. Tokens are separated by whitespace, a
//! `;` starts a comment that runs to the end of its line, and a `:` ends
//! the definition of a label. A word that is a mnemonic is an instruction,
//! the words `a`, `x`, `y` and `z` are registers, a word that starts with a
//! digit is a number, and any other word is a label.

pub mod lexer;
pub mod location;
pub mod parser;
pub mod report;
