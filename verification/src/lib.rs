pub mod long_peekable;
pub mod longpeekable;
pub mod text;
pub mod lex;
pub mod scan;
pub mod pass;
pub mod parse;
pub mod cli;
