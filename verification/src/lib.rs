//! A pattern-matching engine for token streams: a grammar of nested patterns
//! is matched against a forkable stream of tokens and yields a capture tree,
//! with the named captures bound in an output of the caller's.
pub mod capture;
pub mod error;
pub mod grammar;
pub mod laws;
pub mod matcher;
pub mod matching;
pub mod parse;
pub mod parsers;
pub mod pattern;
pub mod raw;
pub mod span;
pub mod stream;
pub mod thing;
pub mod tokens;

pub use capture::Match;
pub use error::{Level, MacrosError, ParseError, ParseErrorKind};
pub use parse::Parse;
pub use pattern::{Empty, ParserInput, ParserOutput, Pattern};
pub use proc_macro2::Span;
pub use raw::RawToken;
pub use span::call_site;
pub use stream::MacroStream;
pub use thing::TestParser;
pub use tokens::{Delimiter, LiteralKind, Spacing, Token};
