//! Parser for a plain-text chemical reaction network notation.
//!
//! Each line of a source is a reaction (`2 a + b => c,5,`), a species-count
//! declaration (`c,10,`), or a separator (only commas, whitespace or a `#`
//! comment). Parsing yields a `ReactionNetwork`: a set of reactions and the
//! initial count of every species, or the first failure with its line.
pub mod grammar;
pub mod laws;
pub mod model;
pub mod parser;
pub mod text;

pub use grammar::Rule;
pub use model::{Count, Name, Reaction, ReactionNetwork, Solution, Term};
pub use parser::{CSVparser, MarleaParser, MarleaParserError, ParseError, SourceError, SourceFormat};
