//! Finds adjective-noun pairs in running text and keeps the word store
//! that records them.

pub mod attested;
pub mod mode;
pub mod scan;
pub mod store;
pub mod text;
pub mod tokens;
pub mod vocabulary;

pub use attested::AttestedSet;
pub use mode::{parse_mode, run, Mode, Outcome, UsageError};
pub use scan::add_pairs;
pub use store::{add_prefix, strip_prefix, FormatError, Words, WordsVecs, PREFIX};
pub use tokens::tokenize;
pub use vocabulary::Vocabulary;
