//! Reading and melting Hearts of Iron IV saves.
//!
//! The library sniffs the seven byte header of a save, decodes the game's
//! calendar dates, and converts the binary token stream into the game's
//! plaintext format.

pub mod date;
pub mod digits;
pub mod errors;
pub mod extraction;
pub mod binary;
pub mod flavor;
pub mod writer;
pub mod resolver;
pub mod melt;
pub mod file;
pub mod laws;

pub use date::Date;
pub use errors::{Hoi4Error, Hoi4ErrorKind};
pub use extraction::Encoding;
pub use binary::{read_token, BinaryToken};
pub use flavor::FlavorText;
pub use writer::{TextOp, TextSink};
pub use resolver::resolver_names;
pub use melt::{melt, FailedResolveStrategy, MeltOptions, MeltedDocument};
pub use file::Hoi4File;
