//! An in-memory lookup index for fixed-format identifiers: 32-character
//! hexadecimal MD5 digests read from a line-oriented corpus, normalized to
//! uppercase, sorted, and probed for exact membership by binary search.

pub mod ident;
pub mod order;
pub mod index;
pub mod paths;
