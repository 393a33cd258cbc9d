//! A registry of memes grouped into museums: entries keyed by identifier, an
//! index from each museum to its entries in order of creation, and donations
//! recorded against an entry and handed on to its creator.

pub mod laws;
pub mod meme;
pub mod registry;
