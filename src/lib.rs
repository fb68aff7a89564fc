//! Carving named nucleotide sequences into segments of random length, with
//! strand alternation, reverse complement and exact-match alignment records.

pub mod nucleotide;
pub mod placement;
pub mod sampler;
pub mod record;
pub mod emit;
pub mod args;
