//! A small command-line argument parser.
//!
//! Raw tokens are classified into [`Key`]s (short flags such as `-a`, long
//! flags such as `--all`, paired short/long duals, and bare subcommand
//! words).  A [`Jargon`] holds the remaining unconsumed tokens and answers
//! queries that remove what they match, so that later queries only see the
//! residue.

pub mod error;
pub mod jargons;
pub mod keys;

pub use error::Error;
pub use jargons::Jargon;
pub use keys::Key;
