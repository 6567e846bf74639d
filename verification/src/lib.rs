//! Loading of `.env`-style configuration text into an environment table.
//!
//! A load is configured with a [`builder::Builder`], which names the source
//! of the text, and finished with [`builder::BuilderFinalizer::load`] or
//! [`builder::BuilderFinalizer::iter`]. The library touches neither files nor
//! the process: the caller hands over what it found where the file may be
//! ([`find::Candidate`]) and the variables that are set ([`env::Env`]), and
//! takes back the table with the entries of the text applied to it.
//!
//! What a text says is defined in [`grammar`], as functions on bytes, and
//! [`iter::read_from`] folds it over the statements of a text. [`parse`] and
//! [`iter::Iter`] compute it. [`policy`] says which entries reach the table.
//! [`laws`], [`independence`] and [`locality`] state what follows.

pub mod builder;
pub mod builder2;
pub mod bytes;
pub mod chars;
pub mod env;
pub mod errors;
pub mod find;
pub mod grammar;
pub mod independence;
pub mod iter;
pub mod laws;
pub mod locality;
pub mod parse;
pub mod policy;
pub mod scan;
pub mod splitter;
