//! Resolves a stream of face-embedding observations into stable person
//! identities.
//!
//! - `similarity`: exact cosine similarity on fixed-point embeddings.
//! - `store`: the identity store, kept in id order, with first-match lookup.
//! - `pipeline`: the confidence-gated policy that creates and extends
//!   identities, one detection at a time.
//! - `models`, `ids`, `paths`, `config`: records, id text, image paths and
//!   the log level setting.
use vstd::prelude::*;

pub mod config;
pub mod ids;
pub mod models;
pub mod paths;
pub mod pipeline;
pub mod similarity;
pub mod store;

verus! {

} // verus!
