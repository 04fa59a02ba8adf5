//! Recognising previously analysed functions in a binary, and registering their types.
//!
//! A [`matcher::Matcher`] holds the signatures of one platform. Given what is known of a
//! function (its content hash, the span of its addresses and what was observed at its
//! call instructions) it finds the signature that describes the function, if exactly one
//! can be told to do so, and registers every type of that signature in a
//! [`universe::TypeUniverse`].
//!
//! - [`guid`]: content hashes of functions and types, and identifiers made of them.
//! - [`types`] and [`signature`]: the records of a signature bundle, and what they stand
//!   for in contracts.
//! - [`index`]: the concurrent maps of a store, and what is taken on trust of them.
//! - [`constraint`]: the choice between signatures that share a hash.
//! - [`universe`] and [`resolver`]: the registered types, and the walk that registers a
//!   type together with what it depends on.
//! - [`matcher`]: the store and the matching procedure.
//! - [`registry`]: the matchers that were built, by platform.

pub mod constraint;
pub mod guid;
pub mod index;
pub mod matcher;
pub mod registry;
pub mod resolver;
pub mod signature;
pub mod types;
pub mod universe;
