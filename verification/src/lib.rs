//! A demand-driven, memoizing incremental computation engine.
//!
//! The engine evaluates a dependency graph of keys: each key's value may
//! depend on other keys, values are cached per version in a shared cache of
//! tasks, cycles are detected per request chain, and every dependency read
//! during one evaluation is recorded for later invalidation.
//!
//! Key compute logic is held as data (a rule table in [`data::DiceData`]),
//! cancellation is an explicitly passed context, and the cancel-and-replace
//! protocol works on owned cache slots; there is no reliance on ambient
//! thread-local state or in-place replacement tricks.

pub mod actions;
pub mod cache;
pub mod cancellation;
pub mod client;
pub mod ctx;
pub mod cycles;
pub mod data;
pub mod deps;
pub mod error;
pub mod incremental;
pub mod key;
pub mod model;
pub mod value;
pub mod versions;
pub mod visibility;
