//! The result cache: payloads by key, each with the instant at which it
//! expires, together within a budget of payload bytes.
//!
//! The cache keeps its keys in the order in which they were last written,
//! and the entry of each key in a hash table. When a new payload does not
//! fit, the entries that were written longest ago leave until it does.
//!
//! [`model`] says what reading, writing and invalidating do to a list of
//! entries, [`laws`] what follows for the table from key to entry, and
//! [`cache`] holds the cache itself.

pub mod cache;
pub mod laws;
pub mod model;

pub use crate::store::cache::ResultCache;
pub use crate::store::model::CacheEntry;
pub use crate::store::model::EntryView;
pub use crate::store::model::distinct_keys;
pub use crate::store::model::entry_table;
pub use crate::store::model::lookup;
pub use crate::store::model::stored;
pub use crate::store::model::trimmed;
pub use crate::store::model::unexpired;
pub use crate::store::model::weight;
pub use crate::store::model::well_formed;
pub use crate::store::model::without;
