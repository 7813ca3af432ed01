//! A personal vocabulary-drill library: bilingual word pairs with
//! per-direction recall counters, an adaptive quiz selector, a merge
//! rule for bulk import, and a line-oriented tabular codec.

pub mod casing;
pub mod codec;
pub mod guess;
pub mod numeric;
pub mod store;
pub mod translation;

pub use codec::read_records;
pub use codec::write_records;
pub use guess::Guess;
pub use store::ImportStatus;
pub use store::VocabStore;
pub use translation::Translation;

use vstd::prelude::*;

verus! {

/// The error taxonomy of the store and the codec.
#[derive(Debug, PartialEq, Eq, Structural, Clone, Copy)]
pub enum VocabStoreError {
    /// No store exists where one was expected.
    NotInitialised,
    /// A store already exists where a fresh one was requested.
    AlreadyInitialised,
    /// An insert collided with an existing pair key.
    DuplicateEntry,
    /// A merge was attempted across records with different pair keys.
    ReconciliationError,
    /// The selector or session was invoked against an empty store.
    NoTranslationsFound,
    /// A tabular row failed to parse into the six expected fields.
    MalformedRecord,
}

} // verus!
