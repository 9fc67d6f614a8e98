use vstd::prelude::*;

use crate::score::Score;

pub(crate) mod memory;
pub use memory::Memory;

verus! {

/// Why a store operation failed.
#[derive(Clone, Debug, PartialEq, Eq)]
pub enum StoreError {
    /// The backing service could not be reached or answered with an error.
    Backend(String),
}

/// A place that keeps one score per key and can name the best key.
pub trait Store {
    /// Binds `key` to `value`, replacing any earlier score of that key.
    fn set(&mut self, key: String, value: Score) -> Result<(), StoreError>;

    /// The score bound to `key`, if any.
    fn get(&self, key: &str) -> Result<Option<Score>, StoreError>;

    /// The key with the highest score, if any.
    fn best_url(&self) -> Result<Option<String>, StoreError>;
}

impl Store for Memory {
    fn set(&mut self, key: String, value: Score) -> Result<(), StoreError> {
        Memory::set(self, key, value)
    }

    fn get(&self, key: &str) -> Result<Option<Score>, StoreError> {
        Memory::get(self, key)
    }

    fn best_url(&self) -> Result<Option<String>, StoreError> {
        Memory::best_url(self)
    }
}

} // verus!
