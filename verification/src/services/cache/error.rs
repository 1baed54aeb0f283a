//! Errors of the cache.

use vstd::prelude::*;

verus! {

/// Why a cache operation did not yield a value.
#[derive(Debug, Clone, PartialEq, Eq)]
pub enum CacheError {
    /// Stored bytes could not be decoded, or a value could not be encoded.
    SerializationError(String),
    /// The persistent tier failed; the message is the store's own.
    DatabaseError(String),
    /// The key is absent or expired in both tiers.
    NotFound,
}

/// What an error stands for: its kind and its message as characters.
pub enum CacheErrorView {
    SerializationError(Seq<char>),
    DatabaseError(Seq<char>),
    NotFound,
}

impl View for CacheError {
    type V = CacheErrorView;

    open spec fn view(&self) -> CacheErrorView {
        match self {
            CacheError::SerializationError(m) => CacheErrorView::SerializationError(m@),
            CacheError::DatabaseError(m) => CacheErrorView::DatabaseError(m@),
            CacheError::NotFound => CacheErrorView::NotFound,
        }
    }
}

/// The result of an operation that yields a payload, by its view.
pub open spec fn payload_view(r: Result<String, CacheError>) -> Result<Seq<char>, CacheErrorView> {
    match r {
        Ok(v) => Ok(v@),
        Err(e) => Err(e@),
    }
}

/// The result of an operation that yields a plain value, with the error by
/// its view.
pub open spec fn plain_view<T>(r: Result<T, CacheError>) -> Result<T, CacheErrorView> {
    match r {
        Ok(v) => Ok(v),
        Err(e) => Err(e@),
    }
}

} // verus!
