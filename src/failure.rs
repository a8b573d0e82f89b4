use vstd::prelude::*;

verus! {

/// The ways an operation of this library can fail.
#[derive(Debug, Clone, Copy, PartialEq, Eq, Structural)]
pub enum Failure {
    /// Bad credentials, or a non-success answer to the token exchange.
    AuthFailure,
    /// A non-success answer or a transport error on a page or chunk request.
    FetchFailure,
    /// A search without a matching track, or no enrichment for a single track.
    NotFound,
    /// The refresh token could not be cached.
    CacheWriteFailure,
    /// A pagination was still handing out cursors after its page ceiling.
    PageLimitExceeded,
    /// Entities and enrichment records differ in number.
    LengthMismatch,
}

impl Failure {
    /// A short diagnostic for the failure.
    pub fn message(&self) -> (r: &'static str) {
        match self {
            Failure::AuthFailure => "authorization failed",
            Failure::FetchFailure => "fetching data from the API failed",
            Failure::NotFound => "not found",
            Failure::CacheWriteFailure => "could not cache the refresh token",
            Failure::PageLimitExceeded => "pagination did not end within its page ceiling",
            Failure::LengthMismatch => "entities and enrichment records differ in number",
        }
    }
}

} // verus!
