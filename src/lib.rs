//! A client library for a music-catalog web API.
//!
//! The verified core walks cursor-paginated collections to completion
//! (`paginate`), splits identifier lookups into bounded requests
//! (`batch`), joins entities with their enrichment records by position
//! (`merge`) and flattens a user's library (`library`). Network access is
//! supplied by the caller as fetch functions.

pub mod auth;
pub mod batch;
pub mod failure;
pub mod library;
pub mod merge;
pub mod paginate;
pub mod request;
pub mod response;

pub use auth::RSpotify;
pub use failure::Failure;
pub use response::CollectionResponse;
