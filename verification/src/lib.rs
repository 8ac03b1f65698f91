//! A verified core for a paginated REST image/video API client: the
//! retry/backoff engine around each HTTP call, the pagination aggregator
//! that walks multi-page result sets under item and page caps, the
//! response shaper that splits a raw response into data and normalized
//! meta, and the field projector that reduces a document to a caller's
//! selectors. Network and file I/O stay with the embedding program.

pub mod api;
pub mod cli;
pub mod config;
pub mod json;
pub mod output;
pub mod proj;
pub mod text;
pub mod util;
