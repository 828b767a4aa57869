//! Recovery and use of a messaging session left behind by a co-installed
//! desktop client. The library holds the verified core: decoding header
//! blobs out of cache rows, building and ranking credential candidates,
//! describing authenticated requests and classifying their JSON response
//! envelopes, driving cursor pagination, and walking candidates until one
//! verifies. Everything that touches the outside world — the cache store
//! snapshot, the terminal, and the HTTP transport — lives outside and
//! exchanges plain values with these modules.

pub mod candidates;
pub mod display;
pub mod doc;
pub mod endpoints;
pub mod model;
pub mod pager;
pub mod selector;
pub mod session;
pub mod text;
