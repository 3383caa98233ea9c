//! A client library for a blockchain-explorer HTTP API: a URL builder, the
//! mapping from API routes to query parameters, and the mapping from a fetched
//! response envelope to a typed result or a typed error.

pub mod etherscan;
pub mod key_order;
pub mod url;
