//! A minimal peer-to-peer ledger node, verified with Verus.
//!
//! The crate holds the logic of the node: an incremental HTTP/1.0 request
//! parser, a deduplicating append-only ledger, a registry of known peers, the
//! request handlers, and the decisions of gossip and discovery. Sockets,
//! threads and the outbound HTTP client live with the program that embeds it.

pub mod http;
pub mod http_server;
pub mod json;
pub mod ledger;
pub mod peers;
pub mod text;
