//! The control protocol and the dispatch of its requests.

pub mod protocol;
pub mod server;
