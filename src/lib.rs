//! A query endpoint whose every failure reaches the client as a JSON error
//! envelope: the JSON text it writes and reads, the bodies it exchanges, and
//! the handler and error-translating stage that decide each reply.
pub mod json;
pub mod body;
pub mod handler;
