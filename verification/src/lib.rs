//! A verified core for a command-line runner of human-authored `.http`
//! request files.
//!
//! The library covers the logic of such a runner: the line-oriented
//! state machine that segments a file into request records
//! ([`http_file_parser`]), the mutable variable store with its dynamic
//! `$`-variables and the `{{name}}` template resolver ([`template`]),
//! and the resolution of each record's method, URL, headers and body
//! against the store ([`http_request_executor`]), including seeding the
//! store from environment documents. Every function carries a contract
//! checked by Verus; the thin shell of file reading, command-line
//! handling, scripting and HTTP dispatch lives outside the library.

pub mod errors;
pub mod http_file_parser;
pub mod http_request;
pub mod http_request_executor;
pub mod strutil;
pub mod template;
