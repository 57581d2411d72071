//! A file server over HTTP and WebDAV, without the network and without the
//! file system: for one request, what is to be done and what the answer
//! is. The caller reads the request, asks the file system what this crate
//! wants to know, and sends what it is handed.
//!
//! Paths of the served tree are strings with `/` between their parts.

pub mod access;
pub mod cache;
pub mod config;
pub mod content;
pub mod dav;
pub mod handlers;
pub mod hidden;
pub mod index;
pub mod guarantees;
pub mod listing;
pub mod natural;
pub mod path;
pub mod request;
pub mod response;
pub mod send;
pub mod server;
pub mod sort;
pub mod text;
pub mod uri;
