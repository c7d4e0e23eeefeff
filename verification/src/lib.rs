//! A development-time HTTP dispatch layer: each inbound request is either
//! forwarded to the first configured backend whose path prefix matches, or
//! answered from a file below the document root.
//!
//! This crate holds the decisions (route matching, URI rewriting, path
//! sanitisation, status mapping); sockets and files are the caller's business.

pub mod text;
pub mod uri;
pub mod request;
pub mod error;
pub mod response;
pub mod static_file;
pub mod path;
pub mod route;
pub mod forward;
pub mod service;
