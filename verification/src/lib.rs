//! A static file server: its configuration, request routing, URL rewriting,
//! byte ranges, directory listings and response bodies, verified with Verus.
pub mod cli;
pub mod config;
pub mod etag;
pub mod handler;
pub mod httpdate;
pub mod laws;
pub mod listing;
pub mod response;
pub mod rewrite;
pub mod server;
pub mod text;
pub mod templates;
