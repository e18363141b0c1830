//! The rules of a small HTTP reverse proxy: how it is configured, how it rewrites the
//! top-level fields of JSON bodies, which headers it passes on, and how it lets requests
//! through to the upstream.

pub mod config;
pub mod headers;
pub mod json;
pub mod proxy;
pub mod rewrite;
pub mod startup;
pub mod text;
