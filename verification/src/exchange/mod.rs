//! The way submissions come in.
pub mod http;
