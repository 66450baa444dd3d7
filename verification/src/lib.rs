//! A small verified HTTP file server core: it maps request paths onto a
//! configured root directory and builds the matching response — a file's
//! contents, a rendered directory listing, or a canned not-found page.

pub mod args;
pub mod decimal;
pub mod handler;
pub mod listing;
pub mod mime;
pub mod order;
pub mod resp;
