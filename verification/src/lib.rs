//! Verified core of a static site generator.
//!
//! The library holds the logic of the generator: deriving output routes from
//! content paths, parsing markdown-like content into blocks, resolving
//! per-directory render rules while walking a content tree, the
//! content-addressed cache with its invalidation rules, the routing decisions
//! of the generation pipeline, and listing pagination.  File and network I/O,
//! the template engine and the CSS pipeline live outside the library and talk
//! to it through plain values.

pub mod assets;
pub mod cache;
pub mod generator;
pub mod markdown;
pub mod renderer;
pub mod walker;
pub mod common;
pub mod config;
pub mod project;
pub mod text;
pub mod utils;
