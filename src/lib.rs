//! Builds a strictly nested document tree out of a stream of markdown events,
//! and absorbs embedded markup after filtering it against an allow-list.
pub mod builder;
pub mod error;
pub mod event;
pub mod lookup;
pub mod markdown;
pub mod markup;
pub mod node;
pub mod sanitize;

pub use markdown::{parse, parse_with_title};
