//! Crawl-and-extract pipeline for a recipe site: link discovery, recipe
//! extraction, bounded-concurrency scheduling, aggregation into a keyed book
//! and the read-only queries over it.

pub mod book;
pub mod markup;
pub mod order;
pub mod parse_main;
pub mod parse_recipe;
pub mod patterns;
pub mod pipeline;
pub mod schema;
pub mod snapshot;
pub mod text;
pub mod types;
pub mod url_set;
pub mod url_shape;
pub mod utils;
