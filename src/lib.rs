//! A client library for a torrent index: typed search queries rendered to a
//! query string, and extraction of listing rows into torrent records.

/// Category taxonomies shared by the query types.
pub mod category;
/// Decimal numerals: reading and writing them.
pub mod digits;
/// Errors of query extraction.
pub mod error;
/// Sizes and torrent records.
pub mod model;
/// Reading listing rows into torrent records.
pub mod extractor;
/// The general-audience site's categories.
pub mod nyaa;
/// The adult-audience site's categories.
pub mod sukebei;
/// Search queries and their builder.
pub mod query;

pub use crate::category::Category;
pub use crate::nyaa::NyaaCategory;
pub use crate::query::{Filter, Query, QueryBuilder, Sort, SortOrder};
pub use crate::sukebei::SukebeiCategory;
