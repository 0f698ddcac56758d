//! Counts blank, comment and code lines of source text by language, and adds
//! the per-file counts up into per-language totals.

pub mod cli;
pub mod config;
pub mod count;
pub mod detail;
pub mod languages;
pub mod layout;
pub mod output;
pub mod parse;
pub mod sort;
pub mod task;
pub mod text;

pub use detail::Detail;
pub use sort::Sort;
