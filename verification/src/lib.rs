//! A verified publishing core for a static "today I learned" site.
//!
//! The library ingests dated, tagged Markdown notes, validates their front
//! matter, renders their bodies to HTML, indexes them chronologically and by
//! tag, and lays out the full set of output artifacts (pages, feed, assets)
//! as an explicit render plan.  All ordering, grouping and counting logic is
//! verified; calls into outside crates (front-matter splitting, Markdown
//! rendering, slugs, highlighting stylesheets, feed serialization) stand
//! behind trusted wrappers with stated contracts.

pub mod collection;
pub mod config;
pub mod error;
pub mod frontmatter;
pub mod laws;
pub mod markdown;
pub mod post;
pub mod render;
pub mod sort;
pub mod text;
pub mod tiller;
