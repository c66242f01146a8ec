//! Verified core of a product-listing scraper for a single storefront.
//!
//! The library extracts structured product records from listing markup,
//! builds the page URLs for a set of category selections, merges per-page
//! results in launch order, and serializes the records to JSON text.
//! Network transport and file writing are left to the surrounding binary.

pub mod extract;
pub mod json;
pub mod markup;
pub mod num;
pub mod pages;
pub mod pipeline;
pub mod product;
pub mod text;
