//! Shared image-link type used across providers.
//!
//! The `Provider` enum lives in `url_matcher.rs` (it is the classifier
//! output) and is re-exported here so that every module that depends on
//! image links sees exactly the type the matcher produces.

use vstd::prelude::*;

pub use crate::url_matcher::Provider;

verus! {

/// A single image discovered by a provider.
#[derive(Debug, Clone, PartialEq, Eq)]
pub struct ImageLink {
    /// Direct HTTPS URL to the image file.
    pub url: String,
    /// Width in pixels, if known.
    pub width: Option<u32>,
    /// Height in pixels, if known.
    pub height: Option<u32>,
    /// Human title / caption, if known.
    pub title: Option<String>,
    /// Auto-generated filename, if [`crate::filter::auto_name`] ran.
    pub filename: Option<String>,
}

} // verus!
