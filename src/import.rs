//! Plain records that describe the outcome of a media import.

use vstd::prelude::*;

verus! {

/// The various steps in which media importing can fail.
#[derive(Debug, PartialEq, Eq, Structural, Copy, Clone)]
pub enum ImportFailStep {
    /// Failed to get details from the source itself.
    ItemDetailsFromSource,
    /// Failed to get metadata from the provider.
    MediaDetailsFromProvider,
    /// Failed to transform the data into the required format.
    InputTransformation,
    /// Failed to save a seen history item.
    SeenHistoryConversion,
    /// Failed to save a review or rating item.
    ReviewConversion,
}

/// How many items an import handled.
#[derive(Debug, PartialEq, Eq, Structural, Copy, Clone)]
pub struct ImportDetails {
    pub total: usize,
}

} // verus!
