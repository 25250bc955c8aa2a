//! What symbols need from the features they draw.
use vstd::prelude::*;

verus! {

/// Trait for features that can provide text for a text marker symbol.
pub trait TextProvider {
    /// Returns the text to display in the marker.
    fn get_text(&self) -> &str;
}

} // verus!
