//! The models offered by the configured providers, as the desktop cache lists
//! them.
use vstd::prelude::*;

verus! {

/// A model: its identifier, display name and provider.
pub struct Model {
    pub id: String,
    pub name: String,
    pub provider: String,
}

} // verus!
