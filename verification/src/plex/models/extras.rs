//! What is related to an item, in groups.

use crate::plex::models::metadata::Metadata;
use vstd::prelude::*;

verus! {

/// The groups of related items.
#[derive(Debug, Clone)]
pub struct ExtrasMediaContainer {
    pub total_size: Option<i32>,
    pub size: i32,
    pub hub: Vec<Hub>,
}

/// One group of related items.
#[derive(Debug, Clone)]
pub struct Hub {
    pub size: i32,
    pub title: String,
    pub rtype: String,
    pub context: Option<String>,
    pub metadata: Option<Vec<Metadata>>,
}

} // verus!
