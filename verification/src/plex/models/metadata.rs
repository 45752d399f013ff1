//! Items of the library: artists, albums, tracks and playlists.

use vstd::prelude::*;

verus! {

/// One page of items.
#[derive(Debug, Clone)]
pub struct MetadataMediaContainer {
    pub total_size: Option<i32>,
    pub size: i32,
    pub metadata: Option<Vec<Metadata>>,
}

/// One item.
#[derive(Debug, Clone)]
pub struct Metadata {
    pub key: String,
    pub rating_key: String,
    pub title: String,
    pub rtype: String,
    pub original_title: Option<String>,
}

} // verus!
