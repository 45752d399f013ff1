//! The providers of a server and what they offer.

use vstd::prelude::*;

verus! {

/// The providers of a server.
#[derive(Debug, Clone)]
pub struct ProviderMediaContainer {
    pub friendly_name: String,
    pub machine_identifier: String,
    pub media_provider: Vec<MediaProvider>,
}

/// One provider.
#[derive(Debug, Clone)]
pub struct MediaProvider {
    pub title: String,
    pub identifier: String,
    pub features: Vec<Feature>,
}

/// One feature of a provider.
#[derive(Debug, Clone)]
pub struct Feature {
    pub key: Option<String>,
    pub rtype: String,
    pub directories: Option<Vec<Directory>>,
}

/// One directory of a feature.
#[derive(Debug, Clone)]
pub struct Directory {
    pub agent: Option<String>,
    pub title: Option<String>,
    pub id: Option<String>,
}

} // verus!
