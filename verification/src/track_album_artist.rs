//! Catalog entries: the unit that is matched between the two catalogs.
//!
//! An entry carries a track title, an album title, one or more artist names
//! and the place it came from: the source playlist, or an item of the target
//! library. Contracts speak of entries through their views, in which every
//! text is a sequence of characters.

use vstd::prelude::*;

verus! {

/// Where an item of the target library lives and how it is told apart from
/// the others. `rating_key` is the item's stable identifier: two entries with
/// the same `rating_key` are the same item of the library.
#[derive(Debug)]
pub struct PlexMetadata {
    pub machine_identifier: String,
    pub provider_identifier: String,
    pub rating_key: String,
    pub key: String,
}

/// Where an entry of the source playlist was found.
#[derive(Debug)]
pub struct SpotifyMetadata {
    pub uri: String,
}

/// The origin of a catalog entry.
#[derive(Debug)]
pub enum MetadataType {
    Plex(PlexMetadata),
    Spotify(SpotifyMetadata),
}

/// One entry of a catalog.
#[derive(Debug)]
pub struct TrackAlbumArtist {
    pub track: String,
    pub album: String,
    pub artist: Vec<String>,
    pub metadata: MetadataType,
}

/// What a `PlexMetadata` holds, as sequences of characters.
pub ghost struct PlexMetadataView {
    pub machine_identifier: Seq<char>,
    pub provider_identifier: Seq<char>,
    pub rating_key: Seq<char>,
    pub key: Seq<char>,
}

/// What a `MetadataType` holds.
pub ghost enum MetadataView {
    Plex(PlexMetadataView),
    Spotify(Seq<char>),
}

/// What a `TrackAlbumArtist` holds.
pub ghost struct TrackView {
    pub track: Seq<char>,
    pub album: Seq<char>,
    pub artist: Seq<Seq<char>>,
    pub metadata: MetadataView,
}

impl View for PlexMetadata {
    type V = PlexMetadataView;

    open spec fn view(&self) -> PlexMetadataView {
        PlexMetadataView {
            machine_identifier: self.machine_identifier@,
            provider_identifier: self.provider_identifier@,
            rating_key: self.rating_key@,
            key: self.key@,
        }
    }
}

impl View for SpotifyMetadata {
    type V = Seq<char>;

    open spec fn view(&self) -> Seq<char> {
        self.uri@
    }
}

impl View for MetadataType {
    type V = MetadataView;

    open spec fn view(&self) -> MetadataView {
        match self {
            MetadataType::Plex(meta) => MetadataView::Plex(meta@),
            MetadataType::Spotify(meta) => MetadataView::Spotify(meta@),
        }
    }
}

impl View for TrackAlbumArtist {
    type V = TrackView;

    open spec fn view(&self) -> TrackView {
        TrackView {
            track: self.track@,
            album: self.album@,
            artist: self.artist.deep_view(),
            metadata: self.metadata@,
        }
    }
}

impl DeepView for TrackAlbumArtist {
    type V = TrackView;

    open spec fn deep_view(&self) -> TrackView {
        self@
    }
}

impl MetadataView {
    /// The identifier of the library item, where the entry has one.
    pub open spec fn item_id(self) -> Option<Seq<char>> {
        match self {
            MetadataView::Plex(meta) => Some(meta.rating_key),
            MetadataView::Spotify(_) => None,
        }
    }
}

/// Every entry of `pool` is an item of the target library.
pub open spec fn all_from_library(pool: Seq<TrackView>) -> bool {
    forall|i: int| 0 <= i < pool.len() ==> (#[trigger] pool[i]).metadata is Plex
}

/// A copy of `names`, text for text.
pub fn clone_names(names: &Vec<String>) -> (r: Vec<String>)
    ensures
        r.deep_view() == names.deep_view(),
{
    let mut r: Vec<String> = Vec::new();
    let mut i: usize = 0;
    while i < names.len()
        invariant
            i <= names.len(),
            r.len() == i,
            forall|k: int| 0 <= k < i ==> r[k]@ == names[k]@,
        decreases names.len() - i,
    {
        r.push(names[i].clone());
        i += 1;
    }
    assert(r.deep_view() =~= names.deep_view());
    r
}

/// Whether two lists of names hold the same texts in the same order.
pub fn same_names(a: &Vec<String>, b: &Vec<String>) -> (r: bool)
    ensures
        r == (a.deep_view() == b.deep_view()),
{
    if a.len() != b.len() {
        assert(a.deep_view().len() != b.deep_view().len());
        return false;
    }
    let mut i: usize = 0;
    while i < a.len()
        invariant
            i <= a.len(),
            a.len() == b.len(),
            forall|k: int| 0 <= k < i ==> a[k]@ == b[k]@,
        decreases a.len() - i,
    {
        if a[i] != b[i] {
            assert(a.deep_view()[i as int] != b.deep_view()[i as int]);
            return false;
        }
        i += 1;
    }
    assert(a.deep_view() =~= b.deep_view());
    true
}

impl Clone for PlexMetadata {
    fn clone(&self) -> (r: Self)
        ensures
            r@ == self@,
    {
        PlexMetadata {
            machine_identifier: self.machine_identifier.clone(),
            provider_identifier: self.provider_identifier.clone(),
            rating_key: self.rating_key.clone(),
            key: self.key.clone(),
        }
    }
}

impl Clone for SpotifyMetadata {
    fn clone(&self) -> (r: Self)
        ensures
            r@ == self@,
    {
        SpotifyMetadata { uri: self.uri.clone() }
    }
}

impl Clone for MetadataType {
    fn clone(&self) -> (r: Self)
        ensures
            r@ == self@,
    {
        match self {
            MetadataType::Plex(meta) => MetadataType::Plex(meta.clone()),
            MetadataType::Spotify(meta) => MetadataType::Spotify(meta.clone()),
        }
    }
}

impl Clone for TrackAlbumArtist {
    fn clone(&self) -> (r: Self)
        ensures
            r@ == self@,
    {
        TrackAlbumArtist {
            track: self.track.clone(),
            album: self.album.clone(),
            artist: clone_names(&self.artist),
            metadata: self.metadata.clone(),
        }
    }
}

impl PartialEq for PlexMetadata {
    fn eq(&self, other: &Self) -> (r: bool) {
        self.machine_identifier == other.machine_identifier && self.provider_identifier
            == other.provider_identifier && self.rating_key == other.rating_key && self.key
            == other.key
    }
}

impl vstd::std_specs::cmp::PartialEqSpecImpl for PlexMetadata {
    open spec fn obeys_eq_spec() -> bool {
        true
    }

    open spec fn eq_spec(&self, other: &Self) -> bool {
        self@ == other@
    }
}

impl Eq for PlexMetadata {

}

impl PartialEq for SpotifyMetadata {
    fn eq(&self, other: &Self) -> (r: bool) {
        self.uri == other.uri
    }
}

impl vstd::std_specs::cmp::PartialEqSpecImpl for SpotifyMetadata {
    open spec fn obeys_eq_spec() -> bool {
        true
    }

    open spec fn eq_spec(&self, other: &Self) -> bool {
        self@ == other@
    }
}

impl Eq for SpotifyMetadata {

}

impl PartialEq for MetadataType {
    fn eq(&self, other: &Self) -> (r: bool) {
        match (self, other) {
            (MetadataType::Plex(a), MetadataType::Plex(b)) => a == b,
            (MetadataType::Spotify(a), MetadataType::Spotify(b)) => a == b,
            _ => false,
        }
    }
}

impl vstd::std_specs::cmp::PartialEqSpecImpl for MetadataType {
    open spec fn obeys_eq_spec() -> bool {
        true
    }

    open spec fn eq_spec(&self, other: &Self) -> bool {
        self@ == other@
    }
}

impl Eq for MetadataType {

}

impl PartialEq for TrackAlbumArtist {
    fn eq(&self, other: &Self) -> (r: bool) {
        self.track == other.track && self.album == other.album && same_names(
            &self.artist,
            &other.artist,
        ) && self.metadata == other.metadata
    }
}

impl vstd::std_specs::cmp::PartialEqSpecImpl for TrackAlbumArtist {
    open spec fn obeys_eq_spec() -> bool {
        true
    }

    open spec fn eq_spec(&self, other: &Self) -> bool {
        self@ == other@
    }
}

impl Eq for TrackAlbumArtist {

}

} // verus!
