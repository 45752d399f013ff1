//! The source playlist: how its items become catalog entries.
//!
//! Every text is put in lower case, and the names of the artists of a track
//! lose the white space around them.

use crate::text::{chars_of, lowercase, string_of, trim, trimmed};
use crate::track_album_artist::{MetadataType, MetadataView, SpotifyMetadata, TrackAlbumArtist, TrackView};
use vstd::prelude::*;

verus! {

/// The names of `artists`, each without the white space around it and in
/// lower case.
pub open spec fn artist_names(artists: Seq<Seq<char>>) -> Seq<Seq<char>> {
    Seq::new(artists.len(), |i: int| lowercase(trimmed(artists[i])))
}

/// The entry of a track of the playlist.
pub fn track_entry(name: &str, album: &str, artists: &Vec<String>, href: &str) -> (r:
    TrackAlbumArtist)
    ensures
        r@ == (TrackView {
            track: lowercase(name@),
            album: lowercase(album@),
            artist: artist_names(artists.deep_view()),
            metadata: MetadataView::Spotify(href@),
        }),
{
    let mut artist: Vec<String> = Vec::new();
    let mut i: usize = 0;
    while i < artists.len()
        invariant
            i <= artists.len(),
            artist.len() == i,
            forall|k: int| 0 <= k < i ==> artist[k]@ == lowercase(trimmed(artists[k]@)),
        decreases artists.len() - i,
    {
        let bare = string_of(&trim(&chars_of(artists[i].as_str())));
        artist.push(bare.as_str().to_lowercase());
        i += 1;
    }
    let r = TrackAlbumArtist {
        track: name.to_lowercase(),
        album: album.to_lowercase(),
        artist,
        metadata: MetadataType::Spotify(SpotifyMetadata { uri: String::from_str(href) }),
    };
    assert(r@.artist =~= artist_names(artists.deep_view()));
    r
}

/// The entry of an episode of the playlist: its show stands for the album,
/// and the publisher of the show for the artist.
pub fn episode_entry(name: &str, show: &str, publisher: &str, href: &str) -> (r: TrackAlbumArtist)
    ensures
        r@ == (TrackView {
            track: lowercase(name@),
            album: lowercase(show@),
            artist: seq![lowercase(publisher@)],
            metadata: MetadataView::Spotify(href@),
        }),
{
    let mut artist: Vec<String> = Vec::new();
    artist.push(publisher.to_lowercase());
    let r = TrackAlbumArtist {
        track: name.to_lowercase(),
        album: show.to_lowercase(),
        artist,
        metadata: MetadataType::Spotify(SpotifyMetadata { uri: String::from_str(href) }),
    };
    assert(r@.artist =~= seq![lowercase(publisher@)]);
    r
}

} // verus!
