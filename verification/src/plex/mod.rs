//! The target library: its matching strategies and the playlist that is
//! built in it.

pub mod client;
pub mod matcher;
pub mod models;

use crate::plex::matcher::{is_least, least, lemma_least_is, lemma_least_none};
use crate::plex::models::extras::Hub;
use crate::plex::models::metadata::{Metadata, MetadataMediaContainer};
use crate::plex::models::providers::{Directory, Feature, MediaProvider, ProviderMediaContainer};
use crate::plex::models::MediaContainerWrapper;
use crate::text::{chars_of, contains, contains_text, lowercase};
use crate::track_album_artist::{
    MetadataType, MetadataView, PlexMetadata, PlexMetadataView, TrackAlbumArtist, TrackView,
};
use vstd::prelude::*;

verus! {

/// The playlist of the target library that the matches go to. Its identifier
/// is absent until the library has created the playlist, and stays as it is
/// from then on.
#[derive(Debug)]
pub struct PlaylistState {
    destination_playlist_id: Option<String>,
}

impl View for PlaylistState {
    type V = Option<Seq<char>>;

    closed spec fn view(&self) -> Option<Seq<char>> {
        match self.destination_playlist_id {
            Some(id) => Some(id@),
            None => None,
        }
    }
}

/// The state of the playlist after the library has answered a creation with
/// the identifier `id`: the first identifier stays.
pub open spec fn created(state: Option<Seq<char>>, id: Seq<char>) -> Option<Seq<char>> {
    match state {
        Some(_) => state,
        None => Some(id),
    }
}

impl PlaylistState {
    /// The state before any playlist was created.
    pub fn new() -> (r: Self)
        ensures
            r@ is None,
    {
        PlaylistState { destination_playlist_id: None }
    }

    /// The identifier of the playlist, once it is known.
    pub fn destination_playlist_id(&self) -> (r: Option<&String>)
        ensures
            match r {
                Some(id) => self@ == Some(id@),
                None => self@ is None,
            },
    {
        self.destination_playlist_id.as_ref()
    }

    /// Takes note of the identifier that the library gave to the playlist it
    /// created. An identifier that is already known is kept.
    pub fn record_created(&mut self, id: String)
        ensures
            final(self)@ == created(old(self)@, id@),
    {
        if self.destination_playlist_id.is_none() {
            self.destination_playlist_id = Some(id);
        }
    }
}

/// A change to ask of the target library.
#[derive(Debug)]
pub enum PlaylistMutation {
    /// Create the playlist `name` with the item at `address` in it.
    Create { name: String, address: PlexMetadata },
    /// Append the item at `address` to the playlist `playlist_id`.
    Append { playlist_id: String, address: PlexMetadata },
}

/// What a `PlaylistMutation` holds.
pub ghost enum MutationView {
    Create { name: Seq<char>, address: PlexMetadataView },
    Append { playlist_id: Seq<char>, address: PlexMetadataView },
}

impl View for PlaylistMutation {
    type V = MutationView;

    open spec fn view(&self) -> MutationView {
        match self {
            PlaylistMutation::Create { name, address } => MutationView::Create {
                name: name@,
                address: address@,
            },
            PlaylistMutation::Append { playlist_id, address } => MutationView::Append {
                playlist_id: playlist_id@,
                address: address@,
            },
        }
    }
}

impl DeepView for PlaylistMutation {
    type V = MutationView;

    open spec fn deep_view(&self) -> MutationView {
        self@
    }
}

/// The change that puts the item at `address` into the playlist: a creation
/// while the playlist has no identifier, an append from then on.
pub open spec fn mutation_for(state: Option<Seq<char>>, name: Seq<char>, address: PlexMetadataView)
    -> MutationView {
    match state {
        None => MutationView::Create { name, address },
        Some(playlist_id) => MutationView::Append { playlist_id, address },
    }
}

/// The change that puts the item at `address` into the playlist `name`.
pub fn mutation(playlist_id: &PlaylistState, address: &PlexMetadata, name: &String) -> (r:
    PlaylistMutation)
    ensures
        r@ == mutation_for(playlist_id@, name@, address@),
{
    match playlist_id.destination_playlist_id() {
        None => PlaylistMutation::Create { name: name.clone(), address: address.clone() },
        Some(id) => PlaylistMutation::Append { playlist_id: id.clone(), address: address.clone() },
    }
}

/// The change that puts `plex_track` into the playlist; none for an entry
/// that is no item of the library.
pub fn playlist(playlist_id: &PlaylistState, plex_track: &TrackAlbumArtist, playlist_name: &String)
    -> (r: Option<PlaylistMutation>)
    ensures
        r.deep_view() == match plex_track@.metadata {
            MetadataView::Plex(address) => Some(mutation_for(playlist_id@, playlist_name@, address)),
            MetadataView::Spotify(_) => None,
        },
{
    match &plex_track.metadata {
        MetadataType::Plex(meta) => Some(mutation(playlist_id, meta, playlist_name)),
        MetadataType::Spotify(_) => None,
    }
}

/// The directories of a feature; none where it names none.
pub open spec fn feature_directories(feature: Feature) -> Seq<Directory> {
    match feature.directories {
        Some(directories) => directories@,
        None => Seq::empty(),
    }
}

/// The directories of `features`, feature after feature.
pub open spec fn directories_of(features: Seq<Feature>) -> Seq<Directory>
    decreases features.len(),
{
    if features.len() == 0 {
        Seq::empty()
    } else {
        directories_of(features.drop_last()) + feature_directories(features.last())
    }
}

/// The directories of `providers`, provider after provider.
pub open spec fn all_directories(providers: Seq<MediaProvider>) -> Seq<Directory>
    decreases providers.len(),
{
    if providers.len() == 0 {
        Seq::empty()
    } else {
        all_directories(providers.drop_last()) + directories_of(providers.last().features@)
    }
}

/// The directory holds music: its title is `Music`.
pub open spec fn is_music(directory: Directory) -> bool {
    directory.title matches Some(title) && title@ == "Music"@
}

/// The positions of the directories that hold music.
pub open spec fn music_directories(directories: Seq<Directory>) -> spec_fn(int) -> bool {
    |i: int| is_music(directories[i])
}

/// The identifier of the first directory that holds music, in the order of
/// the providers, their features and the directories of each; none where
/// there is no such directory or the first has no identifier.
pub open spec fn music_provider(providers: Seq<MediaProvider>) -> Option<Seq<char>> {
    let directories = all_directories(providers);
    match least(music_directories(directories), directories.len() as int) {
        Some(i) => match directories[i].id {
            Some(id) => Some(id@),
            None => None,
        },
        None => None,
    }
}

/// What the directories of `directories` are, one for one.
pub open spec fn referred(directories: Seq<&Directory>) -> Seq<Directory> {
    Seq::new(directories.len(), |i: int| *directories[i])
}

/// The directories of `providers`, provider after provider.
fn directories<'a>(providers: &'a Vec<MediaProvider>) -> (r: Vec<&'a Directory>)
    ensures
        referred(r@) == all_directories(providers@),
{
    let mut r: Vec<&Directory> = Vec::new();
    let mut p: usize = 0;
    assert(referred(r@) =~= all_directories(providers@.take(0)));
    while p < providers.len()
        invariant
            p <= providers.len(),
            referred(r@) == all_directories(providers@.take(p as int)),
        decreases providers.len() - p,
    {
        let features = &providers[p].features;
        let ghost before = referred(r@);
        let mut f: usize = 0;
        assert(referred(r@) =~= before + directories_of(features@.take(0)));
        while f < features.len()
            invariant
                f <= features.len(),
                referred(r@) == before + directories_of(features@.take(f as int)),
            decreases features.len() - f,
        {
            let ghost so_far = referred(r@);
            proof {
                assert(features@.take(f + 1).drop_last() =~= features@.take(f as int));
                assert(features@.take(f + 1).last() == features@[f as int]);
            }
            match &features[f].directories {
                Some(found) => {
                    let mut d: usize = 0;
                    assert(referred(r@) =~= so_far + found@.take(0));
                    while d < found.len()
                        invariant
                            d <= found.len(),
                            referred(r@) == so_far + found@.take(d as int),
                        decreases found.len() - d,
                    {
                        let ghost shorter = r@;
                        r.push(&found[d]);
                        proof {
                            let longer = so_far + found@.take(d + 1);
                            assert(referred(shorter).len() == shorter.len());
                            assert((so_far + found@.take(d as int)).len() == so_far.len() + d);
                            assert(referred(r@).len() == longer.len());
                            assert forall|k: int| 0 <= k < longer.len() implies referred(r@)[k]
                                == longer[k] by {
                                if k < shorter.len() {
                                    assert(r@[k] == shorter[k]);
                                    assert(referred(shorter)[k] == (so_far + found@.take(
                                        d as int,
                                    ))[k]);
                                }
                            }
                            assert(referred(r@) =~= longer);
                        }
                        d += 1;
                    }
                    assert(found@.take(found.len() as int) =~= found@);
                    assert(referred(r@) =~= before + directories_of(features@.take(f + 1)));
                },
                None => {
                    assert(referred(r@) =~= before + directories_of(features@.take(f + 1)));
                },
            }
            f += 1;
        }
        proof {
            assert(features@.take(features.len() as int) =~= features@);
            assert(providers@.take(p + 1).drop_last() =~= providers@.take(p as int));
            assert(providers@.take(p + 1).last() == providers@[p as int]);
        }
        p += 1;
    }
    assert(providers@.take(providers.len() as int) =~= providers@);
    r
}

/// The identifier of the first directory that holds music.
pub fn get_music_provider(providers: &MediaContainerWrapper<ProviderMediaContainer>) -> (r: Option<
    String,
>)
    ensures
        r.deep_view() == music_provider(providers.media_container.media_provider@),
{
    let all = directories(&providers.media_container.media_provider);
    let music = String::from_str("Music");
    let ghost p = music_directories(referred(all@));
    let mut i: usize = 0;
    while i < all.len()
        invariant
            i <= all.len(),
            music@ == "Music"@,
            referred(all@) == all_directories(providers.media_container.media_provider@),
            p == music_directories(referred(all@)),
            forall|k: int| 0 <= k < i ==> !#[trigger] p(k),
        decreases all.len() - i,
    {
        let holds_music = match &all[i].title {
            Some(title) => *title == music,
            None => false,
        };
        assert(holds_music == p(i as int));
        if holds_music {
            proof {
                assert(is_least(p, all.len() as int, i as int));
                lemma_least_is(p, all.len() as int, i as int);
                assert(referred(all@)[i as int] == *all[i as int]);
            }
            return match &all[i].id {
                Some(id) => Some(id.clone()),
                None => None,
            };
        }
        i += 1;
    }
    proof {
        lemma_least_none(p, all.len() as int);
    }
    None
}

/// The identifier that the library gave to a playlist it created: that of
/// the first item of its answer.
pub open spec fn created_id(response: MetadataMediaContainer) -> Option<Seq<char>> {
    match response.metadata {
        Some(items) => if items.len() > 0 {
            Some(items[0].rating_key@)
        } else {
            None
        },
        None => None,
    }
}

/// The identifier that the library gave to a playlist it created; none where
/// its answer holds no item.
pub fn created_playlist_id(response: &MediaContainerWrapper<MetadataMediaContainer>) -> (r: Option<
    String,
>)
    ensures
        r.deep_view() == created_id(response.media_container),
{
    match &response.media_container.metadata {
        Some(items) => if items.len() > 0 {
            Some(items[0].rating_key.clone())
        } else {
            None
        },
        None => None,
    }
}

/// Why a page of artists was refused.
#[derive(Clone, Copy, Debug, PartialEq, Eq, Structural)]
pub enum PageError {
    /// The page does not say how many artists there are.
    MissingTotal,
    /// The position after the page does not fit the counter.
    PositionOverflow,
    /// The page holds no list of items.
    MissingItems,
}

/// The artists of the library as far as they were read, page by page.
#[derive(Debug)]
pub struct ArtistPages {
    offset: i32,
    total: i32,
    artists: Vec<Metadata>,
}

/// What an `ArtistPages` holds.
pub ghost struct PagesView {
    pub offset: int,
    pub total: int,
    pub artists: Seq<Metadata>,
}

impl View for ArtistPages {
    type V = PagesView;

    closed spec fn view(&self) -> PagesView {
        PagesView { offset: self.offset as int, total: self.total as int, artists: self.artists@ }
    }
}

/// The pages after `page` was read, or why `page` is refused.
pub open spec fn with_page(pages: PagesView, page: MetadataMediaContainer) -> Result<
    PagesView,
    PageError,
> {
    if page.total_size is None {
        Err(PageError::MissingTotal)
    } else if pages.offset + page.size > i32::MAX || pages.offset + page.size < i32::MIN {
        Err(PageError::PositionOverflow)
    } else if page.metadata is None {
        Err(PageError::MissingItems)
    } else {
        Ok(
            PagesView {
                offset: pages.offset + page.size,
                total: page.total_size->0 as int,
                artists: pages.artists + page.metadata->0@,
            },
        )
    }
}

impl ArtistPages {
    /// Nothing was read yet: the first page is due.
    pub fn new() -> (r: Self)
        ensures
            r@ == (PagesView { offset: 0, total: 1, artists: Seq::empty() }),
    {
        ArtistPages { offset: 0, total: 1, artists: Vec::new() }
    }

    /// The position from which the next page is to be read.
    pub fn offset(&self) -> (r: i32)
        ensures
            r == self@.offset,
    {
        self.offset
    }

    /// Whether a page is still to be read.
    pub fn has_more(&self) -> (r: bool)
        ensures
            r == (self@.offset < self@.total),
    {
        self.offset < self.total
    }

    /// Takes the artists of `page` and moves on by its size. A page that is
    /// refused changes nothing.
    pub fn record(&mut self, page: MetadataMediaContainer) -> (r: Result<(), PageError>)
        ensures
            match with_page(old(self)@, page) {
                Ok(next) => r is Ok && final(self)@ == next,
                Err(e) => r == Err::<(), PageError>(e) && final(self)@ == old(self)@,
            },
    {
        let total = match page.total_size {
            Some(total) => total,
            None => {
                return Err(PageError::MissingTotal);
            },
        };
        let offset = match self.offset.checked_add(page.size) {
            Some(offset) => offset,
            None => {
                return Err(PageError::PositionOverflow);
            },
        };
        let mut items = match page.metadata {
            Some(items) => items,
            None => {
                return Err(PageError::MissingItems);
            },
        };
        self.total = total;
        self.offset = offset;
        self.artists.append(&mut items);
        Ok(())
    }

    /// The artists that were read.
    pub fn into_artists(self) -> (r: Vec<Metadata>)
        ensures
            r@ == self@.artists,
    {
        self.artists
    }
}

/// The group holds albums of the library itself: it has items, its kind is
/// `album`, and its context does not speak of `external`.
pub open spec fn is_album_hub(hub: Hub) -> bool {
    &&& hub.metadata is Some
    &&& hub.rtype@ == "album"@
    &&& !(hub.context matches Some(context) && contains_text(context@, "external"@))
}

/// Whether the group holds albums of the library itself.
pub fn album_hub(hub: &Hub) -> (r: bool)
    ensures
        r == is_album_hub(*hub),
{
    if hub.metadata.is_none() {
        return false;
    }
    if hub.rtype != String::from_str("album") {
        return false;
    }
    match &hub.context {
        Some(context) => !contains(&chars_of(context.as_str()), &chars_of("external")),
        None => true,
    }
}

/// The entries of one track of the library: one under the artist, and one
/// more under the original title where the track has one. Every text is in
/// lower case.
pub open spec fn track_entries(
    artist: Seq<char>,
    album: Seq<char>,
    track: Metadata,
    machine_identifier: Seq<char>,
    provider_identifier: Seq<char>,
) -> Seq<TrackView> {
    let primary = TrackView {
        track: lowercase(track.title@),
        album: lowercase(album),
        artist: seq![lowercase(artist)],
        metadata: MetadataView::Plex(
            PlexMetadataView {
                machine_identifier,
                provider_identifier,
                rating_key: track.rating_key@,
                key: track.key@,
            },
        ),
    };
    match track.original_title {
        Some(original) => seq![
            primary,
            TrackView { artist: seq![lowercase(original@)], ..primary },
        ],
        None => seq![primary],
    }
}

/// The entry of `track` under the name `name`.
fn entry_under(
    name: &str,
    album: &str,
    track: &Metadata,
    machine_identifier: &str,
    provider_identifier: &str,
) -> (r: TrackAlbumArtist)
    ensures
        r@ == (TrackView {
            track: lowercase(track.title@),
            album: lowercase(album@),
            artist: seq![lowercase(name@)],
            metadata: MetadataView::Plex(
                PlexMetadataView {
                    machine_identifier: machine_identifier@,
                    provider_identifier: provider_identifier@,
                    rating_key: track.rating_key@,
                    key: track.key@,
                },
            ),
        }),
{
    let mut artist: Vec<String> = Vec::new();
    artist.push(name.to_lowercase());
    let r = TrackAlbumArtist {
        track: track.title.as_str().to_lowercase(),
        album: album.to_lowercase(),
        artist,
        metadata: MetadataType::Plex(
            PlexMetadata {
                machine_identifier: String::from_str(machine_identifier),
                provider_identifier: String::from_str(provider_identifier),
                rating_key: track.rating_key.clone(),
                key: track.key.clone(),
            },
        ),
    };
    assert(r@.artist =~= seq![lowercase(name@)]);
    r
}

/// The entries of `track`, a track of the album `album` of the artist
/// `artist`, in a library whose providers are `providers`; none where the
/// library names no provider.
pub fn plex_track_entries(
    artist: &Metadata,
    album: &Metadata,
    track: &Metadata,
    providers: &ProviderMediaContainer,
) -> (r: Option<Vec<TrackAlbumArtist>>)
    ensures
        match r {
            Some(entries) => providers.media_provider.len() > 0 && entries.deep_view()
                == track_entries(
                artist.title@,
                album.title@,
                *track,
                providers.machine_identifier@,
                providers.media_provider[0].identifier@,
            ),
            None => providers.media_provider.len() == 0,
        },
{
    if providers.media_provider.len() == 0 {
        return None;
    }
    let machine = providers.machine_identifier.as_str();
    let provider = providers.media_provider[0].identifier.as_str();
    let mut entries: Vec<TrackAlbumArtist> = Vec::new();
    entries.push(entry_under(artist.title.as_str(), album.title.as_str(), track, machine, provider));
    match &track.original_title {
        Some(original) => {
            entries.push(
                entry_under(original.as_str(), album.title.as_str(), track, machine, provider),
            );
        },
        None => {},
    }
    assert(entries.deep_view() =~= track_entries(
        artist.title@,
        album.title@,
        *track,
        providers.machine_identifier@,
        providers.media_provider[0].identifier@,
    ));
    Some(entries)
}

} // verus!
