//! The requests that are sent to the target library.
//!
//! A `Plex` knows where the server is and the token that opens it. Its
//! methods make the requests; sending them is left to the caller.

use crate::text::{decimal, push_decimal};
use vstd::prelude::*;

verus! {

/// The method of a request.
#[derive(Clone, Copy, Debug, PartialEq, Eq, Structural)]
pub enum Method {
    Get,
    Post,
    Put,
}

/// A request: its method, its address, and the token to send with it. The
/// token goes into the header `X-Plex-Token`, and the header `Accept` asks
/// for `application/json`.
#[derive(Debug)]
pub struct Request {
    pub method: Method,
    pub url: String,
    pub token: String,
}

/// What a `Request` holds.
pub ghost struct RequestView {
    pub method: Method,
    pub url: Seq<char>,
    pub token: Seq<char>,
}

impl View for Request {
    type V = RequestView;

    open spec fn view(&self) -> RequestView {
        RequestView { method: self.method, url: self.url@, token: self.token@ }
    }
}

/// A server of the target library.
#[derive(Debug)]
pub struct Plex {
    base_url: String,
    token: String,
}

/// What a `Plex` holds.
pub ghost struct PlexView {
    pub base_url: Seq<char>,
    pub token: Seq<char>,
}

impl View for Plex {
    type V = PlexView;

    closed spec fn view(&self) -> PlexView {
        PlexView { base_url: self.base_url@, token: self.token@ }
    }
}

/// The request with method `method` for the path `path` of `plex`.
pub open spec fn request_for(plex: PlexView, method: Method, path: Seq<char>) -> RequestView {
    RequestView { method, url: plex.base_url + "/"@ + path, token: plex.token }
}

/// The path that lists the providers of the server.
pub open spec fn providers_path() -> Seq<char> {
    "media/providers"@
}

/// The path that lists the artists of the section `section`, fifty at a
/// time, from position `offset`.
pub open spec fn artists_path(section: Seq<char>, offset: int) -> Seq<char> {
    "library/sections/"@ + section + "/all?type="@ + decimal(8)
        + "&includeCollections=1&includeExternalMedia=1&includeAdvanced=1&includeMeta=1&X-Plex-Container-Start="@
        + decimal(offset) + "&X-Plex-Container-Size=50"@
}

/// The path that lists the items of kind `type_id` that the artist `artist`
/// has in the section `section`, but for singles, compilations and the
/// like.
pub open spec fn extra_items_path(section: Seq<char>, artist: Seq<char>, type_id: int) -> Seq<
    char,
> {
    "library/sections/"@ + section
        + "/all?format!=EP,Single,Compilation,Live,Soundtrack&artist.id="@ + artist
        + "&includeMetadata=1&type="@ + decimal(type_id)
        + "&X-Plex-Container-Start=0&X-Plex-Container-Size=1000"@
}

/// The path of what is related to the item `key`.
pub open spec fn extras_path(key: Seq<char>) -> Seq<char> {
    "library/metadata/"@ + key
        + "/related?includeAugmentations=1&includeExternalMetadata=1&includeMeta=1"@
}

/// The path of the item `key`, with all that the server knows of it.
pub open spec fn metadata_path(key: Seq<char>) -> Seq<char> {
    "library/metadata/"@ + key
        + "?includeConcerts=1&includeExtras=1&includeOnDeck=1&includePopularLeaves=1&includePreferences=1&includeReviews=1&includeChapters=1&includeStations=1&includeExternalMedia=1&asyncAugmentMetadata=1&asyncCheckFiles=1&asyncRefreshAnalysis=1&asyncRefreshLocalMediaAgent=1"@
}

/// The path of the items below the item `key`.
pub open spec fn metadata_children_path(key: Seq<char>) -> Seq<char> {
    "library/metadata/"@ + key + "/children"@
}

/// The path that creates the audio playlist `name` with one item in it: the
/// item `key` of the provider `provider_identifier` on the server
/// `machine_identifier`.
pub open spec fn create_playlist_path(
    name: Seq<char>,
    machine_identifier: Seq<char>,
    provider_identifier: Seq<char>,
    key: Seq<char>,
) -> Seq<char> {
    "playlists?type=audio&smart=0&uri=server://"@ + machine_identifier + "/"@ + provider_identifier
        + key + "&title="@ + name
}

/// The path that appends one item to the playlist `playlist_key`: the item
/// `key` of the provider `provider_identifier` on the server
/// `machine_identifier`.
pub open spec fn update_playlist_path(
    playlist_key: Seq<char>,
    machine_identifier: Seq<char>,
    provider_identifier: Seq<char>,
    key: Seq<char>,
) -> Seq<char> {
    "playlists/"@ + playlist_key + "/items?uri=server://"@ + machine_identifier + "/"@
        + provider_identifier + key
}

impl Plex {
    /// The server at `base_url`, opened by `token`.
    pub fn new(base_url: String, token: String) -> (r: Self)
        ensures
            r@ == (PlexView { base_url: base_url@, token: token@ }),
    {
        Self { base_url, token }
    }

    /// The request with method `method` for the path `url`.
    fn request(&self, method: Method, url: &str) -> (r: Request)
        ensures
            r@ == request_for(self@, method, url@),
    {
        let mut address = self.base_url.clone();
        address.append("/");
        address.append(url);
        Request { method, url: address, token: self.token.clone() }
    }

    /// The request that reads the path `url`.
    pub fn get(&self, url: &str) -> (r: Request)
        ensures
            r@ == request_for(self@, Method::Get, url@),
    {
        self.request(Method::Get, url)
    }

    /// The request that posts to the path `url`.
    pub fn post(&self, url: &str) -> (r: Request)
        ensures
            r@ == request_for(self@, Method::Post, url@),
    {
        self.request(Method::Post, url)
    }

    /// The request that puts to the path `url`.
    pub fn put(&self, url: &str) -> (r: Request)
        ensures
            r@ == request_for(self@, Method::Put, url@),
    {
        self.request(Method::Put, url)
    }

    /// The request that lists the providers of the server.
    pub fn get_providers(&self) -> (r: Request)
        ensures
            r@ == request_for(self@, Method::Get, providers_path()),
    {
        self.get("media/providers")
    }

    /// The request that lists the artists of the section `section`, fifty at
    /// a time, from position `offset`.
    pub fn get_artists(&self, section: String, offset: i32) -> (r: Request)
        ensures
            r@ == request_for(self@, Method::Get, artists_path(section@, offset as int)),
    {
        let mut path = String::from_str("library/sections/");
        path.append(section.as_str());
        path.append("/all?type=");
        push_decimal(8, &mut path);
        path.append(
            "&includeCollections=1&includeExternalMedia=1&includeAdvanced=1&includeMeta=1&X-Plex-Container-Start=",
        );
        push_decimal(offset, &mut path);
        path.append("&X-Plex-Container-Size=50");
        self.get(path.as_str())
    }

    /// The request that lists the items of kind `type_id` that the artist
    /// `artist` has in the section `section`.
    pub fn get_extra_items(&self, section: &String, artist: &String, type_id: i32) -> (r: Request)
        ensures
            r@ == request_for(
                self@,
                Method::Get,
                extra_items_path(section@, artist@, type_id as int),
            ),
    {
        let mut path = String::from_str("library/sections/");
        path.append(section.as_str());
        path.append("/all?format!=EP,Single,Compilation,Live,Soundtrack&artist.id=");
        path.append(artist.as_str());
        path.append("&includeMetadata=1&type=");
        push_decimal(type_id, &mut path);
        path.append("&X-Plex-Container-Start=0&X-Plex-Container-Size=1000");
        self.get(path.as_str())
    }

    /// The request that reads what is related to the item `key`.
    pub fn get_extras(&self, key: &str) -> (r: Request)
        ensures
            r@ == request_for(self@, Method::Get, extras_path(key@)),
    {
        let mut path = String::from_str("library/metadata/");
        path.append(key);
        path.append("/related?includeAugmentations=1&includeExternalMetadata=1&includeMeta=1");
        self.get(path.as_str())
    }

    /// The request that reads the item `key`.
    pub fn get_metadata(&self, key: &str) -> (r: Request)
        ensures
            r@ == request_for(self@, Method::Get, metadata_path(key@)),
    {
        let mut path = String::from_str("library/metadata/");
        path.append(key);
        path.append(
            "?includeConcerts=1&includeExtras=1&includeOnDeck=1&includePopularLeaves=1&includePreferences=1&includeReviews=1&includeChapters=1&includeStations=1&includeExternalMedia=1&asyncAugmentMetadata=1&asyncCheckFiles=1&asyncRefreshAnalysis=1&asyncRefreshLocalMediaAgent=1",
        );
        self.get(path.as_str())
    }

    /// The request that lists the items below the item `key`.
    pub fn get_metadata_children(&self, key: &str) -> (r: Request)
        ensures
            r@ == request_for(self@, Method::Get, metadata_children_path(key@)),
    {
        let mut path = String::from_str("library/metadata/");
        path.append(key);
        path.append("/children");
        self.get(path.as_str())
    }

    /// The request that creates the playlist `name` with one item in it.
    pub fn create_playlist(
        &self,
        name: &str,
        machine_identifier: &str,
        provider_identifier: &str,
        key: &str,
    ) -> (r: Request)
        ensures
            r@ == request_for(
                self@,
                Method::Post,
                create_playlist_path(name@, machine_identifier@, provider_identifier@, key@),
            ),
    {
        let mut path = String::from_str("playlists?type=audio&smart=0&uri=server://");
        path.append(machine_identifier);
        path.append("/");
        path.append(provider_identifier);
        path.append(key);
        path.append("&title=");
        path.append(name);
        self.post(path.as_str())
    }

    /// The request that appends one item to the playlist `playlist_key`.
    pub fn update_playlist(
        &self,
        playlist_key: &str,
        machine_identifier: &str,
        provider_identifier: &str,
        key: &str,
    ) -> (r: Request)
        ensures
            r@ == request_for(
                self@,
                Method::Put,
                update_playlist_path(playlist_key@, machine_identifier@, provider_identifier@, key@),
            ),
    {
        let mut path = String::from_str("playlists/");
        path.append(playlist_key);
        path.append("/items?uri=server://");
        path.append(machine_identifier);
        path.append("/");
        path.append(provider_identifier);
        path.append(key);
        self.put(path.as_str())
    }
}

} // verus!
