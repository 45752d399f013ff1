use playlist_sync::plex::client::{Method, Plex};
use playlist_sync::plex::models::extras::Hub;
use playlist_sync::plex::models::metadata::{Metadata, MetadataMediaContainer};
use playlist_sync::plex::models::providers::{
    Directory, Feature, MediaProvider, ProviderMediaContainer,
};
use playlist_sync::plex::models::MediaContainerWrapper;
use playlist_sync::plex::{
    album_hub, created_playlist_id, get_music_provider, plex_track_entries, ArtistPages, PageError,
};
use playlist_sync::spotify::{episode_entry, track_entry};
use playlist_sync::track_album_artist::{MetadataType, PlexMetadata, SpotifyMetadata};

fn server() -> Plex {
    Plex::new("http://plex.local:32400".to_string(), "t0ken".to_string())
}

fn item(key: &str, rating_key: &str, title: &str, original_title: Option<&str>) -> Metadata {
    Metadata {
        key: key.to_string(),
        rating_key: rating_key.to_string(),
        title: title.to_string(),
        rtype: "track".to_string(),
        original_title: original_title.map(|t| t.to_string()),
    }
}

fn directory(title: Option<&str>, id: Option<&str>) -> Directory {
    Directory { agent: None, title: title.map(|t| t.to_string()), id: id.map(|i| i.to_string()) }
}

fn feature(directories: Option<Vec<Directory>>) -> Feature {
    Feature { key: None, rtype: "content".to_string(), directories }
}

fn providers(list: Vec<MediaProvider>) -> MediaContainerWrapper<ProviderMediaContainer> {
    MediaContainerWrapper {
        media_container: ProviderMediaContainer {
            friendly_name: "home".to_string(),
            machine_identifier: "machine".to_string(),
            media_provider: list,
        },
    }
}

fn provider(identifier: &str, features: Vec<Feature>) -> MediaProvider {
    MediaProvider { title: "Library".to_string(), identifier: identifier.to_string(), features }
}

#[test]
fn requests_carry_method_address_and_token() {
    let get = server().get("some/path");
    assert_eq!(get.method, Method::Get);
    assert_eq!(get.url, "http://plex.local:32400/some/path");
    assert_eq!(get.token, "t0ken");
    let post = server().post("p");
    assert_eq!(post.method, Method::Post);
    assert_eq!(post.url, "http://plex.local:32400/p");
    let put = server().put("");
    assert_eq!(put.method, Method::Put);
    assert_eq!(put.url, "http://plex.local:32400/");
    assert_eq!(put.token, "t0ken");
}

#[test]
fn request_for_the_providers() {
    let r = server().get_providers();
    assert_eq!(r.method, Method::Get);
    assert_eq!(r.url, "http://plex.local:32400/media/providers");
}

#[test]
fn request_for_a_page_of_artists() {
    let r = server().get_artists("3".to_string(), 150);
    assert_eq!(r.method, Method::Get);
    assert_eq!(
        r.url,
        "http://plex.local:32400/library/sections/3/all?type=8&includeCollections=1&includeExternalMedia=1&includeAdvanced=1&includeMeta=1&X-Plex-Container-Start=150&X-Plex-Container-Size=50"
    );
    let r = server().get_artists("music".to_string(), 0);
    assert!(r.url.ends_with("X-Plex-Container-Start=0&X-Plex-Container-Size=50"));
}

#[test]
fn request_for_extra_items() {
    let r = server().get_extra_items(&"3".to_string(), &"77".to_string(), 9);
    assert_eq!(r.method, Method::Get);
    assert_eq!(
        r.url,
        "http://plex.local:32400/library/sections/3/all?format!=EP,Single,Compilation,Live,Soundtrack&artist.id=77&includeMetadata=1&type=9&X-Plex-Container-Start=0&X-Plex-Container-Size=1000"
    );
}

#[test]
fn requests_for_an_item() {
    assert_eq!(
        server().get_metadata_children("77").url,
        "http://plex.local:32400/library/metadata/77/children"
    );
    assert_eq!(
        server().get_extras("77").url,
        "http://plex.local:32400/library/metadata/77/related?includeAugmentations=1&includeExternalMetadata=1&includeMeta=1"
    );
    assert_eq!(
        server().get_metadata("77").url,
        "http://plex.local:32400/library/metadata/77?includeConcerts=1&includeExtras=1&includeOnDeck=1&includePopularLeaves=1&includePreferences=1&includeReviews=1&includeChapters=1&includeStations=1&includeExternalMedia=1&asyncAugmentMetadata=1&asyncCheckFiles=1&asyncRefreshAnalysis=1&asyncRefreshLocalMediaAgent=1"
    );
    assert_eq!(server().get_metadata("77").method, Method::Get);
}

#[test]
fn requests_that_change_the_playlist() {
    let create = server().create_playlist(
        "mirror",
        "machine",
        "com.plexapp.plugins.library",
        "/library/metadata/101",
    );
    assert_eq!(create.method, Method::Post);
    assert_eq!(
        create.url,
        "http://plex.local:32400/playlists?type=audio&smart=0&uri=server://machine/com.plexapp.plugins.library/library/metadata/101&title=mirror"
    );
    let update = server().update_playlist(
        "42",
        "machine",
        "com.plexapp.plugins.library",
        "/library/metadata/102",
    );
    assert_eq!(update.method, Method::Put);
    assert_eq!(
        update.url,
        "http://plex.local:32400/playlists/42/items?uri=server://machine/com.plexapp.plugins.library/library/metadata/102"
    );
}

#[test]
fn music_provider_is_the_first_directory_titled_music() {
    let list = providers(vec![
        provider("first", vec![feature(None), feature(Some(vec![directory(Some("Films"), Some("1"))]))]),
        provider(
            "second",
            vec![
                feature(Some(vec![])),
                feature(Some(vec![
                    directory(None, Some("2")),
                    directory(Some("Music"), Some("3")),
                    directory(Some("Music"), Some("4")),
                ])),
            ],
        ),
        provider("third", vec![feature(Some(vec![directory(Some("Music"), Some("5"))]))]),
    ]);
    assert_eq!(get_music_provider(&list), Some("3".to_string()));
}

#[test]
fn music_provider_is_missing_without_a_music_directory() {
    assert_eq!(get_music_provider(&providers(vec![])), None);
    let list = providers(vec![provider(
        "only",
        vec![feature(Some(vec![directory(Some("music"), Some("1")), directory(None, None)]))],
    )]);
    assert_eq!(get_music_provider(&list), None);
}

#[test]
fn music_provider_stops_at_the_first_music_directory_even_without_identifier() {
    let list = providers(vec![provider(
        "only",
        vec![feature(Some(vec![
            directory(Some("Music"), None),
            directory(Some("Music"), Some("2")),
        ]))],
    )]);
    assert_eq!(get_music_provider(&list), None);
}

#[test]
fn created_playlist_is_named_by_the_first_item_of_the_answer() {
    let answer = |metadata: Option<Vec<Metadata>>| MediaContainerWrapper {
        media_container: MetadataMediaContainer { total_size: None, size: 1, metadata },
    };
    assert_eq!(
        created_playlist_id(&answer(Some(vec![
            item("/playlists/42/items", "42", "mirror", None),
            item("/playlists/43/items", "43", "other", None),
        ]))),
        Some("42".to_string())
    );
    assert_eq!(created_playlist_id(&answer(Some(vec![]))), None);
    assert_eq!(created_playlist_id(&answer(None)), None);
}

#[test]
fn pages_of_artists_are_read_until_the_total_is_reached() {
    let mut pages = ArtistPages::new();
    assert!(pages.has_more());
    assert_eq!(pages.offset(), 0);
    let page = |size: i32, total: i32, titles: &[&str]| MetadataMediaContainer {
        total_size: Some(total),
        size,
        metadata: Some(titles.iter().map(|t| item("/k", "1", t, None)).collect()),
    };
    assert_eq!(pages.record(page(2, 3, &["a", "b"])), Ok(()));
    assert!(pages.has_more());
    assert_eq!(pages.offset(), 2);
    assert_eq!(pages.record(page(1, 3, &["c"])), Ok(()));
    assert!(!pages.has_more());
    assert_eq!(pages.offset(), 3);
    let titles: Vec<String> = pages.into_artists().into_iter().map(|m| m.title).collect();
    assert_eq!(titles, vec!["a", "b", "c"]);
}

#[test]
fn a_page_without_total_is_refused() {
    let mut pages = ArtistPages::new();
    let page = MetadataMediaContainer { total_size: None, size: 5, metadata: None };
    assert_eq!(pages.record(page), Err(PageError::MissingTotal));
    assert_eq!(pages.offset(), 0);
    assert!(pages.has_more());
}

#[test]
fn a_page_that_overflows_the_position_is_refused() {
    let mut pages = ArtistPages::new();
    let first = MetadataMediaContainer { total_size: Some(i32::MAX), size: i32::MAX, metadata: Some(vec![]) };
    assert_eq!(pages.record(first), Ok(()));
    assert_eq!(pages.offset(), i32::MAX);
    let second = MetadataMediaContainer { total_size: Some(1), size: 1, metadata: Some(vec![]) };
    assert_eq!(pages.record(second), Err(PageError::PositionOverflow));
    assert_eq!(pages.offset(), i32::MAX);
    assert!(!pages.has_more());
}

#[test]
fn a_page_without_items_is_refused() {
    let mut pages = ArtistPages::new();
    let page = MetadataMediaContainer { total_size: Some(9), size: 5, metadata: None };
    assert_eq!(pages.record(page), Err(PageError::MissingItems));
    assert_eq!(pages.offset(), 0);
    assert_eq!(pages.into_artists().len(), 0);
}

#[test]
fn album_hubs_are_told_from_the_others() {
    let hub = |rtype: &str, context: Option<&str>, metadata: Option<Vec<Metadata>>| Hub {
        size: 1,
        title: "Albums".to_string(),
        rtype: rtype.to_string(),
        context: context.map(|c| c.to_string()),
        metadata,
    };
    assert!(album_hub(&hub("album", None, Some(vec![]))));
    assert!(album_hub(&hub("album", Some("hub.artist.albums"), Some(vec![]))));
    assert!(!album_hub(&hub("album", Some("hub.external.artist.albums"), Some(vec![]))));
    assert!(!album_hub(&hub("album", None, None)));
    assert!(!album_hub(&hub("track", None, Some(vec![]))));
    assert!(!album_hub(&hub("Album", None, Some(vec![]))));
}

#[test]
fn a_track_of_the_library_gives_one_entry_in_lower_case() {
    let list = providers(vec![provider("com.plexapp.plugins.library", vec![])]);
    let artist = item("/a", "1", "Mark Ronson", None);
    let album = item("/b", "2", "Uptown Special", None);
    let track = item("/library/metadata/3", "3", "Uptown FUNK", None);
    let entries = plex_track_entries(&artist, &album, &track, &list.media_container);
    let entries = match entries {
        Some(entries) => entries,
        None => panic!("the library names a provider"),
    };
    assert_eq!(entries.len(), 1);
    assert_eq!(entries[0].track, "uptown funk");
    assert_eq!(entries[0].album, "uptown special");
    assert_eq!(entries[0].artist, vec!["mark ronson".to_string()]);
    assert_eq!(
        entries[0].metadata,
        MetadataType::Plex(PlexMetadata {
            machine_identifier: "machine".to_string(),
            provider_identifier: "com.plexapp.plugins.library".to_string(),
            rating_key: "3".to_string(),
            key: "/library/metadata/3".to_string(),
        })
    );
}

#[test]
fn a_track_with_original_title_gives_a_second_entry() {
    let list = providers(vec![provider("first", vec![]), provider("second", vec![])]);
    let artist = item("/a", "1", "Various Artists", None);
    let album = item("/b", "2", "Hot Space", None);
    let track = item("/library/metadata/3", "3", "Under Pressure", Some("Queen & David Bowie"));
    let entries = match plex_track_entries(&artist, &album, &track, &list.media_container) {
        Some(entries) => entries,
        None => panic!("the library names a provider"),
    };
    assert_eq!(entries.len(), 2);
    assert_eq!(entries[0].artist, vec!["various artists".to_string()]);
    assert_eq!(entries[1].artist, vec!["queen & david bowie".to_string()]);
    assert_eq!(entries[1].track, "under pressure");
    assert_eq!(entries[1].album, "hot space");
    assert_eq!(entries[0].metadata, entries[1].metadata);
    match &entries[1].metadata {
        MetadataType::Plex(meta) => assert_eq!(meta.provider_identifier, "first"),
        MetadataType::Spotify(_) => panic!("an item of the library"),
    }
}

#[test]
fn a_library_without_provider_gives_no_entries() {
    let list = providers(vec![]);
    let artist = item("/a", "1", "a", None);
    assert!(plex_track_entries(&artist, &artist, &artist, &list.media_container).is_none());
}

#[test]
fn a_track_of_the_playlist_is_lowered_and_its_artists_trimmed() {
    let entry = track_entry(
        "Uptown Funk (feat. Bruno Mars)",
        "Uptown Special",
        &vec![" Mark Ronson ".to_string(), "Bruno Mars\t".to_string()],
        "https://api.spotify.com/v1/tracks/1",
    );
    assert_eq!(entry.track, "uptown funk (feat. bruno mars)");
    assert_eq!(entry.album, "uptown special");
    assert_eq!(entry.artist, vec!["mark ronson".to_string(), "bruno mars".to_string()]);
    assert_eq!(
        entry.metadata,
        MetadataType::Spotify(SpotifyMetadata {
            uri: "https://api.spotify.com/v1/tracks/1".to_string()
        })
    );
    let bare = track_entry("X", "Y", &vec![], "u");
    assert!(bare.artist.is_empty());
}

#[test]
fn an_episode_of_the_playlist_stands_under_its_publisher() {
    let entry = episode_entry("Episode ONE", "The Show", " The Publisher ", "u");
    assert_eq!(entry.track, "episode one");
    assert_eq!(entry.album, "the show");
    assert_eq!(entry.artist, vec![" the publisher ".to_string()]);
    assert_eq!(entry.metadata, MetadataType::Spotify(SpotifyMetadata { uri: "u".to_string() }));
}
