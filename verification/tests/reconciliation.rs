use playlist_sync::plex::matcher::{MatchResult, Strategy};
use playlist_sync::plex::{mutation, playlist, PlaylistMutation, PlaylistState};
use playlist_sync::reconcile::{
    find_near_misses, DeduplicationTracker, Outcome, Reconciliation,
};
use playlist_sync::track_album_artist::{
    MetadataType, PlexMetadata, SpotifyMetadata, TrackAlbumArtist,
};

fn wanted(track: &str, album: &str, artists: &[&str]) -> TrackAlbumArtist {
    TrackAlbumArtist {
        track: track.to_string(),
        album: album.to_string(),
        artist: artists.iter().map(|a| a.to_string()).collect(),
        metadata: MetadataType::Spotify(SpotifyMetadata { uri: format!("spotify:{}", track) }),
    }
}

fn address(rating_key: &str) -> PlexMetadata {
    PlexMetadata {
        machine_identifier: "machine".to_string(),
        provider_identifier: "com.plexapp.plugins.library".to_string(),
        rating_key: rating_key.to_string(),
        key: format!("/library/metadata/{}", rating_key),
    }
}

fn held(track: &str, album: &str, artists: &[&str], rating_key: &str) -> TrackAlbumArtist {
    TrackAlbumArtist {
        track: track.to_string(),
        album: album.to_string(),
        artist: artists.iter().map(|a| a.to_string()).collect(),
        metadata: MetadataType::Plex(address(rating_key)),
    }
}

fn start(pool: Vec<TrackAlbumArtist>) -> Reconciliation {
    match Reconciliation::new(pool, "mirror".to_string(), 5) {
        Some(state) => state,
        None => panic!("the pool holds an entry that is no item of the library"),
    }
}

#[test]
fn three_entries_two_matches_one_stranger() {
    let pool = vec![
        held("hello", "25", &["adele"], "101"),
        held("uptown funk", "uptown special", &["mark ronson"], "102"),
        held("yellow", "parachutes", &["coldplay"], "103"),
    ];
    let sources = vec![
        wanted("hello", "25 (deluxe)", &["adele"]),
        wanted("yellow", "parachutes (remaster)", &["coldplay"]),
        wanted("bohemian rhapsody", "a night at the opera", &["queen"]),
    ];
    let mut state = start(pool);
    let mut creations = 0;
    let mut appends = 0;
    let mut unmatched = 0;
    for source in sources.iter() {
        match state.process_entry(source) {
            Outcome::Claimed { mutation: PlaylistMutation::Create { name, address }, result } => {
                creations += 1;
                assert_eq!(name, "mirror");
                assert_eq!(address.rating_key, "101");
                assert_eq!(address.key, "/library/metadata/101");
                assert_eq!(
                    result,
                    MatchResult { index: 0, strategy: Strategy::ForwardBack, distance: None }
                );
                state.record_created("playlist-7".to_string());
            }
            Outcome::Claimed { mutation: PlaylistMutation::Append { playlist_id, address }, result } => {
                appends += 1;
                assert_eq!(playlist_id, "playlist-7");
                assert_eq!(address.rating_key, "103");
                assert_eq!(result.index, 2);
            }
            Outcome::DuplicateLogged { .. } => panic!("nothing was claimed twice"),
            Outcome::Unmatched { near_misses } => {
                unmatched += 1;
                assert_eq!(source.track, "bohemian rhapsody");
                assert!(near_misses.is_empty());
            }
        }
    }
    assert_eq!(creations, 1);
    assert_eq!(appends, 1);
    assert_eq!(unmatched, 1);
    assert_eq!(state.tracker().len(), 2);
    assert_eq!(state.playlist().destination_playlist_id(), Some(&"playlist-7".to_string()));
}

#[test]
fn unmatched_entry_changes_nothing() {
    let mut state = start(vec![held("hello", "25", &["adele"], "101")]);
    let outcome = state.process_entry(&wanted("bohemian rhapsody", "opera", &["queen"]));
    assert!(matches!(outcome, Outcome::Unmatched { .. }));
    assert_eq!(state.tracker().len(), 0);
    assert_eq!(state.playlist().destination_playlist_id(), None);
    // the next match is still the one that creates the playlist
    let outcome = state.process_entry(&wanted("hello", "25", &["adele"]));
    assert!(matches!(
        outcome,
        Outcome::Claimed { mutation: PlaylistMutation::Create { .. }, .. }
    ));
}

#[test]
fn creation_comes_once_and_first() {
    let pool = vec![
        held("one", "a", &["x"], "1"),
        held("two", "a", &["y"], "2"),
        held("three", "a", &["z"], "3"),
    ];
    let mut state = start(pool);
    let sources = vec![
        wanted("stranger", "s", &["nobody"]),
        wanted("two", "b", &["y"]),
        wanted("one", "b", &["x"]),
        wanted("three", "b", &["z"]),
    ];
    let mut kinds: Vec<&str> = Vec::new();
    for source in sources.iter() {
        match state.process_entry(source) {
            Outcome::Claimed { mutation: PlaylistMutation::Create { .. }, .. } => {
                kinds.push("create");
                state.record_created("p".to_string());
            }
            Outcome::Claimed { mutation: PlaylistMutation::Append { playlist_id, .. }, .. } => {
                assert_eq!(playlist_id, "p");
                kinds.push("append");
            }
            Outcome::DuplicateLogged { .. } => kinds.push("duplicate"),
            Outcome::Unmatched { .. } => kinds.push("unmatched"),
        }
    }
    assert_eq!(kinds, vec!["unmatched", "create", "append", "append"]);
    assert_eq!(state.tracker().len(), 3);
}

#[test]
fn second_claim_on_an_item_is_a_duplicate() {
    // one item of the library under two artists, as the library lists a
    // track that has an original title
    let pool = vec![
        held("under pressure", "hot space", &["queen"], "55"),
        held("under pressure", "hot space", &["david bowie"], "55"),
    ];
    let mut state = start(pool);
    let first = wanted("under pressure", "greatest hits", &["queen"]);
    let second = wanted("under pressure", "best of bowie", &["david bowie"]);
    match state.process_entry(&first) {
        Outcome::Claimed { mutation: PlaylistMutation::Create { .. }, result } => {
            assert_eq!(result.index, 0);
            state.record_created("p".to_string());
        }
        _ => panic!("the first entry claims the item"),
    }
    match state.process_entry(&second) {
        Outcome::DuplicateLogged { result, first: standing } => {
            assert_eq!(result.index, 1);
            assert_eq!(standing.item_id, "55");
            assert_eq!(standing.source, first);
            assert_eq!(standing.target.artist, vec!["queen".to_string()]);
        }
        _ => panic!("the second entry is a duplicate"),
    }
    assert_eq!(state.tracker().len(), 1);
    // a third entry for the same item is a duplicate of the same claim
    match state.process_entry(&first) {
        Outcome::DuplicateLogged { first: standing, .. } => assert_eq!(standing.source, first),
        _ => panic!("the third entry is a duplicate"),
    }
    assert_eq!(state.tracker().len(), 1);
}

#[test]
fn duplicate_does_not_count_as_the_first_success() {
    let pool = vec![held("a", "x", &["q"], "1"), held("b", "x", &["q"], "2")];
    let mut state = start(pool);
    assert!(matches!(
        state.process_entry(&wanted("a", "y", &["q"])),
        Outcome::Claimed { mutation: PlaylistMutation::Create { .. }, .. }
    ));
    state.record_created("p".to_string());
    assert!(matches!(
        state.process_entry(&wanted("a", "z", &["q"])),
        Outcome::DuplicateLogged { .. }
    ));
    assert!(matches!(
        state.process_entry(&wanted("b", "y", &["q"])),
        Outcome::Claimed { mutation: PlaylistMutation::Append { .. }, .. }
    ));
}

#[test]
fn near_misses_share_artists_or_album() {
    let pool = vec![
        held("track one", "the album", &["the artist"], "1"),
        held("track two", "another album", &["the artist"], "2"),
        held("track three", "the album", &["someone else"], "3"),
        held("track four", "another album", &["someone else"], "4"),
        held("track five", "another album", &["the artist", "a guest"], "5"),
    ];
    let source = wanted("zzzzzzzzzzzzzzzzzzzz", "the album", &["the artist"]);
    assert_eq!(find_near_misses(&pool, &source), vec![0, 1, 2]);
    let mut state = start(pool);
    match state.process_entry(&source) {
        Outcome::Unmatched { near_misses } => assert_eq!(near_misses, vec![0, 1, 2]),
        _ => panic!("nothing qualifies"),
    }
    let empty: Vec<TrackAlbumArtist> = Vec::new();
    assert_eq!(find_near_misses(&empty, &source), Vec::<usize>::new());
}

#[test]
fn a_pool_with_a_foreign_entry_is_refused() {
    let pool = vec![
        held("hello", "25", &["adele"], "101"),
        wanted("hello", "25", &["adele"]),
    ];
    assert!(Reconciliation::new(pool, "mirror".to_string(), 5).is_none());
    let empty: Vec<TrackAlbumArtist> = Vec::new();
    let state = Reconciliation::new(empty, "mirror".to_string(), 5);
    assert!(state.is_some());
    assert_eq!(state.map(|s| s.pool().len()), Some(0));
}

#[test]
fn the_threshold_of_the_run_is_the_one_given() {
    let pool = vec![held("closer12345", "x", &["chainsmokers"], "1")];
    let source = wanted("closer!", "y", &["chainsmokers!"]);
    let mut strict = match Reconciliation::new(pool.clone(), "m".to_string(), 5) {
        Some(state) => state,
        None => panic!("a pool of library items"),
    };
    assert!(matches!(strict.process_entry(&source), Outcome::Unmatched { .. }));
    let mut loose = match Reconciliation::new(pool, "m".to_string(), 11) {
        Some(state) => state,
        None => panic!("a pool of library items"),
    };
    match loose.process_entry(&source) {
        Outcome::Claimed { result, .. } => {
            assert_eq!(result.strategy, Strategy::Levenshtein);
            assert_eq!(result.distance, Some(6));
        }
        _ => panic!("the distance is below the threshold"),
    }
}

#[test]
fn tracker_keeps_the_first_claim() {
    let mut tracker = DeduplicationTracker::new();
    assert_eq!(tracker.len(), 0);
    let a = wanted("a", "x", &["q"]);
    let b = wanted("b", "x", &["q"]);
    let item = held("a", "y", &["q"], "9");
    assert!(!tracker.contains_key(&"9".to_string()));
    assert!(tracker.get(&"9".to_string()).is_none());
    assert!(tracker.insert("9".to_string(), a.clone(), item.clone()));
    assert!(!tracker.insert("9".to_string(), b.clone(), item.clone()));
    assert!(tracker.insert("10".to_string(), b.clone(), item.clone()));
    assert_eq!(tracker.len(), 2);
    assert!(tracker.contains_key(&"9".to_string()));
    assert_eq!(tracker.position(&"10".to_string()), Some(1));
    assert_eq!(tracker.position(&"11".to_string()), None);
    match tracker.get(&"9".to_string()) {
        Some(claim) => {
            assert_eq!(claim.source, a);
            assert_eq!(claim.target, item);
        }
        None => panic!("the item was claimed"),
    }
    assert_eq!(tracker.claim(1).source, b);
}

#[test]
fn playlist_is_created_first_and_appended_to_afterwards() {
    let mut state = PlaylistState::new();
    assert_eq!(state.destination_playlist_id(), None);
    let item = held("hello", "25", &["adele"], "101");
    let name = "mirror".to_string();
    match playlist(&state, &item, &name) {
        Some(PlaylistMutation::Create { name, address }) => {
            assert_eq!(name, "mirror");
            assert_eq!(address, address_of(&item));
        }
        _ => panic!("a playlist without identifier is created"),
    }
    state.record_created("42".to_string());
    match playlist(&state, &item, &name) {
        Some(PlaylistMutation::Append { playlist_id, address }) => {
            assert_eq!(playlist_id, "42");
            assert_eq!(address, address_of(&item));
        }
        _ => panic!("a playlist with identifier is appended to"),
    }
    // the first identifier stays
    state.record_created("43".to_string());
    assert_eq!(state.destination_playlist_id(), Some(&"42".to_string()));
    assert!(matches!(
        mutation(&state, &address("7"), &name),
        PlaylistMutation::Append { .. }
    ));
}

fn address_of(entry: &TrackAlbumArtist) -> PlexMetadata {
    match &entry.metadata {
        MetadataType::Plex(meta) => meta.clone(),
        MetadataType::Spotify(_) => panic!("an item of the library"),
    }
}

#[test]
fn playlist_has_no_change_for_a_foreign_entry() {
    let state = PlaylistState::new();
    let name = "mirror".to_string();
    assert!(playlist(&state, &wanted("hello", "25", &["adele"]), &name).is_none());
}

#[test]
fn entries_compare_by_what_they_hold() {
    let a = held("hello", "25", &["adele"], "101");
    assert_eq!(a, a.clone());
    assert_ne!(a, held("hello", "25", &["adele"], "102"));
    assert_ne!(a, held("hello", "25", &["adele", "x"], "101"));
    assert_ne!(a, held("hello", "21", &["adele"], "101"));
    assert_ne!(a, wanted("hello", "25", &["adele"]));
    assert_eq!(wanted("hello", "25", &["adele"]), wanted("hello", "25", &["adele"]));
}
