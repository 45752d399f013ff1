//! Reconciles a source playlist with a target music library.
//!
//! The two catalogs share no identifier: an entry is known by its track
//! title, its album title and the names of its artists. For each entry of
//! the source playlist a cascade of matching strategies looks for the entry
//! of the target library that stands for the same track, and the matches
//! become the changes that build a playlist in the library.
//!
//! - `track_album_artist`: the catalog entries.
//! - `text`: texts as sequences of characters.
//! - `plex::matcher`: the strategies (affix, ranking by edit distance,
//!   character replacement, section removal) and their cascade.
//! - `reconcile`: the run over the source catalog, with the tracker of
//!   claimed items and the state of the playlist.
//! - `plex`: the requests to the library, its documents, and how its items
//!   become catalog entries.
//! - `spotify`: how the items of the source playlist become catalog entries.
//!
//! The library computes and decides. Reading the catalogs and sending the
//! changes is left to the caller.

pub mod plex;
pub mod reconcile;
pub mod spotify;
pub mod text;
pub mod track_album_artist;
