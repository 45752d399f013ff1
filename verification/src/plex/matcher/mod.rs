//! The matching strategies and what they have in common.
//!
//! A strategy looks at a source entry and at the pool of target entries and
//! answers with the position of one target entry, or with nothing. Only the
//! track title and the artist names take part: together they are an entry's
//! comparison key.

pub mod cascade;
pub mod character_replacement;
pub mod forward_backward;
pub mod levenshtein;
pub mod remove_sections;

use crate::text::{chars_of, chars_of_each, views_of};
use crate::track_album_artist::{TrackAlbumArtist, TrackView};
use vstd::prelude::*;

verus! {

/// `i` is the first of the positions `0..n` at which `p` holds.
pub open spec fn is_least(p: spec_fn(int) -> bool, n: int, i: int) -> bool {
    &&& 0 <= i < n
    &&& p(i)
    &&& forall|k: int| 0 <= k < i ==> !#[trigger] p(k)
}

/// The first of the positions `0..n` at which `p` holds, if there is one.
pub open spec fn least(p: spec_fn(int) -> bool, n: int) -> Option<int> {
    if exists|i: int| is_least(p, n, i) {
        Some(choose|i: int| is_least(p, n, i))
    } else {
        None
    }
}

/// A first position is the only first position.
pub proof fn lemma_least_is(p: spec_fn(int) -> bool, n: int, i: int)
    requires
        is_least(p, n, i),
    ensures
        least(p, n) == Some(i),
{
    let j = choose|j: int| is_least(p, n, j);
    if j < i {
        assert(!p(j));
    } else if i < j {
        assert(!p(i));
    }
}

/// Where `p` holds nowhere, there is no first position.
pub proof fn lemma_least_none(p: spec_fn(int) -> bool, n: int)
    requires
        forall|k: int| 0 <= k < n ==> !#[trigger] p(k),
    ensures
        least(p, n) is None,
{
}

/// What `least` answers is a first position, and it answers wherever `p`
/// holds somewhere.
pub proof fn lemma_least(p: spec_fn(int) -> bool, n: int)
    ensures
        least(p, n) matches Some(i) ==> is_least(p, n, i),
        least(p, n) is None ==> forall|k: int| 0 <= k < n ==> !#[trigger] p(k),
{
    if least(p, n) is None {
        assert forall|k: int| 0 <= k < n implies !#[trigger] p(k) by {
            if p(k) {
                lemma_least_exists(p, n, k);
            }
        }
    }
}

/// Below a position at which `p` holds there is a first one.
proof fn lemma_least_exists(p: spec_fn(int) -> bool, n: int, k: int)
    requires
        0 <= k < n,
        p(k),
    ensures
        exists|i: int| is_least(p, n, i),
    decreases k,
{
    if exists|j: int| 0 <= j < k && #[trigger] p(j) {
        let j = choose|j: int| 0 <= j < k && #[trigger] p(j);
        lemma_least_exists(p, n, j);
    } else {
        assert(is_least(p, n, k));
    }
}

/// The comparison key of an entry: its track title and its artist names.
pub ghost struct KeyView {
    pub track: Seq<char>,
    pub artist: Seq<Seq<char>>,
}

/// The comparison key of an entry, character by character.
#[derive(Debug)]
pub struct ComparisonKey {
    pub track: Vec<char>,
    pub artist: Vec<Vec<char>>,
}

impl View for ComparisonKey {
    type V = KeyView;

    open spec fn view(&self) -> KeyView {
        KeyView { track: self.track@, artist: views_of(self.artist@) }
    }
}

/// The comparison key of `entry`.
pub open spec fn key_of(entry: TrackView) -> KeyView {
    KeyView { track: entry.track, artist: entry.artist }
}

/// The comparison keys of the entries of `pool`, in order.
pub open spec fn keys_of(pool: Seq<TrackView>) -> Seq<KeyView> {
    Seq::new(pool.len(), |i: int| key_of(pool[i]))
}

/// What the keys of `keys` hold, in order.
pub open spec fn key_views(keys: Seq<ComparisonKey>) -> Seq<KeyView> {
    Seq::new(keys.len(), |i: int| keys[i]@)
}

impl ComparisonKey {
    /// The key made of a track title and artist names.
    pub fn new(track: &str, artist: &Vec<String>) -> (r: Self)
        ensures
            r@ == (KeyView { track: track@, artist: artist.deep_view() }),
    {
        ComparisonKey { track: chars_of(track), artist: chars_of_each(artist) }
    }

    /// The comparison key of `entry`.
    pub fn of(entry: &TrackAlbumArtist) -> (r: Self)
        ensures
            r@ == key_of(entry@),
    {
        ComparisonKey::new(entry.track.as_str(), &entry.artist)
    }

    /// The comparison keys of the entries of `pool`, in order.
    pub fn of_each(pool: &Vec<TrackAlbumArtist>) -> (r: Vec<Self>)
        ensures
            key_views(r@) == keys_of(pool.deep_view()),
    {
        let mut r: Vec<ComparisonKey> = Vec::new();
        let mut i: usize = 0;
        while i < pool.len()
            invariant
                i <= pool.len(),
                r.len() == i,
                forall|k: int| 0 <= k < i ==> r[k]@ == key_of(pool[k]@),
            decreases pool.len() - i,
        {
            r.push(ComparisonKey::of(&pool[i]));
            i += 1;
        }
        assert(key_views(r@) =~= keys_of(pool.deep_view()));
        r
    }
}

/// The strategy that produced a match.
#[derive(Clone, Copy, Debug, PartialEq, Eq, Structural)]
pub enum Strategy {
    /// One text is a leading part of the other.
    ForwardBack,
    /// The smallest edit distance, below the acceptance threshold.
    Levenshtein,
    /// A match after the character replacements.
    CharReplacements,
    /// A match after bracketed sections were removed.
    RemoveSections,
}

/// A successful match: the position of the target entry in the pool, the
/// strategy that found it and, where an edit distance decided, that distance.
#[derive(Clone, Copy, Debug, PartialEq, Eq)]
pub struct MatchResult {
    pub index: usize,
    pub strategy: Strategy,
    pub distance: Option<usize>,
}

/// A match, with its numbers as mathematical integers.
pub ghost struct MatchView {
    pub index: int,
    pub strategy: Strategy,
    pub distance: Option<nat>,
}

impl View for MatchResult {
    type V = MatchView;

    open spec fn view(&self) -> MatchView {
        MatchView {
            index: self.index as int,
            strategy: self.strategy,
            distance: match self.distance {
                Some(d) => Some(d as nat),
                None => None,
            },
        }
    }
}

impl DeepView for MatchResult {
    type V = MatchView;

    open spec fn deep_view(&self) -> MatchView {
        self@
    }
}

/// A matching strategy.
pub trait Matcher {
    /// The answer of the strategy for a source key and the keys of a pool.
    spec fn matched(&self, pool: Seq<KeyView>, source: KeyView) -> Option<MatchView>;

    /// Looks for the target entry that this strategy accepts for
    /// `spotify_track` among `plex_tracks`.
    fn match_fn(&self, plex_tracks: &Vec<TrackAlbumArtist>, spotify_track: &TrackAlbumArtist) -> (r:
        Option<MatchResult>)
        ensures
            r.deep_view() == self.matched(
                keys_of(plex_tracks.deep_view()),
                key_of(spotify_track@),
            ),
    ;
}

} // verus!
