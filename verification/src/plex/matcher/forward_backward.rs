//! The affix strategy: an entry matches where one of the two artists begins
//! with the other and one of the two track titles begins with the other. The
//! two need not point the same way.

use crate::plex::matcher::{
    is_least, key_views, least, lemma_least, lemma_least_is, lemma_least_none, ComparisonKey,
    KeyView, MatchResult, MatchView, Matcher, Strategy,
};
use crate::text::{is_prefix, starts_with};
use crate::track_album_artist::TrackAlbumArtist;
use vstd::prelude::*;

verus! {

/// One text is a leading part of the other.
pub open spec fn either_prefix(a: Seq<char>, b: Seq<char>) -> bool {
    is_prefix(a, b) || is_prefix(b, a)
}

/// One of the two artists begins with the other, and one of the two track
/// titles begins with the other.
pub open spec fn affix_pair(
    source_artist: Seq<char>,
    source_track: Seq<char>,
    target_artist: Seq<char>,
    target_track: Seq<char>,
) -> bool {
    either_prefix(source_artist, target_artist) && either_prefix(source_track, target_track)
}

/// The artist `i` of the target and the artist `j` of the source are in the
/// affix relation, with the two track titles.
pub open spec fn affix_at(source: KeyView, target: KeyView, i: int, j: int) -> bool {
    &&& 0 <= i < target.artist.len()
    &&& 0 <= j < source.artist.len()
    &&& affix_pair(source.artist[j], source.track, target.artist[i], target.track)
}

/// Some artist of the target and some artist of the source are in the affix
/// relation, with the two track titles.
pub open spec fn affix_related(source: KeyView, target: KeyView) -> bool {
    exists|i: int, j: int| affix_at(source, target, i, j)
}

/// The positions of `pool` whose entry is in the affix relation with `source`.
pub open spec fn affix_candidates(pool: Seq<KeyView>, source: KeyView) -> spec_fn(int) -> bool {
    |i: int| affix_related(source, pool[i])
}

/// The first entry of `pool` that is in the affix relation with `source`.
pub open spec fn affix_match(pool: Seq<KeyView>, source: KeyView) -> Option<int> {
    least(affix_candidates(pool, source), pool.len() as int)
}

/// Whether some artist of `target` and some artist of `source` are in the
/// affix relation, with the two track titles.
pub fn related(source: &ComparisonKey, target: &ComparisonKey) -> (r: bool)
    ensures
        r == affix_related(source@, target@),
{
    if !(starts_with(&target.track, &source.track) || starts_with(&source.track, &target.track)) {
        assert(forall|a: int, b: int| !affix_at(source@, target@, a, b));
        return false;
    }
    let mut i: usize = 0;
    while i < target.artist.len()
        invariant
            i <= target.artist.len(),
            either_prefix(source@.track, target@.track),
            forall|a: int, b: int| 0 <= a < i ==> !affix_at(source@, target@, a, b),
        decreases target.artist.len() - i,
    {
        let mut j: usize = 0;
        while j < source.artist.len()
            invariant
                i < target.artist.len(),
                j <= source.artist.len(),
                either_prefix(source@.track, target@.track),
                forall|b: int| 0 <= b < j ==> !affix_at(source@, target@, i as int, b),
            decreases source.artist.len() - j,
        {
            if starts_with(&target.artist[i], &source.artist[j]) || starts_with(
                &source.artist[j],
                &target.artist[i],
            ) {
                assert(affix_at(source@, target@, i as int, j as int));
                return true;
            }
            j += 1;
        }
        i += 1;
    }
    false
}

/// The position of the first key of `pool` that is in the affix relation with
/// `source`.
pub fn first_related(pool: &Vec<ComparisonKey>, source: &ComparisonKey) -> (r: Option<usize>)
    ensures
        match r {
            Some(i) => affix_match(key_views(pool@), source@) == Some(i as int),
            None => affix_match(key_views(pool@), source@) is None,
        },
{
    let ghost p = affix_candidates(key_views(pool@), source@);
    let mut i: usize = 0;
    while i < pool.len()
        invariant
            i <= pool.len(),
            p == affix_candidates(key_views(pool@), source@),
            forall|k: int| 0 <= k < i ==> !#[trigger] p(k),
        decreases pool.len() - i,
    {
        if related(source, &pool[i]) {
            proof {
                assert(is_least(p, pool.len() as int, i as int));
                lemma_least_is(p, pool.len() as int, i as int);
            }
            return Some(i);
        }
        i += 1;
    }
    proof {
        lemma_least_none(p, pool.len() as int);
    }
    None
}

/// The affix strategy.
#[derive(Clone, Copy, Debug)]
pub struct MatchForwardBack;

impl MatchForwardBack {
    /// The answer of the strategy: the first entry of `pool` that is in the
    /// affix relation with `source`.
    pub open spec fn answer(pool: Seq<KeyView>, source: KeyView) -> Option<MatchView> {
        match affix_match(pool, source) {
            Some(i) => Some(MatchView { index: i, strategy: Strategy::ForwardBack, distance: None }),
            None => None,
        }
    }

    /// Looks for the first key of `pool` that is in the affix relation with
    /// `source`.
    pub fn match_keys(&self, pool: &Vec<ComparisonKey>, source: &ComparisonKey) -> (r: Option<
        MatchResult,
    >)
        ensures
            r.deep_view() == Self::answer(key_views(pool@), source@),
    {
        match first_related(pool, source) {
            Some(i) => Some(MatchResult { index: i, strategy: Strategy::ForwardBack, distance: None }),
            None => None,
        }
    }
}

impl Matcher for MatchForwardBack {
    open spec fn matched(&self, pool: Seq<KeyView>, source: KeyView) -> Option<MatchView> {
        Self::answer(pool, source)
    }

    fn match_fn(&self, plex_tracks: &Vec<TrackAlbumArtist>, spotify_track: &TrackAlbumArtist) -> (r:
        Option<MatchResult>) {
        let pool = ComparisonKey::of_each(plex_tracks);
        let source = ComparisonKey::of(spotify_track);
        self.match_keys(&pool, &source)
    }
}

/// What the affix strategy finds is the first entry in the affix relation
/// with the source, and it finds one wherever there is one.
pub proof fn lemma_affix_match(pool: Seq<KeyView>, source: KeyView)
    ensures
        match affix_match(pool, source) {
            Some(i) => {
                &&& 0 <= i < pool.len()
                &&& affix_related(source, pool[i])
                &&& forall|k: int| 0 <= k < i ==> !affix_related(source, #[trigger] pool[k])
            },
            None => forall|k: int|
                0 <= k < pool.len() ==> !affix_related(source, #[trigger] pool[k]),
        },
        affix_match(pool, source) is None <==> forall|k: int|
            0 <= k < pool.len() ==> !affix_related(source, #[trigger] pool[k]),
{
    let p = affix_candidates(pool, source);
    lemma_least(p, pool.len() as int);
    match affix_match(pool, source) {
        Some(i) => {
            assert forall|k: int| 0 <= k < i implies !affix_related(source, #[trigger] pool[k]) by {
                assert(!p(k));
            }
        },
        None => {
            assert forall|k: int| 0 <= k < pool.len() implies !affix_related(
                source,
                #[trigger] pool[k],
            ) by {
                assert(!p(k));
            }
        },
    }
}

} // verus!
