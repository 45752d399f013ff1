//! The ranking strategy: the target entry at the smallest edit distance, where
//! that distance is below the acceptance threshold.

use crate::plex::matcher::{
    is_least, key_views, least, lemma_least, lemma_least_is, ComparisonKey, KeyView, MatchResult,
    MatchView, Matcher, Strategy,
};
use crate::text::chars_of;
use crate::track_album_artist::TrackAlbumArtist;
use vstd::prelude::*;

verus! {

/// The smallest of three numbers.
pub open spec fn min3(x: nat, y: nat, z: nat) -> nat {
    if x <= y && x <= z {
        x
    } else if y <= z {
        y
    } else {
        z
    }
}

/// What it costs to put `y` in the place of `x`.
pub open spec fn substitution_cost(x: char, y: char) -> nat {
    if x == y {
        0
    } else {
        1
    }
}

/// The edit distance of two texts: the smallest number of characters to
/// insert, delete or substitute that turns `a` into `b`.
pub open spec fn edit_distance(a: Seq<char>, b: Seq<char>) -> nat
    decreases a.len() + b.len(),
{
    if a.len() == 0 {
        b.len()
    } else if b.len() == 0 {
        a.len()
    } else {
        min3(
            edit_distance(a.drop_last(), b.drop_last()) + substitution_cost(a.last(), b.last()),
            edit_distance(a.drop_last(), b) + 1,
            edit_distance(a, b.drop_last()) + 1,
        )
    }
}

/// The edit distance is at most the length of the longer text.
pub proof fn lemma_distance_bound(a: Seq<char>, b: Seq<char>)
    ensures
        edit_distance(a, b) <= a.len() || edit_distance(a, b) <= b.len(),
    decreases a.len() + b.len(),
{
    if a.len() > 0 && b.len() > 0 {
        lemma_distance_bound(a.drop_last(), b.drop_last());
    }
}

/// The edit distance is the same in both directions.
pub proof fn lemma_distance_symmetric(a: Seq<char>, b: Seq<char>)
    ensures
        edit_distance(a, b) == edit_distance(b, a),
    decreases a.len() + b.len(),
{
    if a.len() > 0 && b.len() > 0 {
        lemma_distance_symmetric(a.drop_last(), b.drop_last());
        lemma_distance_symmetric(a.drop_last(), b);
        lemma_distance_symmetric(a, b.drop_last());
    }
}

/// A text is at distance zero from itself.
pub proof fn lemma_distance_to_self(a: Seq<char>)
    ensures
        edit_distance(a, a) == 0,
    decreases a.len(),
{
    if a.len() > 0 {
        lemma_distance_to_self(a.drop_last());
    }
}

/// The edit distance of `a` and `b`.
pub fn distance(a: &Vec<char>, b: &Vec<char>) -> (d: usize)
    ensures
        d == edit_distance(a@, b@),
{
    let n = a.len();
    let m = b.len();
    // `row[k]` holds the distance between the first `i` characters of `a`
    // and the first `k` characters of `b`; it starts with `i == 0`.
    let mut row: Vec<usize> = Vec::new();
    let mut j: usize = 0;
    while j < m
        invariant
            j <= m,
            m == b.len(),
            row.len() == j,
            forall|k: int| 0 <= k < j ==> row[k] == k,
        decreases m - j,
    {
        row.push(j);
        j += 1;
    }
    row.push(m);
    assert forall|k: int| 0 <= k <= m implies row[k] == edit_distance(a@.take(0), b@.take(k)) by {
        assert(b@.take(k).len() == k);
    }
    let mut i: usize = 0;
    while i < n
        invariant
            i <= n,
            n == a.len(),
            m == b.len(),
            row.len() == m + 1,
            forall|k: int| 0 <= k <= m ==> row[k] == edit_distance(a@.take(i as int), b@.take(k)),
        decreases n - i,
    {
        let ghost above = row@;
        let ghost upper = a@.take(i as int);
        let ghost lower = a@.take(i + 1);
        assert(lower.drop_last() =~= upper);
        assert(lower.last() == a@[i as int]);
        let mut diagonal: usize = row[0];
        row.set(0, i + 1);
        assert(edit_distance(lower, b@.take(0)) == i + 1);
        let mut j: usize = 1;
        while j <= m
            invariant
                1 <= j <= m + 1,
                i < n,
                n == a.len(),
                m == b.len(),
                row.len() == m + 1,
                above.len() == m + 1,
                upper == a@.take(i as int),
                lower == a@.take(i + 1),
                lower.drop_last() == upper,
                lower.last() == a@[i as int],
                diagonal == above[j - 1],
                forall|k: int| 0 <= k <= m ==> above[k] == edit_distance(upper, b@.take(k)),
                forall|k: int| 0 <= k < j ==> row[k] == edit_distance(lower, b@.take(k)),
                forall|k: int| j <= k <= m ==> row[k] == above[k],
            decreases m + 1 - j,
        {
            let ghost left = b@.take(j - 1);
            let ghost here = b@.take(j as int);
            proof {
                assert(here.drop_last() =~= left);
                assert(here.last() == b@[j - 1]);
                assert(upper.len() == i && lower.len() == i + 1);
                assert(left.len() == j - 1 && here.len() == j);
                lemma_distance_bound(upper, left);
                lemma_distance_bound(upper, here);
                lemma_distance_bound(lower, here);
            }
            let up: usize = row[j];
            assert(up == above[j as int]);
            let substitute: usize = if a[i] == b[j - 1] {
                diagonal
            } else {
                diagonal + 1
            };
            let mut best: usize = up + 1;
            if substitute < best {
                best = substitute;
            }
            // compared before the addition, which could leave the range
            if row[j - 1] < best {
                best = row[j - 1] + 1;
            }
            assert(best == edit_distance(lower, here));
            diagonal = up;
            row.set(j, best);
            j += 1;
        }
        i += 1;
    }
    assert(a@.take(n as int) =~= a@);
    assert(b@.take(m as int) =~= b@);
    row[m]
}

/// The edit distance of two strings, counted in characters.
pub fn levenshtein(a: &str, b: &str) -> (d: usize)
    ensures
        d == edit_distance(a@, b@),
{
    let a_chars = chars_of(a);
    let b_chars = chars_of(b);
    distance(&a_chars, &b_chars)
}

/// The threshold of the ranking strategy where none is given: a combined
/// distance of artist and track is accepted below it.
pub const ACCEPTANCE_THRESHOLD: usize = 5;

/// `i` is an artist of the target and `j` an artist of the source.
pub open spec fn artist_pair(source: KeyView, target: KeyView, i: int, j: int) -> bool {
    0 <= i < target.artist.len() && 0 <= j < source.artist.len()
}

/// The edit distance between artist `j` of the source and artist `i` of the
/// target.
pub open spec fn pair_distance(source: KeyView, target: KeyView, i: int, j: int) -> nat {
    edit_distance(source.artist[j], target.artist[i])
}

/// `d` is the smallest edit distance between an artist of the source and an
/// artist of the target.
pub open spec fn is_artist_distance(source: KeyView, target: KeyView, d: nat) -> bool {
    &&& exists|i: int, j: int|
        artist_pair(source, target, i, j) && #[trigger] pair_distance(source, target, i, j) == d
    &&& forall|i: int, j: int|
        artist_pair(source, target, i, j) ==> d <= #[trigger] pair_distance(source, target, i, j)
}

/// The smallest edit distance between an artist of the source and an artist
/// of the target; none where one of them has no artist.
pub open spec fn artist_distance(source: KeyView, target: KeyView) -> Option<nat> {
    if exists|d: nat| is_artist_distance(source, target, d) {
        Some(choose|d: nat| is_artist_distance(source, target, d))
    } else {
        None
    }
}

/// The smallest artist distance is the only one.
pub proof fn lemma_artist_distance_is(source: KeyView, target: KeyView, d: nat)
    requires
        is_artist_distance(source, target, d),
    ensures
        artist_distance(source, target) == Some(d),
{
    let e = choose|e: nat| is_artist_distance(source, target, e);
    let (i, j) = choose|i: int, j: int|
        artist_pair(source, target, i, j) && #[trigger] pair_distance(source, target, i, j) == d;
    let (k, l) = choose|k: int, l: int|
        artist_pair(source, target, k, l) && #[trigger] pair_distance(source, target, k, l) == e;
    assert(e <= pair_distance(source, target, i, j));
    assert(d <= pair_distance(source, target, k, l));
}

/// The combined distance of a target entry from the source entry: the
/// smallest artist distance plus the distance of the track titles.
pub open spec fn score(source: KeyView, target: KeyView) -> Option<nat> {
    match artist_distance(source, target) {
        Some(d) => Some(d + edit_distance(source.track, target.track)),
        None => None,
    }
}

/// Entry `i` of `pool` has a combined distance, and no entry has a smaller
/// one.
pub open spec fn is_lowest(pool: Seq<KeyView>, source: KeyView, i: int) -> bool {
    &&& 0 <= i < pool.len()
    &&& score(source, pool[i]) is Some
    &&& forall|k: int|
        0 <= k < pool.len() && score(source, #[trigger] pool[k]) is Some ==> score(
            source,
            pool[i],
        )->0 <= score(source, pool[k])->0
}

/// The positions of `pool` whose entry has the smallest combined distance.
pub open spec fn lowest_candidates(pool: Seq<KeyView>, source: KeyView) -> spec_fn(int) -> bool {
    |i: int| is_lowest(pool, source, i)
}

/// The first entry of `pool` at the smallest combined distance from `source`,
/// with that distance, where the distance is below `threshold`.
pub open spec fn ranking_match(pool: Seq<KeyView>, source: KeyView, threshold: nat) -> Option<
    (int, nat),
> {
    match least(lowest_candidates(pool, source), pool.len() as int) {
        Some(i) => {
            let s = score(source, pool[i])->0;
            if s < threshold {
                Some((i, s))
            } else {
                None
            }
        },
        None => None,
    }
}

/// The smallest edit distance between an artist of `source` and an artist of
/// `target`.
pub fn closest_artists(source: &ComparisonKey, target: &ComparisonKey) -> (r: Option<usize>)
    ensures
        match r {
            Some(d) => artist_distance(source@, target@) == Some(d as nat),
            None => artist_distance(source@, target@) is None,
        },
{
    let mut best: Option<usize> = None;
    let ghost mut at: (int, int) = (0, 0);
    let mut i: usize = 0;
    while i < target.artist.len()
        invariant
            i <= target.artist.len(),
            best matches Some(d) ==> artist_pair(source@, target@, at.0, at.1) && pair_distance(
                source@,
                target@,
                at.0,
                at.1,
            ) == d,
            forall|a: int, b: int| #[trigger]
                artist_pair(source@, target@, a, b) && a < i ==> best is Some && best->0
                    <= pair_distance(source@, target@, a, b),
        decreases target.artist.len() - i,
    {
        let mut j: usize = 0;
        while j < source.artist.len()
            invariant
                i < target.artist.len(),
                j <= source.artist.len(),
                best matches Some(d) ==> artist_pair(source@, target@, at.0, at.1)
                    && pair_distance(source@, target@, at.0, at.1) == d,
                forall|a: int, b: int| #[trigger]
                    artist_pair(source@, target@, a, b) && (a < i || (a == i && b < j)) ==> best
                        is Some && best->0 <= pair_distance(source@, target@, a, b),
            decreases source.artist.len() - j,
        {
            let d = distance(&source.artist[j], &target.artist[i]);
            assert(d == pair_distance(source@, target@, i as int, j as int));
            let closer = match best {
                Some(b) => d < b,
                None => true,
            };
            if closer {
                best = Some(d);
                proof {
                    at = (i as int, j as int);
                }
            }
            j += 1;
        }
        i += 1;
    }
    proof {
        match best {
            Some(d) => {
                assert(is_artist_distance(source@, target@, d as nat));
                lemma_artist_distance_is(source@, target@, d as nat);
            },
            None => {
                assert forall|d: nat| !is_artist_distance(source@, target@, d) by {
                    if is_artist_distance(source@, target@, d) {
                        let (a, b) = choose|a: int, b: int|
                            artist_pair(source@, target@, a, b) && #[trigger] pair_distance(
                                source@,
                                target@,
                                a,
                                b,
                            ) == d;
                        assert(best is Some);
                    }
                }
            },
        }
    }
    best
}

/// A combined distance as the machine holds it: the number itself, or the
/// largest number that fits where it does not.
pub open spec fn held(s: nat) -> nat {
    if s > usize::MAX {
        usize::MAX as nat
    } else {
        s
    }
}

/// The combined distance of `target` from `source`, held in a machine word.
pub fn combined_distance(source: &ComparisonKey, target: &ComparisonKey) -> (r: Option<usize>)
    ensures
        match r {
            Some(s) => score(source@, target@) is Some && s == held(score(source@, target@)->0),
            None => score(source@, target@) is None,
        },
{
    match closest_artists(source, target) {
        Some(d) => Some(d.saturating_add(distance(&source.track, &target.track))),
        None => None,
    }
}

/// The position of the first key of `pool` at the smallest combined distance
/// from `source`, with that distance, where the distance is below
/// `threshold`.
pub fn closest(pool: &Vec<ComparisonKey>, source: &ComparisonKey, threshold: usize) -> (r: Option<
    (usize, usize),
>)
    ensures
        match r {
            Some((i, s)) => ranking_match(key_views(pool@), source@, threshold as nat) == Some(
                (i as int, s as nat),
            ),
            None => ranking_match(key_views(pool@), source@, threshold as nat) is None,
        },
{
    let ghost keys = key_views(pool@);
    let ghost p = lowest_candidates(keys, source@);
    let mut best: Option<(usize, usize)> = None;
    let mut i: usize = 0;
    while i < pool.len()
        invariant
            i <= pool.len(),
            keys == key_views(pool@),
            forall|k: int| 0 <= k < i && score(source@, #[trigger] keys[k]) is Some ==> best is Some,
            best matches Some((b, s)) ==> {
                &&& b < i
                &&& score(source@, keys[b as int]) is Some
                &&& s == held(score(source@, keys[b as int])->0)
                &&& forall|k: int|
                    0 <= k < i && score(source@, #[trigger] keys[k]) is Some ==> s <= held(
                        score(source@, keys[k])->0,
                    )
                &&& forall|k: int|
                    0 <= k < b && score(source@, #[trigger] keys[k]) is Some ==> s < held(
                        score(source@, keys[k])->0,
                    )
            },
        decreases pool.len() - i,
    {
        assert(keys[i as int] == pool[i as int]@);
        match combined_distance(source, &pool[i]) {
            Some(s) => {
                let closer = match best {
                    Some((_, t)) => s < t,
                    None => true,
                };
                if closer {
                    best = Some((i, s));
                }
            },
            None => {},
        }
        i += 1;
    }
    proof {
        lemma_least(p, keys.len() as int);
    }
    match best {
        Some((b, s)) => {
            if s < threshold {
                proof {
                    assert(is_lowest(keys, source@, b as int));
                    assert(is_least(p, keys.len() as int, b as int));
                    lemma_least_is(p, keys.len() as int, b as int);
                }
                Some((b, s))
            } else {
                proof {
                    let first = least(p, keys.len() as int)->0;
                    if least(p, keys.len() as int) is Some {
                        assert(is_lowest(keys, source@, first));
                        assert(score(source@, keys[first]) is Some);
                    }
                }
                None
            }
        },
        None => {
            proof {
                if least(p, keys.len() as int) is Some {
                    let first = least(p, keys.len() as int)->0;
                    assert(is_lowest(keys, source@, first));
                    assert(score(source@, keys[first]) is Some);
                }
            }
            None
        },
    }
}

/// The ranking strategy, with its acceptance threshold.
#[derive(Clone, Copy, Debug)]
pub struct LevenshteinDistance {
    pub threshold: usize,
}

impl Default for LevenshteinDistance {
    fn default() -> (r: Self)
        ensures
            r.threshold == ACCEPTANCE_THRESHOLD,
    {
        LevenshteinDistance { threshold: ACCEPTANCE_THRESHOLD }
    }
}

impl LevenshteinDistance {
    /// The ranking strategy that accepts a combined distance below
    /// `threshold`.
    pub fn new(threshold: usize) -> (r: Self)
        ensures
            r.threshold == threshold,
    {
        LevenshteinDistance { threshold }
    }

    /// The answer of the strategy: the first entry of `pool` at the smallest
    /// combined distance from `source`, where that distance is below
    /// `threshold`.
    pub open spec fn answer(pool: Seq<KeyView>, source: KeyView, threshold: nat) -> Option<
        MatchView,
    > {
        match ranking_match(pool, source, threshold) {
            Some((i, s)) => Some(
                MatchView { index: i, strategy: Strategy::Levenshtein, distance: Some(s) },
            ),
            None => None,
        }
    }

    /// Looks for the first key of `pool` at the smallest combined distance
    /// from `source`, and accepts it where that distance is below the
    /// threshold.
    pub fn match_keys(&self, pool: &Vec<ComparisonKey>, source: &ComparisonKey) -> (r: Option<
        MatchResult,
    >)
        ensures
            r.deep_view() == Self::answer(key_views(pool@), source@, self.threshold as nat),
    {
        match closest(pool, source, self.threshold) {
            Some((i, s)) => Some(
                MatchResult { index: i, strategy: Strategy::Levenshtein, distance: Some(s) },
            ),
            None => None,
        }
    }
}

impl Matcher for LevenshteinDistance {
    open spec fn matched(&self, pool: Seq<KeyView>, source: KeyView) -> Option<MatchView> {
        Self::answer(pool, source, self.threshold as nat)
    }

    fn match_fn(&self, plex_tracks: &Vec<TrackAlbumArtist>, spotify_track: &TrackAlbumArtist) -> (r:
        Option<MatchResult>) {
        let pool = ComparisonKey::of_each(plex_tracks);
        let source = ComparisonKey::of(spotify_track);
        self.match_keys(&pool, &source)
    }
}

/// Where some entry has a combined distance, some entry has the smallest.
pub proof fn lemma_lowest_exists(pool: Seq<KeyView>, source: KeyView, k: int)
    requires
        0 <= k < pool.len(),
        score(source, pool[k]) is Some,
    ensures
        exists|i: int| is_lowest(pool, source, i),
    decreases score(source, pool[k])->0,
{
    if exists|j: int|
        0 <= j < pool.len() && score(source, #[trigger] pool[j]) is Some && score(
            source,
            pool[j],
        )->0 < score(source, pool[k])->0 {
        let j = choose|j: int|
            0 <= j < pool.len() && score(source, #[trigger] pool[j]) is Some && score(
                source,
                pool[j],
            )->0 < score(source, pool[k])->0;
        lemma_lowest_exists(pool, source, j);
    } else {
        assert(is_lowest(pool, source, k));
    }
}

/// What the ranking strategy finds is the first entry at the smallest
/// combined distance, and it finds one wherever that distance is below the
/// threshold.
pub proof fn lemma_ranking_match(pool: Seq<KeyView>, source: KeyView, threshold: nat)
    ensures
        match ranking_match(pool, source, threshold) {
            Some((i, s)) => {
                &&& 0 <= i < pool.len()
                &&& score(source, pool[i]) == Some(s)
                &&& s < threshold
                &&& forall|k: int|
                    0 <= k < pool.len() && score(source, #[trigger] pool[k]) is Some ==> s <= score(
                        source,
                        pool[k],
                    )->0
                &&& forall|k: int|
                    0 <= k < i && score(source, #[trigger] pool[k]) is Some ==> s < score(
                        source,
                        pool[k],
                    )->0
            },
            None => forall|k: int|
                0 <= k < pool.len() && score(source, #[trigger] pool[k]) is Some ==> score(
                    source,
                    pool[k],
                )->0 >= threshold,
        },
        ranking_match(pool, source, threshold) is None <==> forall|k: int|
            0 <= k < pool.len() && score(source, #[trigger] pool[k]) is Some ==> score(
                source,
                pool[k],
            )->0 >= threshold,
{
    let p = lowest_candidates(pool, source);
    lemma_least(p, pool.len() as int);
    match least(p, pool.len() as int) {
        Some(i) => {
            assert(is_lowest(pool, source, i));
            let s = score(source, pool[i])->0;
            assert forall|k: int|
                0 <= k < i && score(source, #[trigger] pool[k]) is Some implies s < score(
                source,
                pool[k],
            )->0 by {
                assert(!p(k));
                if s == score(source, pool[k])->0 {
                    assert(is_lowest(pool, source, k));
                }
            }
        },
        None => {
            assert forall|k: int|
                0 <= k < pool.len() && score(source, #[trigger] pool[k]) is Some implies false by {
                lemma_lowest_exists(pool, source, k);
                let i = choose|i: int| is_lowest(pool, source, i);
                assert(p(i));
            }
        },
    }
}

} // verus!
