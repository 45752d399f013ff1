//! The character-replacement strategy: both sides are rewritten character by
//! character, and the affix and ranking strategies are tried on what comes
//! out.
//!
//! The typographic apostrophe becomes the plain one, `&` becomes `and`, a
//! hyphen becomes a space, and round brackets and full stops go away.

use crate::plex::matcher::forward_backward::{affix_match, first_related, lemma_affix_match};
use crate::plex::matcher::levenshtein::{
    closest, lemma_ranking_match, ranking_match, ACCEPTANCE_THRESHOLD,
};
use crate::plex::matcher::{
    key_views, ComparisonKey, KeyView, MatchResult, MatchView, Matcher, Strategy,
};
use crate::text::{chars_of, string_of};
use crate::track_album_artist::TrackAlbumArtist;
use vstd::prelude::*;

verus! {

/// What stands in the place of `c` after the replacements.
pub open spec fn replacement(c: char) -> Seq<char> {
    if c == '\u{2019}' {
        seq!['\'']
    } else if c == '&' {
        seq!['a', 'n', 'd']
    } else if c == '-' {
        seq![' ']
    } else if c == '(' || c == ')' || c == '.' {
        Seq::empty()
    } else {
        seq![c]
    }
}

/// `text` after the replacements: each character gives way to what stands in
/// its place.
pub open spec fn replaced(text: Seq<char>) -> Seq<char>
    decreases text.len(),
{
    if text.len() == 0 {
        Seq::empty()
    } else {
        replaced(text.drop_last()) + replacement(text.last())
    }
}

/// A key after the replacements, in its track title and in each artist name.
pub open spec fn replaced_key(key: KeyView) -> KeyView {
    KeyView {
        track: replaced(key.track),
        artist: Seq::new(key.artist.len(), |i: int| replaced(key.artist[i])),
    }
}

/// Each key of `pool` after the replacements.
pub open spec fn replaced_keys(pool: Seq<KeyView>) -> Seq<KeyView> {
    Seq::new(pool.len(), |i: int| replaced_key(pool[i]))
}

/// The replacements of a text in two parts are those of the parts.
pub proof fn lemma_replaced_concat(a: Seq<char>, b: Seq<char>)
    ensures
        replaced(a + b) == replaced(a) + replaced(b),
    decreases b.len(),
{
    if b.len() == 0 {
        assert(a + b =~= a);
        assert(replaced(a) + replaced(b) =~= replaced(a));
    } else {
        assert((a + b).drop_last() =~= a + b.drop_last());
        assert((a + b).last() == b.last());
        lemma_replaced_concat(a, b.drop_last());
        assert(replaced(a + b) =~= replaced(a) + replaced(b));
    }
}

/// What stands in the place of a character is left as it is by the
/// replacements.
pub proof fn lemma_replacement_stays(c: char)
    ensures
        replaced(replacement(c)) == replacement(c),
{
    let r = replacement(c);
    reveal_with_fuel(replaced, 4);
    if r.len() == 3 {
        assert(r.drop_last().drop_last().drop_last() =~= Seq::<char>::empty());
        assert(replaced(r) =~= r);
    } else if r.len() == 1 {
        assert(r.drop_last() =~= Seq::<char>::empty());
        assert(replaced(r) =~= r);
    } else {
        assert(replaced(r) =~= r);
    }
}

/// The replacements change nothing in a text that they have been applied to.
pub proof fn lemma_replaced_idempotent(text: Seq<char>)
    ensures
        replaced(replaced(text)) == replaced(text),
    decreases text.len(),
{
    if text.len() > 0 {
        lemma_replaced_idempotent(text.drop_last());
        lemma_replaced_concat(replaced(text.drop_last()), replacement(text.last()));
        lemma_replacement_stays(text.last());
    }
}

/// The replacements change nothing in a key that they have been applied to.
pub proof fn lemma_replaced_key_idempotent(key: KeyView)
    ensures
        replaced_key(replaced_key(key)) == replaced_key(key),
{
    lemma_replaced_idempotent(key.track);
    assert forall|i: int| 0 <= i < key.artist.len() implies replaced(
        #[trigger] replaced_key(key).artist[i],
    ) == replaced_key(key).artist[i] by {
        lemma_replaced_idempotent(key.artist[i]);
    }
    assert(replaced_key(replaced_key(key)).artist =~= replaced_key(key).artist);
}

/// `text` after the replacements.
pub fn replace_in(text: &Vec<char>) -> (r: Vec<char>)
    ensures
        r@ == replaced(text@),
{
    let mut r: Vec<char> = Vec::new();
    let mut i: usize = 0;
    while i < text.len()
        invariant
            i <= text.len(),
            r@ == replaced(text@.take(i as int)),
        decreases text.len() - i,
    {
        let c = text[i];
        proof {
            assert(text@.take(i + 1).drop_last() =~= text@.take(i as int));
            assert(text@.take(i + 1).last() == c);
        }
        if c == '\u{2019}' {
            r.push('\'');
            assert(r@ =~= replaced(text@.take(i as int)) + replacement(c));
        } else if c == '&' {
            r.push('a');
            r.push('n');
            r.push('d');
            assert(r@ =~= replaced(text@.take(i as int)) + replacement(c));
        } else if c == '-' {
            r.push(' ');
            assert(r@ =~= replaced(text@.take(i as int)) + replacement(c));
        } else if c == '(' || c == ')' || c == '.' {
            assert(r@ =~= replaced(text@.take(i as int)) + replacement(c));
        } else {
            r.push(c);
            assert(r@ =~= replaced(text@.take(i as int)) + replacement(c));
        }
        i += 1;
    }
    assert(text@.take(text.len() as int) =~= text@);
    r
}

/// `text` after the replacements, as a string.
pub fn replace_characters(text: &str) -> (r: String)
    ensures
        r@ == replaced(text@),
{
    let chars = chars_of(text);
    let out = replace_in(&chars);
    string_of(&out)
}

/// `key` after the replacements.
pub fn replace_in_key(key: &ComparisonKey) -> (r: ComparisonKey)
    ensures
        r@ == replaced_key(key@),
{
    let mut artist: Vec<Vec<char>> = Vec::new();
    let mut i: usize = 0;
    while i < key.artist.len()
        invariant
            i <= key.artist.len(),
            artist.len() == i,
            forall|k: int| 0 <= k < i ==> artist[k]@ == replaced(key.artist[k]@),
        decreases key.artist.len() - i,
    {
        artist.push(replace_in(&key.artist[i]));
        i += 1;
    }
    let r = ComparisonKey { track: replace_in(&key.track), artist };
    assert(r@.artist =~= replaced_key(key@).artist);
    r
}

/// Each key of `pool` after the replacements.
pub fn replace_in_keys(pool: &Vec<ComparisonKey>) -> (r: Vec<ComparisonKey>)
    ensures
        key_views(r@) == replaced_keys(key_views(pool@)),
{
    let mut r: Vec<ComparisonKey> = Vec::new();
    let mut i: usize = 0;
    while i < pool.len()
        invariant
            i <= pool.len(),
            r.len() == i,
            forall|k: int| 0 <= k < i ==> r[k]@ == replaced_key(pool[k]@),
        decreases pool.len() - i,
    {
        r.push(replace_in_key(&pool[i]));
        i += 1;
    }
    assert(key_views(r@) =~= replaced_keys(key_views(pool@)));
    r
}

/// The character-replacement strategy, with the acceptance threshold of
/// the ranking that it falls back on.
#[derive(Clone, Copy, Debug)]
pub struct MatchWithCharReplacements {
    pub threshold: usize,
}

impl Default for MatchWithCharReplacements {
    fn default() -> (r: Self)
        ensures
            r.threshold == ACCEPTANCE_THRESHOLD,
    {
        MatchWithCharReplacements { threshold: ACCEPTANCE_THRESHOLD }
    }
}

impl MatchWithCharReplacements {
    /// The strategy whose ranking accepts a combined distance below
    /// `threshold`.
    pub fn new(threshold: usize) -> (r: Self)
        ensures
            r.threshold == threshold,
    {
        MatchWithCharReplacements { threshold }
    }

    /// The answer of the strategy: after the replacements on both sides, the
    /// answer of the affix strategy or else that of the ranking strategy.
    pub open spec fn answer(pool: Seq<KeyView>, source: KeyView, threshold: nat) -> Option<
        MatchView,
    > {
        let new_pool = replaced_keys(pool);
        let new_source = replaced_key(source);
        match affix_match(new_pool, new_source) {
            Some(i) => Some(
                MatchView { index: i, strategy: Strategy::CharReplacements, distance: None },
            ),
            None => match ranking_match(new_pool, new_source, threshold) {
                Some((i, s)) => Some(
                    MatchView { index: i, strategy: Strategy::CharReplacements, distance: Some(s) },
                ),
                None => None,
            },
        }
    }

    /// Applies the replacements to `source` and to each key of `pool`, then
    /// tries the affix strategy and after it the ranking strategy.
    pub fn match_keys(&self, pool: &Vec<ComparisonKey>, source: &ComparisonKey) -> (r: Option<
        MatchResult,
    >)
        ensures
            r.deep_view() == Self::answer(key_views(pool@), source@, self.threshold as nat),
    {
        let new_pool = replace_in_keys(pool);
        let new_source = replace_in_key(source);
        match first_related(&new_pool, &new_source) {
            Some(i) => Some(
                MatchResult { index: i, strategy: Strategy::CharReplacements, distance: None },
            ),
            None => match closest(&new_pool, &new_source, self.threshold) {
                Some((i, s)) => Some(
                    MatchResult {
                        index: i,
                        strategy: Strategy::CharReplacements,
                        distance: Some(s),
                    },
                ),
                None => None,
            },
        }
    }
}

impl Matcher for MatchWithCharReplacements {
    open spec fn matched(&self, pool: Seq<KeyView>, source: KeyView) -> Option<MatchView> {
        Self::answer(pool, source, self.threshold as nat)
    }

    fn match_fn(&self, plex_tracks: &Vec<TrackAlbumArtist>, spotify_track: &TrackAlbumArtist) -> (r:
        Option<MatchResult>) {
        let pool = ComparisonKey::of_each(plex_tracks);
        let source = ComparisonKey::of(spotify_track);
        self.match_keys(&pool, &source)
    }
}

/// What the character-replacement strategy finds is an entry of the pool.
pub proof fn lemma_replacement_in_pool(pool: Seq<KeyView>, source: KeyView, threshold: nat)
    ensures
        MatchWithCharReplacements::answer(pool, source, threshold) matches Some(found) ==> 0
            <= found.index < pool.len(),
{
    lemma_affix_match(replaced_keys(pool), replaced_key(source));
    lemma_ranking_match(replaced_keys(pool), replaced_key(source), threshold);
}

} // verus!
