//! The strategies in their order: the first that answers decides.

use crate::plex::matcher::character_replacement::{
    lemma_replacement_in_pool, replaced_key, replaced_keys, MatchWithCharReplacements,
};
use crate::plex::matcher::forward_backward::{affix_related, lemma_affix_match, MatchForwardBack};
use crate::plex::matcher::levenshtein::{lemma_ranking_match, score, LevenshteinDistance};
use crate::plex::matcher::remove_sections::{
    answering_stages, lemma_sections_in_pool, stage_pool, stage_source, RemoveSections, STAGES,
};
use crate::plex::matcher::{
    key_of, key_views, keys_of, lemma_least, lemma_least_none, ComparisonKey, KeyView,
    MatchResult, MatchView,
};
use crate::track_album_artist::TrackAlbumArtist;
use vstd::prelude::*;

verus! {

/// `first` where it holds an answer, `second` where it does not.
pub open spec fn or_else(first: Option<MatchView>, second: Option<MatchView>) -> Option<MatchView> {
    match first {
        Some(_) => first,
        None => second,
    }
}

/// The answer of the first of the affix, ranking and character-replacement
/// strategies that has one.
pub open spec fn plain_answer(pool: Seq<KeyView>, source: KeyView, threshold: nat) -> Option<
    MatchView,
> {
    or_else(
        MatchForwardBack::answer(pool, source),
        or_else(
            LevenshteinDistance::answer(pool, source, threshold),
            MatchWithCharReplacements::answer(pool, source, threshold),
        ),
    )
}

/// Tries the affix strategy, then the ranking strategy, then the
/// character-replacement strategy, and stops at the first that answers.
pub fn match_plain(pool: &Vec<ComparisonKey>, source: &ComparisonKey, threshold: usize) -> (r:
    Option<MatchResult>)
    ensures
        r.deep_view() == plain_answer(key_views(pool@), source@, threshold as nat),
{
    let affix = MatchForwardBack.match_keys(pool, source);
    if affix.is_some() {
        return affix;
    }
    let ranking = LevenshteinDistance::new(threshold).match_keys(pool, source);
    if ranking.is_some() {
        return ranking;
    }
    MatchWithCharReplacements::new(threshold).match_keys(pool, source)
}

/// The answer of the cascade: that of the first of the affix, ranking,
/// character-replacement and section-removal strategies that has one.
pub open spec fn cascade_answer(pool: Seq<KeyView>, source: KeyView, threshold: nat) -> Option<
    MatchView,
> {
    or_else(
        plain_answer(pool, source, threshold),
        RemoveSections::answer(pool, source, threshold),
    )
}

/// Tries the four strategies in their order on keys, and stops at the first
/// that answers.
pub fn match_cascade(pool: &Vec<ComparisonKey>, source: &ComparisonKey, threshold: usize) -> (r:
    Option<MatchResult>)
    ensures
        r.deep_view() == cascade_answer(key_views(pool@), source@, threshold as nat),
{
    let plain = match_plain(pool, source, threshold);
    if plain.is_some() {
        return plain;
    }
    RemoveSections::new(threshold).match_keys(pool, source)
}

/// Looks for the target entry of `spotify_track` among `plex_tracks`: tries
/// the four strategies in their order and stops at the first that answers.
pub fn find_match(
    plex_tracks: &Vec<TrackAlbumArtist>,
    spotify_track: &TrackAlbumArtist,
    threshold: usize,
) -> (r: Option<MatchResult>)
    ensures
        r.deep_view() == cascade_answer(
            keys_of(plex_tracks.deep_view()),
            key_of(spotify_track@),
            threshold as nat,
        ),
{
    let pool = ComparisonKey::of_each(plex_tracks);
    let source = ComparisonKey::of(spotify_track);
    match_cascade(&pool, &source, threshold)
}

/// What the affix, ranking and character-replacement strategies find is an
/// entry of the pool.
pub proof fn lemma_plain_in_pool(pool: Seq<KeyView>, source: KeyView, threshold: nat)
    ensures
        plain_answer(pool, source, threshold) matches Some(found) ==> 0 <= found.index
            < pool.len(),
{
    lemma_affix_match(pool, source);
    lemma_ranking_match(pool, source, threshold);
    lemma_replacement_in_pool(pool, source, threshold);
}

/// What the cascade finds is an entry of the pool.
pub proof fn lemma_cascade_in_pool(pool: Seq<KeyView>, source: KeyView, threshold: nat)
    ensures
        cascade_answer(pool, source, threshold) matches Some(found) ==> 0 <= found.index
            < pool.len(),
{
    lemma_plain_in_pool(pool, source, threshold);
    lemma_sections_in_pool(pool, source, threshold);
}

/// No entry of `pool` qualifies for `source`: none is in the affix relation
/// with it, and none has a combined distance below `threshold`.
pub open spec fn no_candidate(pool: Seq<KeyView>, source: KeyView, threshold: nat) -> bool {
    forall|k: int|
        0 <= k < pool.len() ==> {
            &&& !affix_related(source, #[trigger] pool[k])
            &&& score(source, pool[k]) matches Some(s) ==> s >= threshold
        }
}

/// No entry qualifies, neither as the texts stand nor after the character
/// replacements.
pub open spec fn no_plain_candidate(pool: Seq<KeyView>, source: KeyView, threshold: nat) -> bool {
    &&& no_candidate(pool, source, threshold)
    &&& no_candidate(replaced_keys(pool), replaced_key(source), threshold)
}

/// No entry qualifies at any stage of the section removal.
pub open spec fn no_stage_candidate(pool: Seq<KeyView>, source: KeyView, threshold: nat) -> bool {
    forall|stage: int|
        0 <= stage < STAGES ==> no_plain_candidate(
            #[trigger] stage_pool(pool, stage),
            stage_source(source, stage),
            threshold,
        )
}

/// The affix, ranking and character-replacement strategies find nothing
/// exactly where no entry qualifies.
pub proof fn lemma_plain_answer_none(pool: Seq<KeyView>, source: KeyView, threshold: nat)
    ensures
        plain_answer(pool, source, threshold) is None <==> no_plain_candidate(
            pool,
            source,
            threshold,
        ),
{
    lemma_affix_match(pool, source);
    lemma_ranking_match(pool, source, threshold);
    lemma_affix_match(replaced_keys(pool), replaced_key(source));
    lemma_ranking_match(replaced_keys(pool), replaced_key(source), threshold);
}

/// The cascade finds nothing exactly where no entry qualifies: not as the
/// texts stand, not after the character replacements, and not at any stage
/// of the section removal.
pub proof fn lemma_cascade_answer_none(pool: Seq<KeyView>, source: KeyView, threshold: nat)
    ensures
        cascade_answer(pool, source, threshold) is None <==> no_plain_candidate(
            pool,
            source,
            threshold,
        ) && no_stage_candidate(pool, source, threshold),
{
    lemma_plain_answer_none(pool, source, threshold);
    let stages = answering_stages(pool, source, threshold);
    lemma_least(stages, STAGES as int);
    if no_stage_candidate(pool, source, threshold) {
        assert forall|stage: int| 0 <= stage < STAGES implies !#[trigger] stages(stage) by {
            assert(no_plain_candidate(
                stage_pool(pool, stage),
                stage_source(source, stage),
                threshold,
            ));
            lemma_plain_answer_none(
                stage_pool(pool, stage),
                stage_source(source, stage),
                threshold,
            );
        }
        lemma_least_none(stages, STAGES as int);
    }
    if RemoveSections::answer(pool, source, threshold) is None {
        assert forall|stage: int| 0 <= stage < STAGES implies no_plain_candidate(
            #[trigger] stage_pool(pool, stage),
            stage_source(source, stage),
            threshold,
        ) by {
            assert(!stages(stage));
            lemma_plain_answer_none(
                stage_pool(pool, stage),
                stage_source(source, stage),
                threshold,
            );
        }
    }
}

} // verus!
