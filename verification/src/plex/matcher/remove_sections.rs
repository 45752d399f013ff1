//! The section-removal strategy: bracketed sections are taken out of the
//! texts, one kind after the other, and after each kind the affix, ranking
//! and character-replacement strategies are tried again.
//!
//! The kinds, in their order: `(feat...)`, `(...remix)`, `(...version)`,
//! `(...radio edit)`, `(...remastered)`, `(...mix)`, and at last any `(...)`.
//! In the source entry the removals add up from stage to stage. In a target
//! entry every kind is taken out of the artist names at every stage, and the
//! track title loses the kind of that stage alone.

use crate::plex::matcher::cascade::{lemma_plain_in_pool, match_plain, plain_answer};
use crate::plex::matcher::levenshtein::ACCEPTANCE_THRESHOLD;
use crate::plex::matcher::{
    is_least, key_views, least, lemma_least, lemma_least_is, lemma_least_none, ComparisonKey,
    KeyView, MatchResult, MatchView, Matcher, Strategy,
};
use crate::text::{chars_of, string_of, views_of};
use crate::track_album_artist::TrackAlbumArtist;
use vstd::prelude::*;

verus! {

/// Whether `regex::Regex::new` accepts `pattern`.
pub uninterp spec fn regex_accepts(pattern: Seq<char>) -> bool;

/// What `regex::Regex::replace_all` makes of `haystack`, for the expression
/// compiled from `pattern` and the replacement text `replacement`.
pub uninterp spec fn regex_replace_all(
    pattern: Seq<char>,
    haystack: Seq<char>,
    replacement: Seq<char>,
) -> Seq<char>;

/// Compiles `pattern` with `regex::Regex::new` and, where that succeeds,
/// calls `regex::Regex::replace_all` on `haystack` with `replacement`.
///
/// Nothing is claimed of the two but that they are functions of their
/// arguments: the answer is `None` exactly where the pattern is refused, and
/// otherwise the text that `replace_all` returns.
#[verifier::external_body]
fn replace_all(pattern: &str, haystack: &str, replacement: &str) -> (r: Option<String>)
    ensures
        match r {
            Some(s) => regex_accepts(pattern@) && s@ == regex_replace_all(
                pattern@,
                haystack@,
                replacement@,
            ),
            None => !regex_accepts(pattern@),
        },
{
    match regex::Regex::new(pattern) {
        Ok(re) => Some(re.replace_all(haystack, replacement).into_owned()),
        Err(_) => None,
    }
}

/// The number of kinds of section, which is the number of stages.
pub const STAGES: usize = 7;

/// The expression for the kind of section that stage `stage` removes.
pub open spec fn section_pattern(stage: int) -> Seq<char> {
    if stage == 0 {
        "\\(feat.+?\\)"@
    } else if stage == 1 {
        "\\(.+?remix\\)"@
    } else if stage == 2 {
        "\\(.+?version\\)"@
    } else if stage == 3 {
        "\\(.+?radio edit\\)"@
    } else if stage == 4 {
        "\\(.+?remastered\\)"@
    } else if stage == 5 {
        "\\(.+?mix\\)"@
    } else {
        "\\(.+?\\)"@
    }
}

/// `text` without what matches `pattern`; `text` itself where the pattern is
/// refused.
pub open spec fn removed(pattern: Seq<char>, text: Seq<char>) -> Seq<char> {
    if regex_accepts(pattern) {
        regex_replace_all(pattern, text, Seq::empty())
    } else {
        text
    }
}

/// `text` without the sections of the kind of stage `stage`.
pub open spec fn stripped(text: Seq<char>, stage: int) -> Seq<char> {
    removed(section_pattern(stage), text)
}

/// `text` after the removals of the stages `0` to `stage`, in that order.
pub open spec fn stripped_through(text: Seq<char>, stage: int) -> Seq<char>
    decreases stage + 1,
{
    if stage < 0 {
        text
    } else {
        stripped(stripped_through(text, stage - 1), stage)
    }
}

/// The source key as stage `stage` compares it: the removals of the stages up
/// to this one, in the track title and in each artist name.
pub open spec fn stage_source(source: KeyView, stage: int) -> KeyView {
    KeyView {
        track: stripped_through(source.track, stage),
        artist: Seq::new(source.artist.len(), |i: int| stripped_through(source.artist[i], stage)),
    }
}

/// A target key as stage `stage` compares it: the track title without the
/// sections of this stage's kind, each artist name without those of any kind.
pub open spec fn stage_target(target: KeyView, stage: int) -> KeyView {
    KeyView {
        track: stripped(target.track, stage),
        artist: Seq::new(
            target.artist.len(),
            |i: int| stripped_through(target.artist[i], STAGES - 1),
        ),
    }
}

/// The keys of `pool` as stage `stage` compares them.
pub open spec fn stage_pool(pool: Seq<KeyView>, stage: int) -> Seq<KeyView> {
    Seq::new(pool.len(), |i: int| stage_target(pool[i], stage))
}

/// The answer of stage `stage`: that of the affix, ranking and
/// character-replacement strategies on the keys as the stage compares them.
pub open spec fn stage_answer(pool: Seq<KeyView>, source: KeyView, threshold: nat, stage: int)
    -> Option<MatchView> {
    plain_answer(stage_pool(pool, stage), stage_source(source, stage), threshold)
}

/// The stages that have an answer.
pub open spec fn answering_stages(pool: Seq<KeyView>, source: KeyView, threshold: nat) -> spec_fn(
    int,
) -> bool {
    |stage: int| stage_answer(pool, source, threshold, stage) is Some
}

/// The expression for the kind of section that stage `stage` removes.
pub fn pattern_of(stage: usize) -> (r: &'static str)
    ensures
        r@ == section_pattern(stage as int),
{
    if stage == 0 {
        "\\(feat.+?\\)"
    } else if stage == 1 {
        "\\(.+?remix\\)"
    } else if stage == 2 {
        "\\(.+?version\\)"
    } else if stage == 3 {
        "\\(.+?radio edit\\)"
    } else if stage == 4 {
        "\\(.+?remastered\\)"
    } else if stage == 5 {
        "\\(.+?mix\\)"
    } else {
        "\\(.+?\\)"
    }
}

/// `text` without the sections of the kind of stage `stage`.
pub fn strip_sections(text: &str, stage: usize) -> (r: String)
    ensures
        r@ == stripped(text@, stage as int),
{
    match replace_all(pattern_of(stage), text, "") {
        Some(s) => {
            proof {
                reveal_strlit("");
                assert(""@ =~= Seq::<char>::empty());
            }
            s
        },
        None => String::from_str(text),
    }
}

/// `text` after the removals of every stage, in their order.
pub fn strip_all_sections(text: &str) -> (r: String)
    ensures
        r@ == stripped_through(text@, STAGES - 1),
{
    let mut r = String::from_str(text);
    let mut stage: usize = 0;
    while stage < STAGES
        invariant
            stage <= STAGES,
            r@ == stripped_through(text@, stage - 1),
        decreases STAGES - stage,
    {
        r = strip_sections(r.as_str(), stage);
        stage += 1;
    }
    r
}

/// `text` without the sections of the kind of stage `stage`, character by
/// character.
fn strip_in(text: &Vec<char>, stage: usize) -> (r: Vec<char>)
    ensures
        r@ == stripped(text@, stage as int),
{
    let s = string_of(text);
    let t = strip_sections(s.as_str(), stage);
    chars_of(t.as_str())
}

/// `text` after the removals of every stage, character by character.
fn strip_all_in(text: &Vec<char>) -> (r: Vec<char>)
    ensures
        r@ == stripped_through(text@, STAGES - 1),
{
    let s = string_of(text);
    let t = strip_all_sections(s.as_str());
    chars_of(t.as_str())
}

/// The source key of stage `stage`, made from that of the stage before.
fn next_source(before: &ComparisonKey, stage: usize, Ghost(source): Ghost<KeyView>) -> (r:
    ComparisonKey)
    requires
        before@ == stage_source(source, stage - 1),
    ensures
        r@ == stage_source(source, stage as int),
{
    let mut artist: Vec<Vec<char>> = Vec::new();
    let mut i: usize = 0;
    assert(before@.artist.len() == source.artist.len());
    while i < before.artist.len()
        invariant
            i <= before.artist.len(),
            before.artist.len() == source.artist.len(),
            before@ == stage_source(source, stage - 1),
            artist.len() == i,
            forall|k: int|
                0 <= k < i ==> artist[k]@ == stripped_through(source.artist[k], stage as int),
        decreases before.artist.len() - i,
    {
        assert(before@.artist[i as int] == before.artist[i as int]@);
        assert(before@.artist[i as int] == stripped_through(source.artist[i as int], stage - 1));
        artist.push(strip_in(&before.artist[i], stage));
        i += 1;
    }
    let r = ComparisonKey { track: strip_in(&before.track, stage), artist };
    assert(r@.artist =~= stage_source(source, stage as int).artist);
    r
}

/// The artist names of `target` after the removals of every stage.
fn strip_all_artists(target: &ComparisonKey) -> (r: Vec<Vec<char>>)
    ensures
        views_of(r@) == stage_target(target@, 0).artist,
{
    let mut r: Vec<Vec<char>> = Vec::new();
    let mut i: usize = 0;
    while i < target.artist.len()
        invariant
            i <= target.artist.len(),
            r.len() == i,
            forall|k: int| 0 <= k < i ==> r[k]@ == stripped_through(target.artist[k]@, STAGES - 1),
        decreases target.artist.len() - i,
    {
        r.push(strip_all_in(&target.artist[i]));
        i += 1;
    }
    assert(views_of(r@) =~= stage_target(target@, 0).artist);
    r
}

/// A copy of `texts`.
fn copy_texts(texts: &Vec<Vec<char>>) -> (r: Vec<Vec<char>>)
    ensures
        views_of(r@) == views_of(texts@),
{
    let mut r: Vec<Vec<char>> = Vec::new();
    let mut i: usize = 0;
    while i < texts.len()
        invariant
            i <= texts.len(),
            r.len() == i,
            forall|k: int| 0 <= k < i ==> r[k]@ == texts[k]@,
        decreases texts.len() - i,
    {
        let copy = texts[i].clone();
        assert(copy@ =~= texts[i as int]@);
        r.push(copy);
        i += 1;
    }
    assert(views_of(r@) =~= views_of(texts@));
    r
}

/// The keys of `pool` as stage `stage` compares them, given the artist names
/// of each after the removals of every stage.
fn stage_keys(pool: &Vec<ComparisonKey>, artists: &Vec<Vec<Vec<char>>>, stage: usize) -> (r: Vec<
    ComparisonKey,
>)
    requires
        artists.len() == pool.len(),
        forall|i: int|
            0 <= i < pool.len() ==> views_of((#[trigger] artists[i])@) == stage_target(
                pool[i]@,
                0,
            ).artist,
    ensures
        key_views(r@) == stage_pool(key_views(pool@), stage as int),
{
    let mut r: Vec<ComparisonKey> = Vec::new();
    let mut i: usize = 0;
    while i < pool.len()
        invariant
            i <= pool.len(),
            artists.len() == pool.len(),
            forall|i: int|
                0 <= i < pool.len() ==> views_of((#[trigger] artists[i])@) == stage_target(
                    pool[i]@,
                    0,
                ).artist,
            r.len() == i,
            forall|k: int| 0 <= k < i ==> r[k]@ == stage_target(pool[k]@, stage as int),
        decreases pool.len() - i,
    {
        let key = ComparisonKey {
            track: strip_in(&pool[i].track, stage),
            artist: copy_texts(&artists[i]),
        };
        assert(key@.artist == views_of(artists[i as int]@));
        r.push(key);
        i += 1;
    }
    assert(key_views(r@) =~= stage_pool(key_views(pool@), stage as int));
    r
}

/// The section-removal strategy, with the acceptance threshold of the
/// ranking that its stages fall back on.
#[derive(Clone, Copy, Debug)]
pub struct RemoveSections {
    pub threshold: usize,
}

impl Default for RemoveSections {
    fn default() -> (r: Self)
        ensures
            r.threshold == ACCEPTANCE_THRESHOLD,
    {
        RemoveSections { threshold: ACCEPTANCE_THRESHOLD }
    }
}

impl RemoveSections {
    /// The strategy whose ranking accepts a combined distance below
    /// `threshold`.
    pub fn new(threshold: usize) -> (r: Self)
        ensures
            r.threshold == threshold,
    {
        RemoveSections { threshold }
    }

    /// The answer of the strategy: that of the first stage that has one.
    pub open spec fn answer(pool: Seq<KeyView>, source: KeyView, threshold: nat) -> Option<
        MatchView,
    > {
        match least(answering_stages(pool, source, threshold), STAGES as int) {
            Some(stage) => {
                let found = stage_answer(pool, source, threshold, stage)->0;
                Some(
                    MatchView {
                        index: found.index,
                        strategy: Strategy::RemoveSections,
                        distance: found.distance,
                    },
                )
            },
            None => None,
        }
    }

    /// Goes through the stages in their order and stops at the first at
    /// which the affix, ranking or character-replacement strategy answers.
    pub fn match_keys(&self, pool: &Vec<ComparisonKey>, source: &ComparisonKey) -> (r: Option<
        MatchResult,
    >)
        ensures
            r.deep_view() == Self::answer(key_views(pool@), source@, self.threshold as nat),
    {
        let ghost stages = answering_stages(key_views(pool@), source@, self.threshold as nat);
        let mut artists: Vec<Vec<Vec<char>>> = Vec::new();
        let mut i: usize = 0;
        while i < pool.len()
            invariant
                i <= pool.len(),
                artists.len() == i,
                forall|k: int|
                    0 <= k < i ==> views_of((#[trigger] artists[k])@) == stage_target(
                        pool[k]@,
                        0,
                    ).artist,
            decreases pool.len() - i,
        {
            artists.push(strip_all_artists(&pool[i]));
            i += 1;
        }
        let mut current = ComparisonKey {
            track: source.track.clone(),
            artist: copy_texts(&source.artist),
        };
        assert(current@.track =~= source@.track);
        assert(current@.artist =~= stage_source(source@, -1).artist);
        let mut stage: usize = 0;
        while stage < STAGES
            invariant
                stage <= STAGES,
                artists.len() == pool.len(),
                forall|k: int|
                    0 <= k < pool.len() ==> views_of((#[trigger] artists[k])@) == stage_target(
                        pool[k]@,
                        0,
                    ).artist,
                current@ == stage_source(source@, stage - 1),
                stages == answering_stages(key_views(pool@), source@, self.threshold as nat),
                forall|k: int| 0 <= k < stage ==> !#[trigger] stages(k),
            decreases STAGES - stage,
        {
            current = next_source(&current, stage, Ghost(source@));
            let keys = stage_keys(pool, &artists, stage);
            match match_plain(&keys, &current, self.threshold) {
                Some(found) => {
                    proof {
                        assert(is_least(stages, STAGES as int, stage as int));
                        lemma_least_is(stages, STAGES as int, stage as int);
                    }
                    return Some(
                        MatchResult {
                            index: found.index,
                            strategy: Strategy::RemoveSections,
                            distance: found.distance,
                        },
                    );
                },
                None => {},
            }
            stage += 1;
        }
        proof {
            lemma_least_none(stages, STAGES as int);
        }
        None
    }
}

impl Matcher for RemoveSections {
    open spec fn matched(&self, pool: Seq<KeyView>, source: KeyView) -> Option<MatchView> {
        Self::answer(pool, source, self.threshold as nat)
    }

    fn match_fn(&self, plex_tracks: &Vec<TrackAlbumArtist>, spotify_track: &TrackAlbumArtist) -> (r:
        Option<MatchResult>) {
        let pool = ComparisonKey::of_each(plex_tracks);
        let source = ComparisonKey::of(spotify_track);
        self.match_keys(&pool, &source)
    }
}

/// What the section-removal strategy finds is an entry of the pool.
pub proof fn lemma_sections_in_pool(pool: Seq<KeyView>, source: KeyView, threshold: nat)
    ensures
        RemoveSections::answer(pool, source, threshold) matches Some(found) ==> 0 <= found.index
            < pool.len(),
{
    let stages = answering_stages(pool, source, threshold);
    lemma_least(stages, STAGES as int);
    if least(stages, STAGES as int) is Some {
        let stage = least(stages, STAGES as int)->0;
        assert(stages(stage));
        lemma_plain_in_pool(stage_pool(pool, stage), stage_source(source, stage), threshold);
    }
}

} // verus!
