//! The reconciliation of a source catalog with a target pool, entry by entry.
//!
//! For each source entry the cascade of strategies looks for a target entry.
//! A target item that no earlier source entry claimed is claimed and goes to
//! the playlist: by a creation for the first, by an append from then on. A
//! target item that was claimed before is reported as a duplicate and the
//! playlist is left alone. A source entry without a match is reported with
//! the target entries that share its artists or its album.
//!
//! The library decides; sending the changes is left to the caller, who hands
//! back the identifier that the target library gave to the created playlist.

use crate::plex::matcher::cascade::{
    cascade_answer, lemma_cascade_answer_none, lemma_cascade_in_pool, match_cascade,
    no_plain_candidate, no_stage_candidate,
};
use crate::plex::matcher::{
    is_least, key_of, key_views, keys_of, least, lemma_least, lemma_least_is, lemma_least_none,
    ComparisonKey, MatchResult, MatchView,
};
use crate::plex::{created, mutation, mutation_for, MutationView, PlaylistMutation, PlaylistState};
use crate::track_album_artist::{
    all_from_library, same_names, MetadataType, TrackAlbumArtist, TrackView,
};
use vstd::pervasive::unreached;
use vstd::prelude::*;

verus! {

/// A target item with the source entry that claimed it first.
#[derive(Debug)]
pub struct Claim {
    pub item_id: String,
    pub source: TrackAlbumArtist,
    pub target: TrackAlbumArtist,
}

/// What a `Claim` holds.
pub ghost struct ClaimView {
    pub item_id: Seq<char>,
    pub source: TrackView,
    pub target: TrackView,
}

impl View for Claim {
    type V = ClaimView;

    open spec fn view(&self) -> ClaimView {
        ClaimView { item_id: self.item_id@, source: self.source@, target: self.target@ }
    }
}

impl DeepView for Claim {
    type V = ClaimView;

    open spec fn deep_view(&self) -> ClaimView {
        self@
    }
}

impl Clone for Claim {
    fn clone(&self) -> (r: Self)
        ensures
            r@ == self@,
    {
        Claim {
            item_id: self.item_id.clone(),
            source: self.source.clone(),
            target: self.target.clone(),
        }
    }
}

/// The positions of the claims on the item `item_id`.
pub open spec fn claims_on(claims: Seq<ClaimView>, item_id: Seq<char>) -> spec_fn(int) -> bool {
    |i: int| claims[i].item_id == item_id
}

/// The position of the claim on the item `item_id`, if it was claimed.
pub open spec fn claim_on(claims: Seq<ClaimView>, item_id: Seq<char>) -> Option<int> {
    least(claims_on(claims, item_id), claims.len() as int)
}

/// No item was claimed twice.
pub open spec fn distinct_items(claims: Seq<ClaimView>) -> bool {
    forall|i: int, j: int|
        0 <= i < j < claims.len() ==> (#[trigger] claims[i]).item_id != (#[trigger] claims[j]).item_id
}

/// The target items that were claimed, each with the source entry that
/// claimed it first, in the order of the claims. Claims are added and never
/// taken back.
#[derive(Debug)]
pub struct DeduplicationTracker {
    claims: Vec<Claim>,
}

impl View for DeduplicationTracker {
    type V = Seq<ClaimView>;

    closed spec fn view(&self) -> Seq<ClaimView> {
        self.claims.deep_view()
    }
}

impl DeduplicationTracker {
    /// No item is held twice.
    pub open spec fn wf(&self) -> bool {
        distinct_items(self@)
    }

    /// The tracker without a claim.
    pub fn new() -> (r: Self)
        ensures
            r@ == Seq::<ClaimView>::empty(),
            r.wf(),
    {
        let r = DeduplicationTracker { claims: Vec::new() };
        assert(r@ =~= Seq::<ClaimView>::empty());
        r
    }

    /// The number of items that were claimed.
    pub fn len(&self) -> (r: usize)
        ensures
            r == self@.len(),
    {
        self.claims.len()
    }

    /// The claim at position `i`, in the order of the claims.
    pub fn claim(&self, i: usize) -> (r: &Claim)
        requires
            i < self@.len(),
        ensures
            r@ == self@[i as int],
    {
        &self.claims[i]
    }

    /// The position of the claim on the item `item_id`, if it was claimed.
    pub fn position(&self, item_id: &String) -> (r: Option<usize>)
        ensures
            match r {
                Some(i) => claim_on(self@, item_id@) == Some(i as int) && i < self@.len(),
                None => claim_on(self@, item_id@) is None,
            },
    {
        let ghost p = claims_on(self@, item_id@);
        let mut i: usize = 0;
        while i < self.claims.len()
            invariant
                i <= self.claims.len(),
                p == claims_on(self@, item_id@),
                forall|k: int| 0 <= k < i ==> !#[trigger] p(k),
            decreases self.claims.len() - i,
        {
            assert(self@[i as int] == self.claims[i as int]@);
            if self.claims[i].item_id == *item_id {
                proof {
                    assert(is_least(p, self@.len() as int, i as int));
                    lemma_least_is(p, self@.len() as int, i as int);
                }
                return Some(i);
            }
            i += 1;
        }
        proof {
            lemma_least_none(p, self@.len() as int);
        }
        None
    }

    /// The claim on the item `item_id`, if it was claimed.
    pub fn get(&self, item_id: &String) -> (r: Option<&Claim>)
        ensures
            match r {
                Some(c) => claim_on(self@, item_id@) is Some && c@ == self@[claim_on(
                    self@,
                    item_id@,
                )->0],
                None => claim_on(self@, item_id@) is None,
            },
    {
        match self.position(item_id) {
            Some(i) => Some(self.claim(i)),
            None => None,
        }
    }

    /// Whether the item `item_id` was claimed.
    pub fn contains_key(&self, item_id: &String) -> (r: bool)
        ensures
            r == claim_on(self@, item_id@) is Some,
    {
        self.position(item_id).is_some()
    }

    /// Claims the item `item_id` for `source`, where no claim is on it yet,
    /// and says whether it did.
    pub fn insert(&mut self, item_id: String, source: TrackAlbumArtist, target: TrackAlbumArtist) -> (r:
        bool)
        requires
            old(self).wf(),
        ensures
            final(self).wf(),
            r == claim_on(old(self)@, item_id@) is None,
            final(self)@ == if r {
                old(self)@.push(ClaimView { item_id: item_id@, source: source@, target: target@ })
            } else {
                old(self)@
            },
    {
        if self.position(&item_id).is_some() {
            return false;
        }
        let ghost before = self@;
        let ghost added = ClaimView { item_id: item_id@, source: source@, target: target@ };
        proof {
            lemma_least(claims_on(before, item_id@), before.len() as int);
        }
        self.claims.push(Claim { item_id, source, target });
        proof {
            assert(self@ =~= before.push(added));
            assert forall|i: int, j: int| 0 <= i < j < self@.len() implies (#[trigger] self@[i]).item_id
                != (#[trigger] self@[j]).item_id by {
                if j == before.len() {
                    assert(!claims_on(before, item_id@)(i));
                } else {
                    assert(self@[i] == before[i] && self@[j] == before[j]);
                }
            }
        }
        true
    }
}

/// A target entry is a near miss of a source entry where it has the same
/// artists or the same album.
pub open spec fn is_near_miss(source: TrackView, target: TrackView) -> bool {
    target.artist == source.artist || target.album == source.album
}

/// The positions of the near misses of `source` in `pool`, in rising order.
pub open spec fn near_misses(pool: Seq<TrackView>, source: TrackView) -> Seq<int>
    decreases pool.len(),
{
    if pool.len() == 0 {
        Seq::empty()
    } else if is_near_miss(source, pool.last()) {
        near_misses(pool.drop_last(), source).push(pool.len() - 1)
    } else {
        near_misses(pool.drop_last(), source)
    }
}

/// The positions of `positions`, as mathematical integers.
pub open spec fn positions_of(positions: Seq<usize>) -> Seq<int> {
    Seq::new(positions.len(), |i: int| positions[i] as int)
}

/// The positions of the near misses of `source` in `pool`, in rising order.
pub fn find_near_misses(pool: &Vec<TrackAlbumArtist>, source: &TrackAlbumArtist) -> (r: Vec<usize>)
    ensures
        positions_of(r@) == near_misses(pool.deep_view(), source@),
{
    let mut r: Vec<usize> = Vec::new();
    let mut i: usize = 0;
    assert(pool.deep_view().take(0) =~= Seq::<TrackView>::empty());
    while i < pool.len()
        invariant
            i <= pool.len(),
            positions_of(r@) == near_misses(pool.deep_view().take(i as int), source@),
        decreases pool.len() - i,
    {
        let ghost before = positions_of(r@);
        proof {
            assert(pool.deep_view().take(i + 1).drop_last() =~= pool.deep_view().take(i as int));
            assert(pool.deep_view().take(i + 1).last() == pool[i as int]@);
        }
        if same_names(&pool[i].artist, &source.artist) || pool[i].album == source.album {
            r.push(i);
            assert(positions_of(r@) =~= before.push(i as int));
        }
        i += 1;
    }
    assert(pool.deep_view().take(pool.len() as int) =~= pool.deep_view());
    r
}

/// The near misses are the positions of the entries that share the artists
/// or the album of the source, each once and in rising order.
pub proof fn lemma_near_misses(pool: Seq<TrackView>, source: TrackView)
    ensures
        forall|k: int|
            0 <= k < near_misses(pool, source).len() ==> {
                let i = #[trigger] near_misses(pool, source)[k];
                0 <= i < pool.len() && is_near_miss(source, pool[i])
            },
        forall|k: int, l: int|
            0 <= k < l < near_misses(pool, source).len() ==> near_misses(pool, source)[k]
                < near_misses(pool, source)[l],
        forall|i: int|
            0 <= i < pool.len() && is_near_miss(source, #[trigger] pool[i]) ==> near_misses(
                pool,
                source,
            ).contains(i),
    decreases pool.len(),
{
    if pool.len() > 0 {
        let shorter = pool.drop_last();
        let rest = near_misses(shorter, source);
        lemma_near_misses(shorter, source);
        let all = near_misses(pool, source);
        assert forall|i: int| 0 <= i < pool.len() && is_near_miss(source, #[trigger] pool[i]) implies all.contains(
            i,
        ) by {
            if i < pool.len() - 1 {
                assert(shorter[i] == pool[i]);
                assert(rest.contains(i));
                let k = choose|k: int| 0 <= k < rest.len() && rest[k] == i;
                assert(all[k] == i);
            } else {
                assert(all[all.len() - 1] == i);
            }
        }
        assert forall|k: int| 0 <= k < all.len() implies {
            let i = #[trigger] all[k];
            0 <= i < pool.len() && is_near_miss(source, pool[i])
        } by {
            if k < rest.len() {
                assert(all[k] == rest[k]);
                assert(shorter[rest[k]] == pool[rest[k]]);
            }
        }
        assert forall|k: int, l: int| 0 <= k < l < all.len() implies all[k] < all[l] by {
            if l < rest.len() {
                assert(all[k] == rest[k] && all[l] == rest[l]);
            } else {
                assert(all[k] == rest[k]);
            }
        }
    }
}

/// What became of a source entry.
#[derive(Debug)]
pub enum Outcome {
    /// The entry matched a target item that no earlier entry had claimed:
    /// the item is claimed, and `mutation` puts it into the playlist.
    Claimed { result: MatchResult, mutation: PlaylistMutation },
    /// The entry matched a target item that `first` had claimed: nothing is
    /// claimed and the playlist is left alone.
    DuplicateLogged { result: MatchResult, first: Claim },
    /// No strategy found a target entry. `near_misses` holds the positions of
    /// the target entries that share the artists or the album of the entry.
    Unmatched { near_misses: Vec<usize> },
}

/// What an `Outcome` holds.
pub ghost enum OutcomeView {
    Claimed { result: MatchView, mutation: MutationView },
    DuplicateLogged { result: MatchView, first: ClaimView },
    Unmatched { near_misses: Seq<int> },
}

impl View for Outcome {
    type V = OutcomeView;

    open spec fn view(&self) -> OutcomeView {
        match self {
            Outcome::Claimed { result, mutation } => OutcomeView::Claimed {
                result: result@,
                mutation: mutation@,
            },
            Outcome::DuplicateLogged { result, first } => OutcomeView::DuplicateLogged {
                result: result@,
                first: first@,
            },
            Outcome::Unmatched { near_misses } => OutcomeView::Unmatched {
                near_misses: positions_of(near_misses@),
            },
        }
    }
}

/// The state of a reconciliation: the target pool, the name of the playlist,
/// the acceptance threshold, the identifier of the playlist once it is
/// known, and the claims made so far.
pub ghost struct StateView {
    pub pool: Seq<TrackView>,
    pub playlist_name: Seq<char>,
    pub threshold: nat,
    pub playlist: Option<Seq<char>>,
    pub claims: Seq<ClaimView>,
}

/// The state before the first source entry.
pub open spec fn initial(pool: Seq<TrackView>, playlist_name: Seq<char>, threshold: nat)
    -> StateView {
    StateView { pool, playlist_name, threshold, playlist: None, claims: Seq::empty() }
}

/// Every entry of the pool is an item of the library, and no item was
/// claimed twice.
pub open spec fn valid(state: StateView) -> bool {
    all_from_library(state.pool) && distinct_items(state.claims)
}

/// The target entry that the cascade finds for `source`, if it finds one.
pub open spec fn found_for(state: StateView, source: TrackView) -> Option<MatchView> {
    cascade_answer(keys_of(state.pool), key_of(source), state.threshold)
}

/// The identifier of the item at position `index` of the pool.
pub open spec fn item_at(state: StateView, index: int) -> Seq<char> {
    state.pool[index].metadata->Plex_0.rating_key
}

/// The state after `source` and what became of `source`.
pub open spec fn step(state: StateView, source: TrackView) -> (StateView, OutcomeView) {
    match found_for(state, source) {
        None => (state, OutcomeView::Unmatched { near_misses: near_misses(state.pool, source) }),
        Some(found) => {
            let target = state.pool[found.index];
            let item_id = item_at(state, found.index);
            match claim_on(state.claims, item_id) {
                Some(first) => (
                    state,
                    OutcomeView::DuplicateLogged { result: found, first: state.claims[first] },
                ),
                None => (
                    StateView {
                        claims: state.claims.push(ClaimView { item_id, source, target }),
                        ..state
                    },
                    OutcomeView::Claimed {
                        result: found,
                        mutation: mutation_for(
                            state.playlist,
                            state.playlist_name,
                            target.metadata->Plex_0,
                        ),
                    },
                ),
            }
        },
    }
}

/// The state after the target library has answered a creation with the
/// identifier `id`.
pub open spec fn answered(state: StateView, id: Seq<char>) -> StateView {
    StateView { playlist: created(state.playlist, id), ..state }
}

/// A reconciliation in progress.
#[derive(Debug)]
pub struct Reconciliation {
    pool: Vec<TrackAlbumArtist>,
    keys: Vec<ComparisonKey>,
    playlist_name: String,
    threshold: usize,
    playlist: PlaylistState,
    tracker: DeduplicationTracker,
}

impl View for Reconciliation {
    type V = StateView;

    closed spec fn view(&self) -> StateView {
        StateView {
            pool: self.pool.deep_view(),
            playlist_name: self.playlist_name@,
            threshold: self.threshold as nat,
            playlist: self.playlist@,
            claims: self.tracker@,
        }
    }
}

impl Reconciliation {
    /// The state is valid, and the comparison keys are those of the pool.
    pub closed spec fn wf(&self) -> bool {
        &&& valid(self@)
        &&& key_views(self.keys@) == keys_of(self.pool.deep_view())
    }

    /// What `wf` says of the state.
    pub proof fn lemma_wf(&self)
        requires
            self.wf(),
        ensures
            valid(self@),
            self@.pool.len() <= usize::MAX,
            self@.threshold <= usize::MAX,
    {
        assert(self@.pool.len() == self.pool.len());
    }

    /// Starts a reconciliation against `pool`, for the playlist
    /// `playlist_name`, with the acceptance threshold `threshold`. It is
    /// refused where an entry of the pool is no item of the library.
    pub fn new(pool: Vec<TrackAlbumArtist>, playlist_name: String, threshold: usize) -> (r: Option<
        Self,
    >)
        ensures
            match r {
                Some(state) => {
                    &&& all_from_library(pool.deep_view())
                    &&& state.wf()
                    &&& state@ == initial(pool.deep_view(), playlist_name@, threshold as nat)
                },
                None => !all_from_library(pool.deep_view()),
            },
    {
        let mut i: usize = 0;
        while i < pool.len()
            invariant
                i <= pool.len(),
                forall|k: int| 0 <= k < i ==> (#[trigger] pool.deep_view()[k]).metadata is Plex,
            decreases pool.len() - i,
        {
            match &pool[i].metadata {
                MetadataType::Plex(_) => {},
                MetadataType::Spotify(_) => {
                    assert(!(pool.deep_view()[i as int].metadata is Plex));
                    return None;
                },
            }
            i += 1;
        }
        let keys = ComparisonKey::of_each(&pool);
        Some(
            Reconciliation {
                pool,
                keys,
                playlist_name,
                threshold,
                playlist: PlaylistState::new(),
                tracker: DeduplicationTracker::new(),
            },
        )
    }

    /// The target pool.
    pub fn pool(&self) -> (r: &Vec<TrackAlbumArtist>)
        ensures
            r.deep_view() == self@.pool,
    {
        &self.pool
    }

    /// The claims made so far.
    pub fn tracker(&self) -> (r: &DeduplicationTracker)
        ensures
            r@ == self@.claims,
    {
        &self.tracker
    }

    /// The playlist that the matches go to.
    pub fn playlist(&self) -> (r: &PlaylistState)
        ensures
            r@ == self@.playlist,
    {
        &self.playlist
    }

    /// Takes note of the identifier that the target library gave to the
    /// playlist it created. An identifier that is already known is kept.
    pub fn record_created(&mut self, id: String)
        requires
            old(self).wf(),
        ensures
            final(self).wf(),
            final(self)@ == answered(old(self)@, id@),
    {
        self.playlist.record_created(id);
    }

    /// Decides what becomes of `source`: looks for its target entry, claims
    /// the item where it is free, and says which change the playlist needs.
    pub fn process_entry(&mut self, source: &TrackAlbumArtist) -> (r: Outcome)
        requires
            old(self).wf(),
        ensures
            final(self).wf(),
            final(self)@ == step(old(self)@, source@).0,
            r@ == step(old(self)@, source@).1,
    {
        let key = ComparisonKey::of(source);
        proof {
            lemma_cascade_in_pool(keys_of(self@.pool), key_of(source@), self@.threshold);
        }
        let found = match match_cascade(&self.keys, &key, self.threshold) {
            Some(found) => found,
            None => {
                return Outcome::Unmatched { near_misses: find_near_misses(&self.pool, source) };
            },
        };
        assert(found@.index < self@.pool.len());
        let target = &self.pool[found.index];
        assert(target@ == self@.pool[found@.index]);
        match &target.metadata {
            MetadataType::Plex(meta) => {
                match self.tracker.get(&meta.rating_key) {
                    Some(first) => Outcome::DuplicateLogged { result: found, first: first.clone() },
                    None => {
                        let mutation = mutation(&self.playlist, meta, &self.playlist_name);
                        self.tracker.insert(meta.rating_key.clone(), source.clone(), target.clone());
                        Outcome::Claimed { result: found, mutation }
                    },
                }
            },
            MetadataType::Spotify(_) => unreached(),
        }
    }
}

/// The state after the caller has dealt with `outcome`: where the outcome
/// asked for a creation, the target library has answered with `id`.
pub open spec fn settled(state: StateView, outcome: OutcomeView, id: Seq<char>) -> StateView {
    if outcome is Claimed && outcome->mutation is Create {
        answered(state, id)
    } else {
        state
    }
}

/// A run over `sources`, in their order, from `state`: the state at its end
/// and what became of each source entry. Where the entry at position `i`
/// asks for a creation, the target library answers with `ids[i]`.
pub open spec fn run(state: StateView, sources: Seq<TrackView>, ids: Seq<Seq<char>>) -> (
    StateView,
    Seq<OutcomeView>,
)
    decreases sources.len(),
{
    if sources.len() == 0 {
        (state, Seq::empty())
    } else {
        let (before, outcomes) = run(state, sources.drop_last(), ids);
        let (next, outcome) = step(before, sources.last());
        (settled(next, outcome, ids[sources.len() - 1]), outcomes.push(outcome))
    }
}

/// A claim that is added changes no answer for an item that was claimed, and
/// answers for its own item where that was free.
pub proof fn lemma_claim_on_push(claims: Seq<ClaimView>, added: ClaimView, item_id: Seq<char>)
    ensures
        claim_on(claims.push(added), item_id) == match claim_on(claims, item_id) {
            Some(i) => Some(i),
            None => if added.item_id == item_id {
                Some(claims.len() as int)
            } else {
                None
            },
        },
{
    let p = claims_on(claims, item_id);
    let q = claims_on(claims.push(added), item_id);
    let n = claims.len() as int;
    lemma_least(p, n);
    assert forall|k: int| 0 <= k < n implies #[trigger] p(k) == q(k) by {
        assert(claims.push(added)[k] == claims[k]);
    }
    assert forall|k: int| 0 <= k < n implies p(k) == #[trigger] q(k) by {
        assert(claims.push(added)[k] == claims[k]);
    }
    assert(claims.push(added)[n] == added);
    match claim_on(claims, item_id) {
        Some(i) => {
            assert(is_least(q, n + 1, i));
            lemma_least_is(q, n + 1, i);
        },
        None => {
            if added.item_id == item_id {
                assert(q(n));
                assert(is_least(q, n + 1, n));
                lemma_least_is(q, n + 1, n);
            } else {
                assert(!q(n));
                lemma_least_none(q, n + 1);
            }
        },
    }
}

/// A step keeps the pool, the name and the threshold, keeps the state valid,
/// keeps every claim, and leaves the item that it matched claimed.
pub proof fn lemma_step(state: StateView, source: TrackView)
    requires
        valid(state),
    ensures
        valid(step(state, source).0),
        step(state, source).0.pool == state.pool,
        step(state, source).0.playlist_name == state.playlist_name,
        step(state, source).0.threshold == state.threshold,
        step(state, source).0.playlist == state.playlist,
        forall|item_id: Seq<char>| #[trigger]
            claim_on(state.claims, item_id) is Some ==> claim_on(
                step(state, source).0.claims,
                item_id,
            ) == claim_on(state.claims, item_id),
        found_for(state, source) matches Some(found) ==> claim_on(
            step(state, source).0.claims,
            item_at(state, found.index),
        ) is Some,
        !(step(state, source).1 is Claimed) ==> step(state, source).0 == state,
{
    if found_for(state, source) is Some {
        let found = found_for(state, source)->0;
        let item_id = item_at(state, found.index);
        let added = ClaimView { item_id, source, target: state.pool[found.index] };
        if claim_on(state.claims, item_id) is None {
            lemma_least(claims_on(state.claims, item_id), state.claims.len() as int);
            let after = state.claims.push(added);
            assert forall|i: int, j: int| 0 <= i < j < after.len() implies (#[trigger] after[i]).item_id
                != (#[trigger] after[j]).item_id by {
                if j == state.claims.len() {
                    assert(!claims_on(state.claims, item_id)(i));
                } else {
                    assert(after[i] == state.claims[i] && after[j] == state.claims[j]);
                }
            }
            assert forall|other: Seq<char>| #[trigger]
                claim_on(state.claims, other) is Some implies claim_on(after, other) == claim_on(
                state.claims,
                other,
            ) by {
                lemma_claim_on_push(state.claims, added, other);
            }
            lemma_claim_on_push(state.claims, added, item_id);
        }
    }
}

/// What holds of every run: there is an outcome for each source entry; the
/// pool, the name and the threshold stay; a valid state stays valid; claims
/// stay; every item that a source entry matched is claimed at the end; and
/// the playlist has an identifier at the end exactly where it had one at the
/// start or an entry was claimed.
pub proof fn lemma_run(state: StateView, sources: Seq<TrackView>, ids: Seq<Seq<char>>)
    requires
        valid(state),
    ensures
        ({
            let (last, outcomes) = run(state, sources, ids);
            &&& outcomes.len() == sources.len()
            &&& valid(last)
            &&& last.pool == state.pool
            &&& last.playlist_name == state.playlist_name
            &&& last.threshold == state.threshold
            &&& forall|item_id: Seq<char>| #[trigger]
                claim_on(state.claims, item_id) is Some ==> claim_on(last.claims, item_id)
                    == claim_on(state.claims, item_id)
            &&& forall|i: int|
                0 <= i < sources.len() ==> (found_for(state, #[trigger] sources[i]) matches Some(
                    found,
                ) ==> claim_on(last.claims, item_at(state, found.index)) is Some)
            &&& last.playlist is Some <==> state.playlist is Some || exists|i: int|
                0 <= i < outcomes.len() && #[trigger] outcomes[i] is Claimed
        }),
    decreases sources.len(),
{
    if sources.len() > 0 {
        let shorter = sources.drop_last();
        lemma_run(state, shorter, ids);
        let (before, earlier) = run(state, shorter, ids);
        let (next, outcome) = step(before, sources.last());
        let (last, outcomes) = run(state, sources, ids);
        lemma_step(before, sources.last());
        assert(found_for(before, sources.last()) == found_for(state, sources.last()));
        assert forall|item_id: Seq<char>| #[trigger]
            claim_on(state.claims, item_id) is Some implies claim_on(last.claims, item_id)
            == claim_on(state.claims, item_id) by {
            assert(claim_on(before.claims, item_id) is Some);
        }
        assert forall|i: int| 0 <= i < sources.len() implies (found_for(
            state,
            #[trigger] sources[i],
        ) matches Some(found) ==> claim_on(last.claims, item_at(state, found.index)) is Some) by {
            if found_for(state, sources[i]) is Some {
                let found = found_for(state, sources[i])->0;
                if i < shorter.len() {
                    assert(shorter[i] == sources[i]);
                    assert(claim_on(before.claims, item_at(state, found.index)) is Some);
                } else {
                    assert(item_at(before, found.index) == item_at(state, found.index));
                }
            }
        }
        if exists|i: int| 0 <= i < earlier.len() && #[trigger] earlier[i] is Claimed {
            let i = choose|i: int| 0 <= i < earlier.len() && #[trigger] earlier[i] is Claimed;
            assert(outcomes[i] is Claimed);
        }
        if outcome is Claimed {
            assert(outcomes[outcomes.len() - 1] is Claimed);
        }
        if exists|i: int| 0 <= i < outcomes.len() && #[trigger] outcomes[i] is Claimed {
            let i = choose|i: int| 0 <= i < outcomes.len() && #[trigger] outcomes[i] is Claimed;
            if i < earlier.len() {
                assert(earlier[i] is Claimed);
            }
        }
    }
}

/// The outcomes of the first `n` source entries are the same in a run that
/// stops after them.
pub proof fn lemma_run_prefix(state: StateView, sources: Seq<TrackView>, ids: Seq<Seq<char>>, n: int)
    requires
        0 <= n <= sources.len(),
    ensures
        run(state, sources.take(n), ids).1 == run(state, sources, ids).1.take(n),
        run(state, sources.take(n), ids).1.len() == n,
    decreases sources.len(),
{
    if n == sources.len() {
        assert(sources.take(n) =~= sources);
        lemma_run_length(state, sources, ids);
        assert(run(state, sources, ids).1.take(n) =~= run(state, sources, ids).1);
    } else {
        let shorter = sources.drop_last();
        lemma_run_prefix(state, shorter, ids, n);
        assert(shorter.take(n) =~= sources.take(n));
        lemma_run_length(state, shorter, ids);
        assert(run(state, shorter, ids).1.take(n) =~= run(state, sources, ids).1.take(n));
    }
}

/// A run has an outcome for each source entry.
pub proof fn lemma_run_length(state: StateView, sources: Seq<TrackView>, ids: Seq<Seq<char>>)
    ensures
        run(state, sources, ids).1.len() == sources.len(),
    decreases sources.len(),
{
    if sources.len() > 0 {
        lemma_run_length(state, sources.drop_last(), ids);
    }
}

/// In a run, the outcome of the entry at position `i` is that of a step from
/// the state that the entries before it left.
pub proof fn lemma_run_at(state: StateView, sources: Seq<TrackView>, ids: Seq<Seq<char>>, i: int)
    requires
        0 <= i < sources.len(),
    ensures
        run(state, sources, ids).1[i] == step(
            run(state, sources.take(i), ids).0,
            sources[i],
        ).1,
{
    lemma_run_prefix(state, sources, ids, i + 1);
    let upto = sources.take(i + 1);
    assert(upto.drop_last() =~= sources.take(i));
    assert(upto.last() == sources[i]);
    lemma_run_length(state, sources.take(i), ids);
    lemma_run_length(state, sources, ids);
    assert(run(state, upto, ids).1[i] == run(state, sources, ids).1.take(i + 1)[i]);
}

/// A source entry for which no target entry qualifies (not as the texts
/// stand, not after the character replacements, and not at any stage of the
/// section removal) finds no match. It is reported as unmatched, with its
/// near misses, and the state stays as it was: nothing is claimed, and no
/// change of the playlist is asked for.
pub proof fn lemma_no_candidate_changes_nothing(state: StateView, source: TrackView)
    requires
        no_plain_candidate(keys_of(state.pool), key_of(source), state.threshold),
        no_stage_candidate(keys_of(state.pool), key_of(source), state.threshold),
    ensures
        found_for(state, source) is None,
        step(state, source).0 == state,
        step(state, source).1 == (OutcomeView::Unmatched {
            near_misses: near_misses(state.pool, source),
        }),
{
    lemma_cascade_answer_none(keys_of(state.pool), key_of(source), state.threshold);
}

/// In a run from the start, every entry that is claimed asks for exactly
/// one change of the playlist: the first claimed entry for its creation, and
/// each later one for an append. The other entries ask for none.
pub proof fn lemma_create_once_then_append(
    pool: Seq<TrackView>,
    playlist_name: Seq<char>,
    threshold: nat,
    sources: Seq<TrackView>,
    ids: Seq<Seq<char>>,
)
    requires
        all_from_library(pool),
    ensures
        ({
            let outcomes = run(initial(pool, playlist_name, threshold), sources, ids).1;
            &&& outcomes.len() == sources.len()
            &&& forall|i: int|
                0 <= i < outcomes.len() && #[trigger] outcomes[i] is Claimed ==> (
                outcomes[i]->mutation is Create <==> forall|j: int|
                    0 <= j < i ==> !(#[trigger] outcomes[j] is Claimed))
            &&& forall|i: int|
                0 <= i < outcomes.len() && #[trigger] outcomes[i] is Claimed ==> (
                outcomes[i]->mutation is Append <==> exists|j: int|
                    0 <= j < i && #[trigger] outcomes[j] is Claimed)
        }),
{
    let state = initial(pool, playlist_name, threshold);
    let outcomes = run(state, sources, ids).1;
    lemma_run_length(state, sources, ids);
    assert forall|i: int| 0 <= i < outcomes.len() && #[trigger] outcomes[i] is Claimed implies ((
    outcomes[i]->mutation is Create <==> forall|j: int|
        0 <= j < i ==> !(#[trigger] outcomes[j] is Claimed)) && (outcomes[i]->mutation is Append
        <==> exists|j: int| 0 <= j < i && #[trigger] outcomes[j] is Claimed)) by {
        lemma_run_at(state, sources, ids, i);
        lemma_run(state, sources.take(i), ids);
        lemma_run_prefix(state, sources, ids, i);
        let (before, earlier) = run(state, sources.take(i), ids);
        assert(earlier == outcomes.take(i));
        assert forall|j: int| 0 <= j < i implies earlier[j] == outcomes[j] by {}
        if before.playlist is Some {
            let j = choose|j: int| 0 <= j < earlier.len() && #[trigger] earlier[j] is Claimed;
            assert(outcomes[j] is Claimed);
        } else {
            assert forall|j: int| 0 <= j < i implies !(#[trigger] outcomes[j] is Claimed) by {
                assert(earlier[j] == outcomes[j]);
            }
        }
    }
}

/// In a run, of the source entries that match one and the same target item
/// only the first can claim it: each later one is reported as a duplicate
/// of the claim that stands, claims nothing and asks for no change of the
/// playlist.
pub proof fn lemma_later_match_is_duplicate(
    state: StateView,
    sources: Seq<TrackView>,
    ids: Seq<Seq<char>>,
    i: int,
    j: int,
)
    requires
        valid(state),
        0 <= i < j < sources.len(),
        found_for(state, sources[i]) is Some,
        found_for(state, sources[j]) is Some,
        item_at(state, found_for(state, sources[i])->0.index) == item_at(
            state,
            found_for(state, sources[j])->0.index,
        ),
    ensures
        run(state, sources, ids).1[j] is DuplicateLogged,
        run(state, sources, ids).1[j]->first.item_id == item_at(
            state,
            found_for(state, sources[j])->0.index,
        ),
        run(state, sources.take(j + 1), ids).0 == run(state, sources.take(j), ids).0,
{
    let earlier = sources.take(j);
    lemma_run(state, earlier, ids);
    lemma_run_at(state, sources, ids, j);
    let before = run(state, earlier, ids).0;
    assert(earlier[i] == sources[i]);
    let item_id = item_at(state, found_for(state, sources[j])->0.index);
    assert(found_for(before, sources[j]) == found_for(state, sources[j]));
    assert(claim_on(before.claims, item_id) is Some);
    lemma_least(claims_on(before.claims, item_id), before.claims.len() as int);
    let upto = sources.take(j + 1);
    assert(upto.drop_last() =~= earlier);
    assert(upto.last() == sources[j]);
}

/// In a run from a state with no claim on a target item, the first source
/// entry that matches the item claims it.
pub proof fn lemma_first_match_claims(
    state: StateView,
    sources: Seq<TrackView>,
    ids: Seq<Seq<char>>,
    i: int,
)
    requires
        valid(state),
        0 <= i < sources.len(),
        found_for(state, sources[i]) is Some,
        claim_on(state.claims, item_at(state, found_for(state, sources[i])->0.index)) is None,
        forall|k: int|
            0 <= k < i && found_for(state, #[trigger] sources[k]) is Some ==> item_at(
                state,
                found_for(state, sources[k])->0.index,
            ) != item_at(state, found_for(state, sources[i])->0.index),
    ensures
        run(state, sources, ids).1[i] is Claimed,
        run(state, sources, ids).1[i]->Claimed_result == found_for(state, sources[i])->0,
{
    let item_id = item_at(state, found_for(state, sources[i])->0.index);
    lemma_run_at(state, sources, ids, i);
    lemma_unclaimed(state, sources.take(i), ids, item_id);
    lemma_run(state, sources.take(i), ids);
}

/// An item that was free at the start of a run, and that no source entry of
/// the run matched, is free at its end.
pub proof fn lemma_unclaimed(
    state: StateView,
    sources: Seq<TrackView>,
    ids: Seq<Seq<char>>,
    item_id: Seq<char>,
)
    requires
        valid(state),
        claim_on(state.claims, item_id) is None,
        forall|k: int|
            0 <= k < sources.len() && found_for(state, #[trigger] sources[k]) is Some ==> item_at(
                state,
                found_for(state, sources[k])->0.index,
            ) != item_id,
    ensures
        claim_on(run(state, sources, ids).0.claims, item_id) is None,
    decreases sources.len(),
{
    if sources.len() > 0 {
        let shorter = sources.drop_last();
        assert forall|k: int|
            0 <= k < shorter.len() && found_for(state, #[trigger] shorter[k]) is Some implies item_at(
            state,
            found_for(state, shorter[k])->0.index,
        ) != item_id by {
            assert(shorter[k] == sources[k]);
        }
        lemma_unclaimed(state, shorter, ids, item_id);
        lemma_run(state, shorter, ids);
        let before = run(state, shorter, ids).0;
        let source = sources.last();
        assert(source == sources[sources.len() - 1]);
        assert(found_for(before, source) == found_for(state, source));
        if found_for(before, source) is Some {
            let found = found_for(before, source)->0;
            let added = ClaimView {
                item_id: item_at(before, found.index),
                source,
                target: before.pool[found.index],
            };
            assert(item_at(before, found.index) == item_at(state, found.index));
            lemma_claim_on_push(before.claims, added, item_id);
        }
    }
}

} // verus!
