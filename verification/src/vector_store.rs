//! The store of cached answers, found again by the similarity of their embeddings.
use crate::models::CachePayload;
use crate::models::PayloadView;
use crate::score;
use vstd::hash_set::StringHashSet;
use vstd::prelude::*;

verus! {

/// The most entries that the in-memory store keeps.
pub const MAX_CACHE_ENTRIES: usize = 10_000;

/// One stored answer with the embedding of its prompt. The components of an embedding are
/// kept by the bits of their single-precision representation.
pub struct StoredEntry {
    pub vector: Vec<u32>,
    pub payload: CachePayload,
}

/// What a stored entry says.
#[verifier::ext_equal]
pub struct EntryView {
    pub vector: Seq<u32>,
    pub payload: PayloadView,
}

impl View for StoredEntry {
    type V = EntryView;

    open spec fn view(&self) -> EntryView {
        EntryView { vector: self.vector@, payload: self.payload@ }
    }
}

/// What each entry of a sequence says.
pub open spec fn entry_views(entries: Seq<StoredEntry>) -> Seq<EntryView> {
    Seq::new(entries.len(), |i: int| entries[i]@)
}

/// Whether some entry is stored for a prompt digest.
pub open spec fn has_hash(entries: Seq<EntryView>, hash: Seq<char>) -> bool {
    exists|i: int| 0 <= i < entries.len() && (#[trigger] entries[i]).payload.prompt_hash == hash
}

/// Whether no two entries have the same prompt digest.
pub open spec fn hashes_differ(entries: Seq<EntryView>) -> bool {
    forall|i: int, j: int|
        0 <= i < j < entries.len() ==> (#[trigger] entries[i]).payload.prompt_hash != (
        #[trigger] entries[j]).payload.prompt_hash
}

/// The entries after one more is offered: an entry with a known digest changes nothing; a new
/// one comes last, and the oldest leaves first where the store is full.
pub open spec fn after_insert(entries: Seq<EntryView>, entry: EntryView) -> Seq<EntryView> {
    if has_hash(entries, entry.payload.prompt_hash) {
        entries
    } else if entries.len() >= MAX_CACHE_ENTRIES {
        entries.drop_first().push(entry)
    } else {
        entries.push(entry)
    }
}

/// Whether an entry can answer a request: it is for the same model, and its score reaches
/// the threshold.
pub open spec fn eligible(entry: EntryView, score: u32, model: Seq<char>, threshold: u32) -> bool {
    entry.payload.model == model && score::at_least(score, threshold)
}

/// Whether entry `i` answers a request best: it is eligible, no eligible entry scores higher,
/// and every eligible entry before it scores lower.
pub open spec fn best_entry(
    entries: Seq<EntryView>,
    scores: Seq<u32>,
    model: Seq<char>,
    threshold: u32,
    i: int,
) -> bool {
    &&& 0 <= i < entries.len()
    &&& eligible(entries[i], scores[i], model, threshold)
    &&& forall|j: int|
        #![trigger entries[j]]
        0 <= j < entries.len() && eligible(entries[j], scores[j], model, threshold)
            ==> !score::above(scores[j], scores[i]) && (j < i ==> score::above(
            scores[i],
            scores[j],
        ))
}

/// Whether no entry can answer a request.
pub open spec fn no_entry(
    entries: Seq<EntryView>,
    scores: Seq<u32>,
    model: Seq<char>,
    threshold: u32,
) -> bool {
    forall|j: int|
        #![trigger entries[j]]
        0 <= j < entries.len() ==> !eligible(entries[j], scores[j], model, threshold)
}

/// Whether some entry is stored for a prompt digest and a model.
pub open spec fn has_exact(entries: Seq<EntryView>, hash: Seq<char>, model: Seq<char>) -> bool {
    exists|i: int|
        0 <= i < entries.len() && (#[trigger] entries[i]).payload.prompt_hash == hash
            && entries[i].payload.model == model
}

/// Whether `found` is what is stored for a prompt digest and a model.
pub open spec fn exact_answer(
    entries: Seq<EntryView>,
    hash: Seq<char>,
    model: Seq<char>,
    found: Option<PayloadView>,
) -> bool {
    match found {
        Some(payload) => payload.prompt_hash == hash && payload.model == model && exists|i: int|
            0 <= i < entries.len() && (#[trigger] entries[i]).payload == payload,
        None => !has_exact(entries, hash, model),
    }
}

/// Whether `found` is the answer to a request: the payload of the best entry, and where no
/// entry is eligible, what is stored for the very digest of the prompt.
pub open spec fn answers(
    entries: Seq<EntryView>,
    scores: Seq<u32>,
    hash: Seq<char>,
    model: Seq<char>,
    threshold: u32,
    found: Option<PayloadView>,
) -> bool {
    if no_entry(entries, scores, model, threshold) {
        exact_answer(entries, hash, model, found)
    } else {
        found matches Some(payload) && exists|i: int| #[trigger]
            best_entry(entries, scores, model, threshold, i) && payload == entries[i].payload
    }
}

/// Without its first entry, a sequence has all digests but that of the first entry.
proof fn lemma_evict(entries: Seq<EntryView>)
    requires
        entries.len() > 0,
        hashes_differ(entries),
    ensures
        hashes_differ(entries.drop_first()),
        forall|hash: Seq<char>| #[trigger]
            has_hash(entries.drop_first(), hash) == (has_hash(entries, hash) && hash
                != entries[0].payload.prompt_hash),
{
    let rest = entries.drop_first();
    assert forall|hash: Seq<char>| #[trigger] has_hash(rest, hash) == (has_hash(entries, hash)
        && hash != entries[0].payload.prompt_hash) by {
        if has_hash(rest, hash) {
            let i = choose|i: int|
                0 <= i < rest.len() && (#[trigger] rest[i]).payload.prompt_hash == hash;
            assert(entries[i + 1].payload.prompt_hash == hash);
        }
        if has_hash(entries, hash) && hash != entries[0].payload.prompt_hash {
            let i = choose|i: int|
                0 <= i < entries.len() && (#[trigger] entries[i]).payload.prompt_hash == hash;
            assert(rest[i - 1].payload.prompt_hash == hash);
        }
    }
}

/// With a new entry at its end, a sequence has one digest more.
proof fn lemma_push(entries: Seq<EntryView>, entry: EntryView)
    requires
        hashes_differ(entries),
        !has_hash(entries, entry.payload.prompt_hash),
    ensures
        hashes_differ(entries.push(entry)),
        forall|hash: Seq<char>| #[trigger]
            has_hash(entries.push(entry), hash) == (has_hash(entries, hash) || hash
                == entry.payload.prompt_hash),
{
    let longer = entries.push(entry);
    assert forall|hash: Seq<char>| #[trigger] has_hash(longer, hash) == (has_hash(entries, hash)
        || hash == entry.payload.prompt_hash) by {
        if has_hash(longer, hash) {
            let i = choose|i: int|
                0 <= i < longer.len() && (#[trigger] longer[i]).payload.prompt_hash == hash;
            if i < entries.len() {
                assert(entries[i].payload.prompt_hash == hash);
            }
        }
        if has_hash(entries, hash) {
            let i = choose|i: int|
                0 <= i < entries.len() && (#[trigger] entries[i]).payload.prompt_hash == hash;
            assert(longer[i].payload.prompt_hash == hash);
        }
        if hash == entry.payload.prompt_hash {
            assert(longer[entries.len() as int].payload.prompt_hash == hash);
        }
    }
}

/// The in-memory store.
pub struct InMemoryVectorStore {
    exact_hashes: StringHashSet,
    entries: Vec<StoredEntry>,
}

impl View for InMemoryVectorStore {
    type V = Seq<EntryView>;

    closed spec fn view(&self) -> Seq<EntryView> {
        entry_views(self.entries@)
    }
}

impl InMemoryVectorStore {
    /// The store is within its limit, no digest occurs twice, and the set of digests is that
    /// of the entries.
    pub closed spec fn well_formed(&self) -> bool {
        &&& self.entries@.len() <= MAX_CACHE_ENTRIES
        &&& hashes_differ(self@)
        &&& forall|hash: Seq<char>| #[trigger]
            self.exact_hashes@.contains(hash) == has_hash(self@, hash)
    }

    /// An empty store.
    pub fn new() -> (r: Self)
        ensures
            r.well_formed(),
            r@ == Seq::<EntryView>::empty(),
    {
        InMemoryVectorStore { exact_hashes: StringHashSet::new(), entries: Vec::new() }
    }

    /// The number of entries.
    pub fn len(&self) -> (r: usize)
        ensures
            r == self@.len(),
    {
        self.entries.len()
    }

    /// Whether there is no entry.
    pub fn is_empty(&self) -> (r: bool)
        ensures
            r == (self@.len() == 0),
    {
        self.len() == 0
    }

    /// Offers an entry to the store: one with a known digest changes nothing; a new one comes
    /// last, and the oldest leaves first where the store is full.
    pub fn insert(&mut self, payload: CachePayload, vector: Vec<u32>)
        requires
            old(self).well_formed(),
        ensures
            final(self).well_formed(),
            final(self)@ == after_insert(
                old(self)@,
                (EntryView { vector: vector@, payload: payload@ }),
            ),
    {
        let ghost before = self@;
        let ghost entry = EntryView { vector: vector@, payload: payload@ };
        if self.exact_hashes.contains(payload.prompt_hash.as_str()) {
            return;
        }
        let ghost mut kept = before;
        if self.entries.len() >= MAX_CACHE_ENTRIES {
            let evicted = self.entries.remove(0);
            self.exact_hashes.remove(evicted.payload.prompt_hash.as_str());
            proof {
                lemma_evict(before);
                kept = before.drop_first();
                assert(entry_views(self.entries@) =~= kept);
            }
        }
        proof {
            lemma_push(kept, entry);
        }
        let prompt_hash = payload.prompt_hash.clone();
        self.exact_hashes.insert(prompt_hash);
        self.entries.push(StoredEntry { vector, payload });
        assert(entry_views(self.entries@) =~= kept.push(entry));
    }
}

impl Default for InMemoryVectorStore {
    fn default() -> (r: Self)
        ensures
            r.well_formed(),
            r@ == Seq::<EntryView>::empty(),
    {
        Self::new()
    }
}

/// What a found payload says.
pub open spec fn found_view(found: Option<CachePayload>) -> Option<PayloadView> {
    match found {
        Some(payload) => Some(payload@),
        None => None,
    }
}

/// Whether a similarity gives a stored embedding that score against `vector`.
pub open spec fn scored_by<F: Fn(&[u32], &[u32]) -> u32>(
    similarity: F,
    vector: &[u32],
    stored: Seq<u32>,
    score: u32,
) -> bool {
    exists|other: &[u32]| other@ == stored && #[trigger] call_ensures(
        similarity,
        (vector, other),
        score,
    )
}

/// Whether a similarity gives the entries for a model those scores against `vector`.
pub open spec fn all_scored_by<F: Fn(&[u32], &[u32]) -> u32>(
    similarity: F,
    vector: &[u32],
    entries: Seq<EntryView>,
    model: Seq<char>,
    scores: Seq<u32>,
) -> bool {
    scores.len() == entries.len() && forall|i: int|
        0 <= i < entries.len() && (#[trigger] entries[i]).payload.model == model ==> scored_by(
            similarity,
            vector,
            entries[i].vector,
            scores[i],
        )
}

impl InMemoryVectorStore {
    /// The payload that is stored for a prompt digest and a model.
    pub fn find_exact(&self, prompt_hash: &str, model: &str) -> (r: Option<CachePayload>)
        ensures
            match r {
                Some(p) => exists|i: int|
                    0 <= i < self@.len() && #[trigger] self@[i].payload == p@ && p@.prompt_hash
                        == prompt_hash@ && p@.model == model@,
                None => forall|i: int|
                    0 <= i < self@.len() ==> !((#[trigger] self@[i]).payload.prompt_hash
                        == prompt_hash@ && self@[i].payload.model == model@),
            },
    {
        let wanted_hash = prompt_hash.to_owned();
        let wanted_model = model.to_owned();
        let mut i: usize = 0;
        while i < self.entries.len()
            invariant
                i <= self.entries@.len(),
                wanted_hash@ == prompt_hash@,
                wanted_model@ == model@,
                forall|j: int|
                    0 <= j < i ==> !((#[trigger] self@[j]).payload.prompt_hash == prompt_hash@
                        && self@[j].payload.model == model@),
            decreases self.entries@.len() - i,
        {
            let payload = &self.entries[i].payload;
            assert(self@[i as int].payload == payload@);
            if payload.prompt_hash == wanted_hash && payload.model == wanted_model {
                return Some(payload.clone());
            }
            i += 1;
        }
        None
    }

    /// The payload of the entry for the model that is most similar to `vector`, where its
    /// score reaches the threshold; the oldest of several with the same score. Where no score
    /// reaches it, the payload that is stored for the very digest of the prompt.
    pub fn search<F: Fn(&[u32], &[u32]) -> u32>(
        &self,
        vector: &[u32],
        prompt_hash: &str,
        model: &str,
        threshold: u32,
        similarity: F,
    ) -> (r: Option<CachePayload>)
        requires
            forall|a: &[u32], b: &[u32]| call_requires(similarity, (a, b)),
        ensures
            exists|scores: Seq<u32>|
                all_scored_by(similarity, vector, self@, model@, scores) && #[trigger] answers(
                    self@,
                    scores,
                    prompt_hash@,
                    model@,
                    threshold,
                    found_view(r),
                ),
    {
        let ghost mut scores: Seq<u32> = Seq::empty();
        let wanted = model.to_owned();
        let mut best: Option<(u32, usize)> = None;
        let mut i: usize = 0;
        while i < self.entries.len()
            invariant
                i <= self.entries@.len(),
                wanted@ == model@,
                forall|a: &[u32], b: &[u32]| call_requires(similarity, (a, b)),
                all_scored_by(similarity, vector, self@.take(i as int), model@, scores),
                match best {
                    Some((score, k)) => k < i && scores[k as int] == score && best_entry(
                        self@.take(i as int),
                        scores,
                        model@,
                        threshold,
                        k as int,
                    ),
                    None => no_entry(self@.take(i as int), scores, model@, threshold),
                },
            decreases self.entries@.len() - i,
        {
            let entry = &self.entries[i];
            let ghost seen = self@.take(i as int);
            let ghost longer = self@.take(i + 1);
            let ghost earlier = scores;
            assert(forall|j: int| 0 <= j < i ==> #[trigger] longer[j] == seen[j]);
            if entry.payload.model == wanted {
                let score: u32 = similarity(vector, entry.vector.as_slice());
                proof {
                    assert(scored_by(similarity, vector, longer[i as int].vector, score));
                    scores = scores.push(score);
                }
                if score::ge(score, threshold) {
                    match best {
                        Some((best_score, _)) => {
                            if score::gt(score, best_score) {
                                best = Some((score, i));
                            }
                        },
                        None => {
                            best = Some((score, i));
                        },
                    }
                }
            } else {
                proof {
                    scores = scores.push(0);
                }
            }
            proof {
                assert(forall|j: int| 0 <= j < i ==> #[trigger] earlier[j] == scores[j]);
                assert(longer[i as int] == self@[i as int]);
                assert forall|j: int| 0 <= j < i && eligible(
                    #[trigger] longer[j],
                    scores[j],
                    model@,
                    threshold,
                ) implies eligible(seen[j], earlier[j], model@, threshold) by {}
            }
            i += 1;
        }
        assert(self@.take(i as int) =~= self@);
        let found = match best {
            Some((_, k)) => {
                assert(best_entry(self@, scores, model@, threshold, k as int));
                Some(self.entries[k].payload.clone())
            },
            None => self.find_exact(prompt_hash, model),
        };
        assert(answers(self@, scores, prompt_hash@, model@, threshold, found_view(found)));
        found
    }
}

impl InMemoryVectorStore {
    /// A store is never above its limit, and holds no digest twice.
    pub proof fn law_store_is_bounded(&self)
        requires
            self.well_formed(),
        ensures
            self@.len() <= MAX_CACHE_ENTRIES,
            hashes_differ(self@),
    {
    }
}

/// To offer an entry keeps the limit, and keeps the digests apart.
pub proof fn law_insert_keeps_bounds(entries: Seq<EntryView>, entry: EntryView)
    requires
        entries.len() <= MAX_CACHE_ENTRIES,
        hashes_differ(entries),
    ensures
        after_insert(entries, entry).len() <= MAX_CACHE_ENTRIES,
        hashes_differ(after_insert(entries, entry)),
        has_hash(after_insert(entries, entry), entry.payload.prompt_hash),
{
    if !has_hash(entries, entry.payload.prompt_hash) {
        if entries.len() >= MAX_CACHE_ENTRIES {
            lemma_evict(entries);
            lemma_push(entries.drop_first(), entry);
        } else {
            lemma_push(entries, entry);
        }
    }
}

/// The first answer that is stored for a digest stays: a second one for it changes nothing.
pub proof fn law_first_answer_stays(entries: Seq<EntryView>, entry: EntryView, later: EntryView)
    requires
        entries.len() <= MAX_CACHE_ENTRIES,
        hashes_differ(entries),
        later.payload.prompt_hash == entry.payload.prompt_hash,
    ensures
        after_insert(after_insert(entries, entry), later) == after_insert(entries, entry),
{
    law_insert_keeps_bounds(entries, entry);
}

/// A full store gives up its oldest entry for a new one and keeps the order of the others.
pub proof fn law_oldest_leaves(entries: Seq<EntryView>, entry: EntryView)
    requires
        entries.len() == MAX_CACHE_ENTRIES,
        !has_hash(entries, entry.payload.prompt_hash),
    ensures
        after_insert(entries, entry).len() == MAX_CACHE_ENTRIES,
        after_insert(entries, entry).last() == entry,
        forall|i: int|
            0 <= i < MAX_CACHE_ENTRIES - 1 ==> #[trigger] after_insert(entries, entry)[i]
                == entries[i + 1],
{
}

/// There is never more than one answer to a request.
pub proof fn law_answer_is_unique(
    entries: Seq<EntryView>,
    scores: Seq<u32>,
    hash: Seq<char>,
    model: Seq<char>,
    threshold: u32,
    found: Option<PayloadView>,
    also_found: Option<PayloadView>,
)
    requires
        hashes_differ(entries),
        answers(entries, scores, hash, model, threshold, found),
        answers(entries, scores, hash, model, threshold, also_found),
    ensures
        found == also_found,
{
    if !no_entry(entries, scores, model, threshold) {
        let i = choose|i: int| #[trigger]
            best_entry(entries, scores, model, threshold, i) && found->Some_0 == entries[i].payload;
        assert(eligible(entries[i], scores[i], model, threshold));
        let j = choose|j: int| #[trigger]
            best_entry(entries, scores, model, threshold, j) && also_found->Some_0
                == entries[j].payload;
        assert(eligible(entries[j], scores[j], model, threshold));
    } else if found is Some && also_found is Some {
        let i = choose|i: int|
            0 <= i < entries.len() && (#[trigger] entries[i]).payload == found->Some_0;
        let j = choose|j: int|
            0 <= j < entries.len() && (#[trigger] entries[j]).payload == also_found->Some_0;
        assert(entries[i].payload.prompt_hash == entries[j].payload.prompt_hash);
        assert(i == j);
    }
}

/// There is always an answer to a request, if only that nothing is found.
pub proof fn law_answer_exists(
    entries: Seq<EntryView>,
    scores: Seq<u32>,
    hash: Seq<char>,
    model: Seq<char>,
    threshold: u32,
)
    requires
        scores.len() == entries.len(),
    ensures
        exists|found: Option<PayloadView>| #[trigger]
            answers(entries, scores, hash, model, threshold, found),
{
    lemma_best_exists(entries, scores, model, threshold, entries.len() as int);
    let all = entries.take(entries.len() as int);
    assert(all =~= entries);
    if !no_entry(all, scores, model, threshold) {
        let i = choose|i: int| #[trigger] best_entry(all, scores, model, threshold, i);
        assert(answers(entries, scores, hash, model, threshold, Some(entries[i].payload)));
    } else if has_exact(entries, hash, model) {
        let i = choose|i: int|
            0 <= i < entries.len() && (#[trigger] entries[i]).payload.prompt_hash == hash
                && entries[i].payload.model == model;
        assert(answers(entries, scores, hash, model, threshold, Some(entries[i].payload)));
    } else {
        assert(answers(entries, scores, hash, model, threshold, None));
    }
}

/// Among the first entries one is the best, or none is eligible.
proof fn lemma_best_exists(
    entries: Seq<EntryView>,
    scores: Seq<u32>,
    model: Seq<char>,
    threshold: u32,
    n: int,
)
    requires
        scores.len() == entries.len(),
        0 <= n <= entries.len(),
    ensures
        no_entry(entries.take(n), scores, model, threshold) || exists|i: int| #[trigger]
            best_entry(entries.take(n), scores, model, threshold, i),
    decreases n,
{
    if n > 0 {
        let seen = entries.take(n - 1);
        let longer = entries.take(n);
        lemma_best_exists(entries, scores, model, threshold, n - 1);
        assert(forall|j: int| 0 <= j < n - 1 ==> #[trigger] longer[j] == seen[j]);
        if eligible(entries[n - 1], scores[n - 1], model, threshold) {
            if no_entry(seen, scores, model, threshold) {
                assert forall|j: int|
                    #![trigger longer[j]]
                    0 <= j < n - 1 implies !eligible(longer[j], scores[j], model, threshold) by {
                    assert(!eligible(seen[j], scores[j], model, threshold));
                }
                assert(best_entry(longer, scores, model, threshold, n - 1));
            } else {
                let i = choose|i: int| #[trigger] best_entry(seen, scores, model, threshold, i);
                assert(longer[i] == seen[i]);
                assert forall|j: int|
                    #![trigger longer[j]]
                    0 <= j < n - 1 && eligible(longer[j], scores[j], model, threshold) implies
                    !score::above(scores[j], scores[i]) && (j < i ==> score::above(
                    scores[i],
                    scores[j],
                )) by {
                    assert(eligible(seen[j], scores[j], model, threshold));
                }
                if score::above(scores[n - 1], scores[i]) {
                    assert(best_entry(longer, scores, model, threshold, n - 1));
                } else {
                    assert(best_entry(longer, scores, model, threshold, i));
                }
            }
        } else if no_entry(seen, scores, model, threshold) {
            assert forall|j: int|
                #![trigger longer[j]]
                0 <= j < n implies !eligible(longer[j], scores[j], model, threshold) by {
                if j < n - 1 {
                    assert(!eligible(seen[j], scores[j], model, threshold));
                }
            }
        } else {
            let i = choose|i: int| #[trigger] best_entry(seen, scores, model, threshold, i);
            assert(longer[i] == seen[i]);
            assert forall|j: int|
                #![trigger longer[j]]
                0 <= j < n && eligible(longer[j], scores[j], model, threshold) implies
                !score::above(scores[j], scores[i]) && (j < i ==> score::above(
                scores[i],
                scores[j],
            )) by {
                assert(j < n - 1);
                assert(eligible(seen[j], scores[j], model, threshold));
            }
            assert(best_entry(longer, scores, model, threshold, i));
        }
    }
}

/// What is found was stored, for the model that was asked for, and its score reaches the
/// threshold or its digest is that of the prompt.
pub proof fn law_found_was_stored(
    entries: Seq<EntryView>,
    scores: Seq<u32>,
    hash: Seq<char>,
    model: Seq<char>,
    threshold: u32,
    payload: PayloadView,
)
    requires
        answers(entries, scores, hash, model, threshold, Some(payload)),
    ensures
        payload.model == model,
        exists|i: int|
            0 <= i < entries.len() && (#[trigger] entries[i]).payload == payload && (
            score::at_least(scores[i], threshold) || payload.prompt_hash == hash),
{
    if !no_entry(entries, scores, model, threshold) {
        let i = choose|i: int| #[trigger]
            best_entry(entries, scores, model, threshold, i) && payload == entries[i].payload;
        assert(entries[i].payload == payload);
    }
}

/// An answer that is stored for a digest and a model is always found, whatever the
/// similarity: a search with that digest and model finds something, and finds just what is
/// stored for them where no entry is similar enough.
pub proof fn law_exact_is_found(
    entries: Seq<EntryView>,
    scores: Seq<u32>,
    hash: Seq<char>,
    model: Seq<char>,
    threshold: u32,
    found: Option<PayloadView>,
)
    requires
        has_exact(entries, hash, model),
        answers(entries, scores, hash, model, threshold, found),
    ensures
        found is Some,
        found->Some_0.model == model,
        no_entry(entries, scores, model, threshold) ==> found->Some_0.prompt_hash == hash,
{
    law_found_was_stored(entries, scores, hash, model, threshold, found->Some_0);
}

/// The entries after some more are offered, in that order.
pub open spec fn after_inserts(entries: Seq<EntryView>, more: Seq<EntryView>) -> Seq<EntryView>
    decreases more.len(),
{
    if more.len() == 0 {
        entries
    } else {
        after_insert(after_inserts(entries, more.drop_last()), more.last())
    }
}

/// How many of some entries are new to the store when they are offered, in that order.
pub open spec fn arrivals(entries: Seq<EntryView>, more: Seq<EntryView>) -> nat
    decreases more.len(),
{
    if more.len() == 0 {
        0
    } else {
        let before = arrivals(entries, more.drop_last());
        if has_hash(after_inserts(entries, more.drop_last()), more.last().payload.prompt_hash) {
            before
        } else {
            before + 1
        }
    }
}

/// How many of the oldest entries have left when so many new ones came.
pub open spec fn departures(entries: Seq<EntryView>, arrived: nat) -> int {
    if entries.len() + arrived <= MAX_CACHE_ENTRIES {
        0
    } else {
        entries.len() + arrived - MAX_CACHE_ENTRIES
    }
}

/// Whether an entry is still there after some more are offered: whether no more entries have
/// left than stood before it.
pub open spec fn still_there(entries: Seq<EntryView>, place: int, more: Seq<EntryView>) -> bool {
    departures(entries, arrivals(entries, more)) <= place
}

/// An entry keeps its place, but for those before it that leave, until it is the oldest in a
/// full store and a new one comes.
pub proof fn law_entry_stays(entries: Seq<EntryView>, place: int, more: Seq<EntryView>)
    requires
        entries.len() <= MAX_CACHE_ENTRIES,
        0 <= place < entries.len(),
        still_there(entries, place, more),
    ensures
        ({
            let gone = departures(entries, arrivals(entries, more));
            let stored = after_inserts(entries, more);
            &&& stored.len() == entries.len() + arrivals(entries, more) - gone
            &&& stored[place - gone] == entries[place]
            &&& has_exact(
                stored,
                entries[place].payload.prompt_hash,
                entries[place].payload.model,
            )
        }),
    decreases more.len(),
{
    let gone = departures(entries, arrivals(entries, more));
    let stored = after_inserts(entries, more);
    if more.len() > 0 {
        law_entry_stays(entries, place, more.drop_last());
    }
    assert(stored[place - gone] == entries[place]);
    assert(stored[place - gone].payload.prompt_hash == entries[place].payload.prompt_hash);
}

/// An answer that is new to the store can be asked for by its digest and model from then on,
/// while fewer new ones come than the store keeps.
pub proof fn law_stored_answer_stays(
    entries: Seq<EntryView>,
    entry: EntryView,
    more: Seq<EntryView>,
)
    requires
        entries.len() <= MAX_CACHE_ENTRIES,
        !has_hash(entries, entry.payload.prompt_hash),
        arrivals(after_insert(entries, entry), more) < MAX_CACHE_ENTRIES,
    ensures
        has_exact(
            after_inserts(after_insert(entries, entry), more),
            entry.payload.prompt_hash,
            entry.payload.model,
        ),
{
    let stored = after_insert(entries, entry);
    assert(stored[stored.len() - 1] == entry);
    law_entry_stays(stored, stored.len() - 1, more);
}

/// An answer that was just stored is found: a search for its model in which its score reaches
/// the threshold finds something, and finds this very answer where it scores above every
/// other entry that could answer. The one condition is that no entry had its digest before.
pub proof fn law_stored_answer_is_found(
    entries: Seq<EntryView>,
    entry: EntryView,
    scores: Seq<u32>,
    hash: Seq<char>,
    threshold: u32,
    found: Option<PayloadView>,
)
    requires
        !has_hash(entries, entry.payload.prompt_hash),
        scores.len() == after_insert(entries, entry).len(),
        score::at_least(scores.last(), threshold),
        answers(
            after_insert(entries, entry),
            scores,
            hash,
            entry.payload.model,
            threshold,
            found,
        ),
    ensures
        found is Some,
        (forall|j: int|
            #![trigger after_insert(entries, entry)[j]]
            0 <= j < scores.len() - 1 && eligible(
                after_insert(entries, entry)[j],
                scores[j],
                entry.payload.model,
                threshold,
            ) ==> score::above(scores.last(), scores[j])) ==> found == Some(entry.payload),
{
    let stored = after_insert(entries, entry);
    let model = entry.payload.model;
    let last = stored.len() - 1;
    assert(stored[last] == entry);
    assert(eligible(stored[last], scores[last], model, threshold));
    if found is Some {
        let i = choose|i: int| #[trigger]
            best_entry(stored, scores, model, threshold, i) && found->Some_0 == stored[i].payload;
        assert(eligible(stored[i], scores[i], model, threshold));
    }
}

/// Nothing that is stored for another model is ever found, however similar it is.
pub proof fn law_models_are_apart(
    entries: Seq<EntryView>,
    scores: Seq<u32>,
    hash: Seq<char>,
    model: Seq<char>,
    threshold: u32,
)
    requires
        forall|i: int| 0 <= i < entries.len() ==> (#[trigger] entries[i]).payload.model != model,
    ensures
        answers(entries, scores, hash, model, threshold, None),
{
}

/// A new entry is stored as it was offered, payload and embedding, at the end; the entries
/// before it stay as they are and where they are, but for the oldest, which leaves where the
/// store is full. An entry whose digest is known changes nothing.
pub proof fn law_new_entry_is_stored_whole(entries: Seq<EntryView>, entry: EntryView)
    ensures
        has_hash(entries, entry.payload.prompt_hash) ==> after_insert(entries, entry) == entries,
        !has_hash(entries, entry.payload.prompt_hash) ==> {
            let stored = after_insert(entries, entry);
            &&& stored.len() > 0
            &&& stored.last().vector == entry.vector
            &&& stored.last().payload == entry.payload
            &&& entries.len() < 10_000 ==> stored.take(stored.len() - 1) == entries
            &&& entries.len() >= 10_000 ==> stored.take(stored.len() - 1) == entries.skip(1)
        },
{
    if !has_hash(entries, entry.payload.prompt_hash) {
        let stored = after_insert(entries, entry);
        if entries.len() < 10_000 {
            assert(stored.take(stored.len() - 1) =~= entries);
        } else {
            assert(stored.take(stored.len() - 1) =~= entries.skip(1));
        }
    }
}

/// A digest is known exactly where some entry has it, and an answer for a digest and a model
/// is stored exactly where some entry has both.
pub proof fn law_known_by_the_entries(
    entries: Seq<EntryView>,
    hash: Seq<char>,
    model: Seq<char>,
)
    ensures
        has_hash(entries, hash) <==> exists|i: int|
            0 <= i < entries.len() && (#[trigger] entries[i]).payload.prompt_hash == hash,
        has_exact(entries, hash, model) <==> exists|i: int|
            0 <= i < entries.len() && (#[trigger] entries[i]).payload.prompt_hash == hash
                && entries[i].payload.model == model,
{
}

/// What is found is the payload of a stored entry for the model whose score reaches the
/// threshold, is not below that of any other such entry, and is above that of every earlier
/// one. Only where no entry for the model reaches the threshold is it one with the very digest
/// and model; and only where there is none of these either is nothing found.
pub proof fn law_best_answer_is_found(
    entries: Seq<EntryView>,
    scores: Seq<u32>,
    hash: Seq<char>,
    model: Seq<char>,
    threshold: u32,
    found: Option<PayloadView>,
)
    requires
        scores.len() == entries.len(),
        answers(entries, scores, hash, model, threshold, found),
    ensures
        found is Some ==> exists|i: int|
            {
                &&& 0 <= i < entries.len()
                &&& (#[trigger] entries[i]).payload == found->Some_0
                &&& entries[i].payload.model == model
                &&& if score::at_least(scores[i], threshold) {
                    forall|j: int|
                        #![trigger entries[j]]
                        0 <= j < entries.len() && entries[j].payload.model == model
                            && score::at_least(scores[j], threshold) ==> score::at_least(
                            scores[i],
                            scores[j],
                        ) && (j < i ==> score::above(scores[i], scores[j]))
                } else {
                    &&& entries[i].payload.prompt_hash == hash
                    &&& forall|j: int|
                        #![trigger entries[j]]
                        0 <= j < entries.len() && entries[j].payload.model == model
                            ==> !score::at_least(scores[j], threshold)
                }
            },
        found is None ==> forall|j: int|
            #![trigger entries[j]]
            0 <= j < entries.len() && entries[j].payload.model == model ==> !score::at_least(
                scores[j],
                threshold,
            ) && entries[j].payload.prompt_hash != hash,
{
    if no_entry(entries, scores, model, threshold) {
        if found is Some {
            let i = choose|i: int|
                0 <= i < entries.len() && (#[trigger] entries[i]).payload == found->Some_0;
            assert(!eligible(entries[i], scores[i], model, threshold));
            assert forall|j: int|
                #![trigger entries[j]]
                0 <= j < entries.len() && entries[j].payload.model == model implies
                !score::at_least(scores[j], threshold) by {
                assert(!eligible(entries[j], scores[j], model, threshold));
            }
        } else {
            assert forall|j: int|
                #![trigger entries[j]]
                0 <= j < entries.len() && entries[j].payload.model == model implies
                !score::at_least(scores[j], threshold) && entries[j].payload.prompt_hash
                != hash by {
                assert(!eligible(entries[j], scores[j], model, threshold));
            }
        }
    } else {
        let i = choose|i: int| #[trigger]
            best_entry(entries, scores, model, threshold, i) && found->Some_0 == entries[i].payload;
        assert(eligible(entries[i], scores[i], model, threshold));
        assert forall|j: int|
            #![trigger entries[j]]
            0 <= j < entries.len() && entries[j].payload.model == model && score::at_least(
                scores[j],
                threshold,
            ) implies score::at_least(scores[i], scores[j]) && (j < i ==> score::above(
            scores[i],
            scores[j],
        )) by {
            assert(eligible(entries[j], scores[j], model, threshold));
        }
    }
}

/// What is stored for a digest and a model is asked for by just these two.
pub proof fn law_exact_answer_has_both(
    entries: Seq<EntryView>,
    hash: Seq<char>,
    model: Seq<char>,
    found: Option<PayloadView>,
)
    requires
        exact_answer(entries, hash, model, found),
    ensures
        found is Some ==> found->Some_0.prompt_hash == hash && found->Some_0.model == model
            && exists|i: int|
            0 <= i < entries.len() && (#[trigger] entries[i]).payload == found->Some_0,
        found is None ==> forall|i: int|
            0 <= i < entries.len() && (#[trigger] entries[i]).payload.prompt_hash == hash
                ==> entries[i].payload.model != model,
{
}

/// A score is what the similarity gives for the whole embedding that was asked for and the
/// whole embedding that is stored.
pub proof fn law_scores_are_those_of_the_embeddings<F: Fn(&[u32], &[u32]) -> u32>(
    similarity: F,
    vector: &[u32],
    entries: Seq<EntryView>,
    model: Seq<char>,
    scores: Seq<u32>,
    i: int,
)
    requires
        all_scored_by(similarity, vector, entries, model, scores),
        0 <= i < entries.len(),
        entries[i].payload.model == model,
    ensures
        scores.len() == entries.len(),
        exists|other: &[u32]|
            other@ == entries[i].vector && #[trigger] call_ensures(
                similarity,
                (vector, other),
                scores[i],
            ),
{
    assert(scored_by(similarity, vector, entries[i].vector, scores[i]));
}

/// Entries say what their fields hold, each in its place, and so does what is found.
pub proof fn law_entries_say(entries: Seq<StoredEntry>, found: Option<CachePayload>)
    ensures
        entry_views(entries).len() == entries.len(),
        forall|i: int|
            0 <= i < entries.len() ==> (#[trigger] entry_views(entries)[i]).vector
                == entries[i].vector@ && entry_views(entries)[i].payload == entries[i].payload@,
        found is Some ==> found_view(found) == Some(found->Some_0@),
        found is None ==> found_view(found) is None,
{
}

/// Entries are offered one after another.
pub proof fn law_inserts_in_order(
    entries: Seq<EntryView>,
    more: Seq<EntryView>,
    entry: EntryView,
)
    ensures
        after_inserts(entries, Seq::empty()) == entries,
        after_inserts(entries, more.push(entry)) == after_insert(
            after_inserts(entries, more),
            entry,
        ),
{
    assert(more.push(entry).drop_last() =~= more);
}

/// An answer that was stored is found for its own embedding where that scores highest, also
/// for a prompt with another digest: the score is that of the very embedding which was
/// offered.
pub proof fn law_semantic_hit<F: Fn(&[u32], &[u32]) -> u32>(
    similarity: F,
    vector: &[u32],
    entries: Seq<EntryView>,
    entry: EntryView,
    scores: Seq<u32>,
    hash: Seq<char>,
    threshold: u32,
    found: Option<PayloadView>,
)
    requires
        !has_hash(entries, entry.payload.prompt_hash),
        all_scored_by(
            similarity,
            vector,
            after_insert(entries, entry),
            entry.payload.model,
            scores,
        ),
        forall|other: &[u32], score: u32|
            other@ == entry.vector && #[trigger] call_ensures(similarity, (vector, other), score)
                ==> score::at_least(score, threshold),
        answers(
            after_insert(entries, entry),
            scores,
            hash,
            entry.payload.model,
            threshold,
            found,
        ),
    ensures
        found is Some,
        found->Some_0.model == entry.payload.model,
{
    let stored = after_insert(entries, entry);
    law_new_entry_is_stored_whole(entries, entry);
    law_scores_are_those_of_the_embeddings(
        similarity,
        vector,
        stored,
        entry.payload.model,
        scores,
        stored.len() - 1,
    );
    assert(score::at_least(scores.last(), threshold));
    law_stored_answer_is_found(entries, entry, scores, hash, threshold, found);
    law_found_was_stored(
        stored,
        scores,
        hash,
        entry.payload.model,
        threshold,
        found->Some_0,
    );
}

}
