use vstd::prelude::*;

use crate::cache::{categories_key_of, category_key_of, guideline_key_of, repo_commit_key_of, GuidelineCache};
use crate::compose::{compose_embedding_text, embedding_text};
use crate::error::{AppError, CommonError};
use crate::generation::{categories_of, keeps_last_of, members, names_view, Generation};
use crate::model::{Guideline, UpdateGuidelinesResponse};
use crate::fingerprint::{decimal_chars, decimal_text};
use crate::text::{concat, concat3, text_eq};

verus! {

/// Whether a corpus at revision `current` must be re-indexed, given the revision
/// marker found in the cache and whether the vector index answered a probe.
pub open spec fn update_needed(current: Seq<char>, cached: Option<Seq<char>>, index_responds: bool) -> bool {
    !(cached == Some(current) && index_responds)
}

/// The error message of a re-index whose embedding runtime returned `got` vectors
/// for `expected` guidelines.
pub open spec fn count_mismatch_message(expected: nat, got: nat) -> Seq<char> {
    "embedding count mismatch: expected "@ + decimal_chars(expected) + ", got "@ + decimal_chars(got)
}

/// What a staleness check does once the cached revision marker has been read.
#[derive(Debug, Clone, Copy, PartialEq, Eq)]
pub enum StalenessStep {
    /// The marker is missing or names another revision: re-index.
    Reindex,
    /// The marker names the current revision: probe the vector index before deciding.
    ProbeIndex,
}

/// First half of a staleness check: compare the current revision with the marker.
pub fn staleness_step(current: &str, cached: Option<&str>) -> (r: StalenessStep)
    ensures
        (r == StalenessStep::ProbeIndex) == (cached matches Some(c) && c@ == current@),
{
    match cached {
        Some(c) => if text_eq(c, current) { StalenessStep::ProbeIndex } else { StalenessStep::Reindex },
        None => StalenessStep::Reindex,
    }
}

/// Whether a corpus at revision `current` must be re-indexed.
pub fn needs_update(current: &str, cached: Option<&str>, index_responds: bool) -> (r: bool)
    ensures
        r == update_needed(current@, match cached { Some(c) => Some(c@), None => None }, index_responds),
{
    match staleness_step(current, cached) {
        StalenessStep::Reindex => true,
        StalenessStep::ProbeIndex => !index_responds,
    }
}

/// Outcome of an update.
#[derive(Debug, Clone)]
pub struct UpdateResult {
    /// Whether a re-index took place.
    pub updated: bool,
    /// The current corpus revision.
    pub commit: String,
    /// Number of guidelines of the new generation; 0 where none was built.
    pub guideline_count: usize,
}

impl UpdateResult {
    /// The corpus was already indexed at `commit`.
    pub fn up_to_date(commit: String) -> (r: UpdateResult)
        ensures
            !r.updated,
            r.commit@ == commit@,
            r.guideline_count == 0,
    {
        UpdateResult { updated: false, commit, guideline_count: 0 }
    }

    /// The answer to the caller; where nothing was re-indexed, the count is that of
    /// the generation being served.
    pub fn response(&self, serving_count: usize) -> (r: UpdateGuidelinesResponse)
        ensures
            r.updated == self.updated,
            r.commit@ == self.commit@,
            r.guideline_count == if self.updated { self.guideline_count } else { serving_count },
    {
        UpdateGuidelinesResponse {
            updated: self.updated,
            commit: self.commit.clone(),
            guideline_count: if self.updated { self.guideline_count } else { serving_count },
        }
    }
}

/// One write to the cache during a re-index; values are serialized by whoever
/// performs the write.
#[derive(Debug, Clone)]
pub enum CacheWrite {
    /// Remove every key under the namespace.
    InvalidateAll { prefix: String },
    /// Store the guideline at `index` of the new generation.
    Guideline { key: String, index: usize },
    /// Store the category list of the new generation.
    Categories { key: String },
    /// Store the member ids of one category.
    CategoryIds { key: String, ids: Vec<String> },
    /// Store the revision marker.
    RepoCommit { key: String, commit: String },
}

/// `w` stores the member ids of the category `key` of `g` under namespace `ns`.
pub open spec fn is_member_write(w: CacheWrite, g: Generation, ns: Seq<char>, key: Seq<char>) -> bool {
    match w {
        CacheWrite::CategoryIds { key: k, ids } => {
            &&& k@ == category_key_of(ns, key)
            &&& ids@.len() == members(g.docs(), key).len()
            &&& forall|t: int| 0 <= t < ids@.len() ==> (#[trigger] ids@[t])@ == members(g.docs(), key)[t].id@
        },
        _ => false,
    }
}

/// The writes that refresh the cache for generation `g` under namespace `ns`:
/// invalidate everything, then each guideline, the category list, each
/// category's member ids, and last the revision marker.
pub open spec fn refresh_writes(w: Seq<CacheWrite>, g: Generation, ns: Seq<char>) -> bool {
    let n = g.docs().len() as int;
    let m = g.cats().len() as int;
    &&& w.len() == n + m + 3
    &&& w[0] matches CacheWrite::InvalidateAll { prefix } && prefix@ == ns
    &&& forall|i: int| 0 <= i < n ==> (#[trigger] w[1 + i] matches CacheWrite::Guideline { key, index }
        && key@ == guideline_key_of(ns, g.docs()[i].id@) && index == i)
    &&& w[n + 1] matches CacheWrite::Categories { key } && key@ == categories_key_of(ns)
    &&& forall|j: int| 0 <= j < m ==> is_member_write(#[trigger] w[n + 2 + j], g, ns, g.cats()[j].key@)
    &&& w[n + m + 2] matches CacheWrite::RepoCommit { key, commit } && key@ == repo_commit_key_of(ns) && commit@ == g.revision()
}

/// The revision marker that a sequence of writes leaves behind, if its last write sets one.
pub open spec fn marker_written(w: Seq<CacheWrite>) -> Option<Seq<char>> {
    if w.len() > 0 {
        match w.last() {
            CacheWrite::RepoCommit { commit, .. } => Some(commit@),
            _ => None,
        }
    } else {
        None
    }
}

/// A re-index in progress: the next generation and the text to embed for each of
/// its guidelines. Nothing is served from it before it is installed.
pub struct ReindexPlan {
    generation: Generation,
    texts: Vec<String>,
}

impl ReindexPlan {
    /// The generation being built.
    pub closed spec fn next(&self) -> Generation {
        self.generation
    }

    /// The texts to embed, one per guideline.
    pub closed spec fn embed_texts(&self) -> Seq<String> {
        self.texts@
    }

    /// The generation is well formed and each text is its guideline's embedding text.
    pub open spec fn wf(&self) -> bool {
        &&& self.next().wf()
        &&& self.embed_texts().len() == self.next().docs().len()
        &&& forall|i: int| 0 <= i < self.embed_texts().len()
            ==> (#[trigger] self.embed_texts()[i])@ == embedding_text(self.next().docs()[i])
    }

    /// Plans the re-index of parsed guidelines at revision `commit`.
    pub fn new(commit: String, guidelines: Vec<Guideline>, category_names: &Vec<(String, String)>) -> (r: ReindexPlan)
        ensures
            r.wf(),
            r.next().revision() == commit@,
            keeps_last_of(r.next().docs(), guidelines@),
            categories_of(r.next().cats(), r.next().docs(), names_view(category_names@)),
    {
        let generation = Generation::new(commit, guidelines, category_names);
        let docs = generation.guidelines();
        let mut texts: Vec<String> = Vec::new();
        let mut i: usize = 0;
        while i < docs.len()
            invariant
                i <= docs@.len(),
                texts@.len() == i,
                forall|k: int| 0 <= k < i ==> (#[trigger] texts@[k])@ == embedding_text(docs@[k]),
            decreases docs@.len() - i,
        {
            texts.push(compose_embedding_text(&docs[i]));
            i += 1;
        }
        ReindexPlan { generation, texts }
    }

    /// The generation being built.
    pub fn generation(&self) -> (r: &Generation)
        ensures
            *r == self.next(),
    {
        &self.generation
    }

    /// The texts to embed, one per guideline in id order.
    pub fn texts(&self) -> (r: &Vec<String>)
        ensures
            r@ == self.embed_texts(),
    {
        &self.texts
    }

    /// The one consistency check of a re-index: the embedding runtime must return
    /// exactly one vector per guideline.
    pub fn check_embedding_count(&self, vectors: usize) -> (r: Result<(), AppError>)
        ensures
            r is Ok <==> vectors == self.next().docs().len(),
            r matches Err(e) ==> e matches AppError::Common(CommonError::Embedding(m))
                && m@ == count_mismatch_message(self.next().docs().len(), vectors as nat),
    {
        let expected = self.generation.len();
        if vectors == expected {
            Ok(())
        } else {
            let head = concat3("embedding count mismatch: expected ", decimal_text(expected).as_str(), ", got ");
            let message = concat(head.as_str(), decimal_text(vectors).as_str());
            Err(AppError::Common(CommonError::Embedding(message)))
        }
    }

    /// The cache writes that publish the new generation under `cache`'s namespace.
    pub fn cache_writes(&self, cache: &GuidelineCache) -> (r: Vec<CacheWrite>)
        ensures
            refresh_writes(r@, self.next(), cache.namespace()),
    {
        let g = &self.generation;
        let docs = g.guidelines();
        let cats = g.categories();
        let ghost ns = cache.namespace();
        let mut w: Vec<CacheWrite> = Vec::new();
        w.push(CacheWrite::InvalidateAll { prefix: cache.prefix().clone() });
        let mut i: usize = 0;
        while i < docs.len()
            invariant
                i <= docs@.len(),
                docs@ == g.docs(),
                ns == cache.namespace(),
                w@.len() == 1 + i,
                w@[0] matches CacheWrite::InvalidateAll { prefix } && prefix@ == ns,
                forall|k: int| 0 <= k < i ==> (#[trigger] w@[1 + k] matches CacheWrite::Guideline { key, index }
                    && key@ == guideline_key_of(ns, g.docs()[k].id@) && index == k),
            decreases docs@.len() - i,
        {
            let ghost before = w@;
            let key = cache.guideline_key(docs[i].id.as_str());
            assert(key@ == guideline_key_of(ns, g.docs()[i as int].id@));
            w.push(CacheWrite::Guideline { key, index: i });
            proof {
                assert(w@[1 + i as int] == CacheWrite::Guideline { key, index: i });
                assert forall|k: int| 0 <= k < i + 1 implies (#[trigger] w@[1 + k] matches CacheWrite::Guideline { key, index }
                    && key@ == guideline_key_of(ns, g.docs()[k].id@) && index == k) by {
                    if k < i {
                        assert(w@[1 + k] == before[1 + k]);
                    }
                }
            }
            i += 1;
        }
        let n = docs.len();
        w.push(CacheWrite::Categories { key: cache.categories_key() });
        let mut j: usize = 0;
        while j < cats.len()
            invariant
                j <= cats@.len(),
                cats@ == g.cats(),
                ns == cache.namespace(),
                n == g.docs().len(),
                w@.len() == n + 2 + j,
                w@[0] matches CacheWrite::InvalidateAll { prefix } && prefix@ == ns,
                forall|k: int| 0 <= k < n ==> (#[trigger] w@[1 + k] matches CacheWrite::Guideline { key, index }
                    && key@ == guideline_key_of(ns, g.docs()[k].id@) && index == k),
                w@[n + 1] matches CacheWrite::Categories { key } && key@ == categories_key_of(ns),
                forall|k: int| 0 <= k < j ==> is_member_write(#[trigger] w@[n + 2 + k], *g, ns, g.cats()[k].key@),
            decreases cats@.len() - j,
        {
            let key = cache.category_key(cats[j].key.as_str());
            let ids = g.member_ids(cats[j].key.as_str());
            let ghost before = w@;
            assert(is_member_write(CacheWrite::CategoryIds { key, ids }, *g, ns, g.cats()[j as int].key@));
            w.push(CacheWrite::CategoryIds { key, ids });
            proof {
                assert forall|k: int| 0 <= k < j + 1 implies is_member_write(#[trigger] w@[n + 2 + k], *g, ns, g.cats()[k].key@) by {
                    if k < j {
                        assert(w@[n + 2 + k] == before[n + 2 + k]);
                    }
                }
            }
            j += 1;
        }
        w.push(CacheWrite::RepoCommit { key: cache.repo_commit_key(), commit: g.commit().clone() });
        w
    }

    /// The generation being built.
    pub fn into_generation(self) -> (r: Generation)
        ensures
            r == self.next(),
    {
        self.generation
    }
}

/// The generation being served. It changes only by being replaced as a whole.
pub struct ServingState {
    generation: Generation,
}

impl ServingState {
    /// The generation being served.
    pub closed spec fn current(&self) -> Generation {
        self.generation
    }

    /// Serves `generation`.
    pub fn new(generation: Generation) -> (r: ServingState)
        ensures
            r.current() == generation,
    {
        ServingState { generation }
    }

    /// The generation being served.
    pub fn generation(&self) -> (r: &Generation)
        ensures
            *r == self.current(),
    {
        &self.generation
    }

    /// Completes a re-index: where the embedding runtime returned one vector per
    /// guideline the planned generation replaces the served one, else the re-index
    /// fails and the served generation stays exactly as it was.
    pub fn install(&mut self, plan: ReindexPlan, vectors: usize) -> (r: Result<UpdateResult, AppError>)
        ensures
            r is Ok <==> vectors == plan.next().docs().len(),
            r is Err ==> *final(self) == *old(self),
            r matches Err(e) ==> e matches AppError::Common(CommonError::Embedding(m))
                && m@ == count_mismatch_message(plan.next().docs().len(), vectors as nat),
            r matches Ok(u) ==> {
                &&& final(self).current() == plan.next()
                &&& u.updated
                &&& u.commit@ == plan.next().revision()
                &&& u.guideline_count == plan.next().docs().len()
            },
    {
        match plan.check_embedding_count(vectors) {
            Err(e) => Err(e),
            Ok(()) => {
                let count = plan.generation().len();
                let commit = plan.generation().commit().clone();
                self.generation = plan.into_generation();
                Ok(UpdateResult { updated: true, commit, guideline_count: count })
            },
        }
    }
}

/// Once the writes of a re-index have been made and the vector index answers, a
/// second update at the same revision finds nothing to do.
pub proof fn lemma_update_idempotent(w: Seq<CacheWrite>, g: Generation, ns: Seq<char>)
    requires
        refresh_writes(w, g, ns),
    ensures
        marker_written(w) == Some(g.revision()),
        !update_needed(g.revision(), marker_written(w), true),
{
    assert(w.last() == w[g.docs().len() + g.cats().len() + 2int]);
}

} // verus!
