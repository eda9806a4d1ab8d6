use vstd::prelude::*;

use crate::model::GuidelineResult;
use crate::text::{concat, take_chars, trim_of, trim_text, truncate_chars};

verus! {

/// Number of results of a search that names no limit.
pub const DEFAULT_LIMIT: u32 = 10;

/// Largest number of results a search returns.
pub const MAX_LIMIT: u32 = 50;

/// Length, in characters, beyond which a summary is cut.
pub const MAX_SUMMARY_LEN: usize = 300;

/// Similarity of a perfect match; similarities and distances are in millionths.
pub const SCORE_SCALE: u32 = 1_000_000;

/// One row returned by the vector index for a query.
#[derive(Debug, Clone)]
pub struct SearchRow {
    pub id: String,
    pub title: String,
    pub category: String,
    /// The indexed text of the guideline.
    pub text: String,
    /// Distance to the query in millionths; absent where the index reported none.
    pub distance: Option<u32>,
}

/// The number of results a request asks for: its limit, or the default, capped.
pub open spec fn limit_of(limit: Option<u32>) -> nat {
    let l = match limit {
        Some(l) => l,
        None => DEFAULT_LIMIT,
    };
    if l > MAX_LIMIT { MAX_LIMIT as nat } else { l as nat }
}

/// The number of results a request asks for: its limit, or the default, capped.
pub fn effective_limit(limit: Option<u32>) -> (r: usize)
    ensures
        r == limit_of(limit),
        r <= MAX_LIMIT,
{
    let l = match limit {
        Some(l) => l,
        None => DEFAULT_LIMIT,
    };
    if l > MAX_LIMIT {
        MAX_LIMIT as usize
    } else {
        l as usize
    }
}

/// The query without surrounding white space; `None` where nothing else is left.
pub fn normalize_query(query: &str) -> (r: Option<String>)
    ensures
        r is None <==> trim_of(query@).len() == 0,
        r matches Some(q) ==> q@ == trim_of(query@),
{
    let q = trim_text(query);
    if q.as_str().unicode_len() == 0 {
        None
    } else {
        Some(q)
    }
}

/// Similarity of a row at `distance`: `1 - distance`, floored at 0, in millionths.
/// A row without a distance counts as a perfect match.
pub open spec fn score_of(distance: Option<u32>) -> u32 {
    match distance {
        None => SCORE_SCALE,
        Some(d) => if d >= SCORE_SCALE { 0 } else { (SCORE_SCALE - d) as u32 },
    }
}

/// Similarity of a row at `distance`, in millionths.
pub fn similarity(distance: Option<u32>) -> (r: u32)
    ensures
        r == score_of(distance),
        r <= SCORE_SCALE,
{
    match distance {
        None => SCORE_SCALE,
        Some(d) => if d >= SCORE_SCALE { 0 } else { SCORE_SCALE - d },
    }
}

/// The summary of an indexed text: the text itself, or its first characters and "...".
pub open spec fn summary_of(text: Seq<char>) -> Seq<char> {
    if text.len() > MAX_SUMMARY_LEN {
        take_chars(text, MAX_SUMMARY_LEN as nat) + "..."@
    } else {
        text
    }
}

/// The summary of an indexed text, cut at a character boundary.
pub fn summarize(text: &str) -> (r: String)
    ensures
        r@ == summary_of(text@),
{
    if text.unicode_len() > MAX_SUMMARY_LEN {
        let head = truncate_chars(text, MAX_SUMMARY_LEN);
        concat(head.as_str(), "...")
    } else {
        text.to_owned()
    }
}

/// `r` is the result shaped from `row`.
pub open spec fn shaped_from(r: GuidelineResult, row: SearchRow) -> bool {
    &&& r.id@ == row.id@
    &&& r.title@ == row.title@
    &&& r.category@ == row.category@
    &&& r.score == score_of(row.distance)
    &&& r.summary@ == summary_of(row.text@)
}

/// Distance a row counts for when results are ranked.
pub open spec fn distance_of(row: SearchRow) -> u32 {
    match row.distance {
        Some(d) => d,
        None => 0,
    }
}

/// Rows ordered by increasing distance, as the index returns them.
pub open spec fn by_increasing_distance(rows: Seq<SearchRow>) -> bool {
    forall|i: int, j: int| 0 <= i < j < rows.len() ==> distance_of(#[trigger] rows[i]) <= distance_of(#[trigger] rows[j])
}

/// Results ordered by decreasing similarity.
pub open spec fn by_decreasing_score(results: Seq<GuidelineResult>) -> bool {
    forall|i: int, j: int| 0 <= i < j < results.len() ==> (#[trigger] results[i]).score >= (#[trigger] results[j]).score
}

/// The result shown for one row.
pub fn shape_result(row: &SearchRow) -> (r: GuidelineResult)
    ensures
        shaped_from(r, *row),
{
    GuidelineResult {
        id: row.id.clone(),
        title: row.title.clone(),
        category: row.category.clone(),
        score: similarity(row.distance),
        summary: summarize(row.text.as_str()),
    }
}

/// `results` are the first `limit` rows, each shaped.
pub open spec fn shaped_results(results: Seq<GuidelineResult>, rows: Seq<SearchRow>, limit: nat) -> bool {
    &&& results.len() == if rows.len() < limit { rows.len() } else { limit }
    &&& forall|i: int| 0 <= i < results.len() ==> shaped_from(#[trigger] results[i], rows[i])
}

/// Shapes the first `limit` rows of an index answer into search results, in order.
/// Rows that come by increasing distance give results by decreasing similarity.
pub fn extract_search_results(rows: &Vec<SearchRow>, limit: usize) -> (r: Vec<GuidelineResult>)
    ensures
        shaped_results(r@, rows@, limit as nat),
        forall|i: int| 0 <= i < r@.len() ==> (#[trigger] r@[i]).score <= SCORE_SCALE,
        by_increasing_distance(rows@) ==> by_decreasing_score(r@),
{
    let mut out: Vec<GuidelineResult> = Vec::new();
    let mut i: usize = 0;
    while i < rows.len() && i < limit
        invariant
            i <= rows@.len(),
            i <= limit,
            out@.len() == i,
            forall|k: int| 0 <= k < i ==> shaped_from(#[trigger] out@[k], rows@[k]),
        decreases rows@.len() - i,
    {
        out.push(shape_result(&rows[i]));
        i += 1;
    }
    proof {
        assert forall|k: int| 0 <= k < out@.len() implies (#[trigger] out@[k]).score <= SCORE_SCALE by {
            assert(shaped_from(out@[k], rows@[k]));
        }
        if by_increasing_distance(rows@) {
            assert forall|a: int, b: int| 0 <= a < b < out@.len() implies (#[trigger] out@[a]).score >= (#[trigger] out@[b]).score by {
                assert(shaped_from(out@[a], rows@[a]));
                assert(shaped_from(out@[b], rows@[b]));
                assert(distance_of(rows@[a]) <= distance_of(rows@[b]));
            }
        }
    }
    out
}

/// The next action of a search, which reads the cache before the vector index.
#[derive(Debug, Clone)]
pub enum SearchStep {
    /// Answer with `results`, and store them in the cache first where `write_back` holds.
    Respond { results: Vec<GuidelineResult>, write_back: bool },
    /// Nothing is cached: embed the query and ask the vector index for its nearest rows.
    QueryIndex,
}

/// What follows the cache lookup of a search: a hit is the answer as it is, a miss
/// goes to the vector index.
pub fn after_cache_lookup(cached: Option<Vec<GuidelineResult>>) -> (r: SearchStep)
    ensures
        cached is None ==> r is QueryIndex,
        cached matches Some(c) ==> (r matches SearchStep::Respond { results, write_back } && results@ == c@ && !write_back),
{
    match cached {
        Some(c) => SearchStep::Respond { results: c, write_back: false },
        None => SearchStep::QueryIndex,
    }
}

/// What follows the vector index's answer: the shaped results, to be cached and returned.
pub fn after_index_query(rows: &Vec<SearchRow>, limit: usize) -> (r: SearchStep)
    ensures
        r matches SearchStep::Respond { results, write_back } && write_back && shaped_results(results@, rows@, limit as nat)
            && (by_increasing_distance(rows@) ==> by_decreasing_score(results@)),
{
    SearchStep::Respond { results: extract_search_results(rows, limit), write_back: true }
}

} // verus!
