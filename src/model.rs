use vstd::prelude::*;

verus! {

/// A named sub-section of a guideline ("Reason", "Example, bad", ...).
#[derive(Debug, Clone)]
pub struct GuidelineSection {
    pub heading: String,
    pub content: String,
}

/// One indexed guideline of a corpus.
///
/// Corpora with explicit sub-sections fill `sections`; corpora made of several
/// source files name the file in `source_file`.
#[derive(Debug, Clone)]
pub struct Guideline {
    /// Stable identifier, e.g. "P.1", "C-CASE" or "1.1".
    pub id: String,
    /// Anchor of the guideline in its source text.
    pub anchor: String,
    pub title: String,
    /// Key of the category the guideline belongs to.
    pub category: String,
    pub sections: Vec<GuidelineSection>,
    pub source_file: Option<String>,
    /// Full source text of the guideline.
    pub raw_markdown: String,
}

/// A category of guidelines, derived from the guidelines of one generation.
#[derive(Debug, Clone)]
pub struct Category {
    pub key: String,
    pub display_name: String,
    pub guideline_count: usize,
}

/// One hit of a semantic search.
#[derive(Debug, Clone)]
pub struct GuidelineResult {
    pub id: String,
    pub title: String,
    pub category: String,
    /// Similarity in millionths: `SCORE_SCALE` is a perfect match, 0 the weakest.
    pub score: u32,
    /// The indexed text, cut to a bounded number of characters.
    pub summary: String,
}

/// Parameters of a search request.
#[derive(Debug, Clone)]
pub struct SearchGuidelinesParams {
    pub query: String,
    /// Maximum number of results (default 10, at most 50).
    pub limit: Option<u32>,
}

/// Parameters of a guideline lookup.
#[derive(Debug, Clone)]
pub struct GetGuidelineParams {
    pub guideline_id: String,
}

/// Parameters of a category listing.
#[derive(Debug, Clone)]
pub struct ListCategoryParams {
    pub category: String,
}

/// The full content of one guideline as returned to callers.
#[derive(Debug, Clone)]
pub struct GuidelineDetailResponse {
    pub id: String,
    pub anchor: String,
    pub title: String,
    pub category: String,
    pub raw_markdown: String,
    pub sections: Option<Vec<GuidelineSection>>,
    pub source_file: Option<String>,
}

/// A category as returned to callers.
#[derive(Debug, Clone)]
pub struct CategoryInfo {
    pub key: String,
    pub display_name: String,
    pub guideline_count: usize,
}

/// Identifier and title of one guideline.
#[derive(Debug, Clone)]
pub struct GuidelineSummary {
    pub id: String,
    pub title: String,
}

/// A category and its guidelines, sorted by id.
#[derive(Debug, Clone)]
pub struct CategoryListResponse {
    pub category: CategoryInfo,
    pub guidelines: Vec<GuidelineSummary>,
}

/// Outcome of an update request as returned to callers.
#[derive(Debug, Clone)]
pub struct UpdateGuidelinesResponse {
    pub updated: bool,
    pub commit: String,
    pub guideline_count: usize,
}

} // verus!
