use vstd::prelude::*;

use crate::error::AppError;
use crate::generation::Generation;
use crate::model::{Guideline, GuidelineDetailResponse, GuidelineSection};
use crate::text::eq_ignore_case;

verus! {

/// `out` holds the same headings and contents as `secs`, in order.
pub open spec fn same_sections(out: Seq<GuidelineSection>, secs: Seq<GuidelineSection>) -> bool {
    &&& out.len() == secs.len()
    &&& forall|i: int| 0 <= i < out.len() ==> {
        &&& (#[trigger] out[i]).heading@ == secs[i].heading@
        &&& out[i].content@ == secs[i].content@
    }
}

/// `r` shows `g` to callers: sub-sections for a corpus that has them, the source
/// file for a corpus read from several files.
pub open spec fn detail_of(r: GuidelineDetailResponse, g: Guideline) -> bool {
    &&& r.id@ == g.id@
    &&& r.anchor@ == g.anchor@
    &&& r.title@ == g.title@
    &&& r.category@ == g.category@
    &&& r.raw_markdown@ == g.raw_markdown@
    &&& match g.source_file {
        None => r.source_file is None && (r.sections matches Some(s) && same_sections(s@, g.sections@)),
        Some(f) => r.sections is None && (r.source_file matches Some(rf) && rf@ == f@),
    }
}

fn copy_sections(secs: &Vec<GuidelineSection>) -> (r: Vec<GuidelineSection>)
    ensures
        same_sections(r@, secs@),
{
    let mut out: Vec<GuidelineSection> = Vec::new();
    let mut i: usize = 0;
    while i < secs.len()
        invariant
            i <= secs@.len(),
            out@.len() == i,
            forall|k: int| 0 <= k < i ==> {
                &&& (#[trigger] out@[k]).heading@ == secs@[k].heading@
                &&& out@[k].content@ == secs@[k].content@
            },
        decreases secs@.len() - i,
    {
        out.push(GuidelineSection { heading: secs[i].heading.clone(), content: secs[i].content.clone() });
        i += 1;
    }
    out
}

/// The full content of `guideline` as shown to callers.
pub fn to_api_guideline(guideline: &Guideline) -> (r: GuidelineDetailResponse)
    ensures
        detail_of(r, *guideline),
{
    let (sections, source_file) = match &guideline.source_file {
        None => (Some(copy_sections(&guideline.sections)), None),
        Some(f) => (None, Some(f.clone())),
    };
    GuidelineDetailResponse {
        id: guideline.id.clone(),
        anchor: guideline.anchor.clone(),
        title: guideline.title.clone(),
        category: guideline.category.clone(),
        raw_markdown: guideline.raw_markdown.clone(),
        sections,
        source_file,
    }
}

/// A guideline lookup: the cached copy where the cache had one, else the guideline
/// of the served generation whose id matches `id` up to ASCII case, else `NotFound`.
/// The vector index is never consulted.
pub fn resolve_guideline(cached: Option<Guideline>, generation: &Generation, id: &str) -> (r: Result<
    GuidelineDetailResponse,
    AppError,
>)
    ensures
        match cached {
            Some(c) => r matches Ok(d) && detail_of(d, c),
            None => {
                &&& r is Err <==> forall|k: int| 0 <= k < generation.docs().len()
                    ==> !eq_ignore_case(#[trigger] generation.docs()[k].id@, id@)
                &&& r matches Err(e) ==> e matches AppError::NotFound(m) && m@ == id@
                &&& r matches Ok(d) ==> exists|i: int| 0 <= i < generation.docs().len()
                    && eq_ignore_case(generation.docs()[i].id@, id@)
                    && (forall|k: int| 0 <= k < i ==> !eq_ignore_case(#[trigger] generation.docs()[k].id@, id@))
                    && detail_of(d, generation.docs()[i])
            },
        },
{
    match cached {
        Some(c) => Ok(to_api_guideline(&c)),
        None => match generation.find_guideline(id) {
            Some(g) => Ok(to_api_guideline(g)),
            None => Err(AppError::NotFound(id.to_owned())),
        },
    }
}

/// At most one re-index runs at a time: a trigger that finds one running is dropped.
pub struct ReindexGuard {
    running: bool,
}

impl ReindexGuard {
    /// Whether a re-index is running.
    pub closed spec fn busy(&self) -> bool {
        self.running
    }

    /// No re-index running.
    pub fn new() -> (r: ReindexGuard)
        ensures
            !r.busy(),
    {
        ReindexGuard { running: false }
    }

    /// Claims the right to re-index; `false` where a re-index is already running.
    pub fn try_begin(&mut self) -> (r: bool)
        ensures
            r == !old(self).busy(),
            final(self).busy(),
    {
        if self.running {
            false
        } else {
            self.running = true;
            true
        }
    }

    /// Releases the right to re-index.
    pub fn finish(&mut self)
        ensures
            !final(self).busy(),
    {
        self.running = false;
    }
}

} // verus!
