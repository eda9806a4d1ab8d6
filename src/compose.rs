use vstd::prelude::*;

use crate::model::{Guideline, GuidelineSection};
use crate::text::{concat3, has_prefix, starts_with, take_chars, text_eq, truncate_chars};

verus! {

/// Ceiling, in characters, of the embedding text of a guideline with sub-sections.
pub const SECTION_TEXT_MAX_CHARS: usize = 2000;

/// Ceiling, in characters, of the embedding text of a guideline read from a source file.
pub const HEADER_TEXT_MAX_CHARS: usize = 3000;

/// Content of the first section headed exactly "Reason".
pub open spec fn first_reason(secs: Seq<GuidelineSection>) -> Option<Seq<char>>
    decreases secs.len(),
{
    if secs.len() == 0 {
        None
    } else if secs[0].heading@ == "Reason"@ {
        Some(secs[0].content@)
    } else {
        first_reason(secs.drop_first())
    }
}

/// Content of the first section whose heading begins with "Example".
pub open spec fn first_example(secs: Seq<GuidelineSection>) -> Option<Seq<char>>
    decreases secs.len(),
{
    if secs.len() == 0 {
        None
    } else if has_prefix(secs[0].heading@, "Example"@) {
        Some(secs[0].content@)
    } else {
        first_example(secs.drop_first())
    }
}

/// `". "` and `part`, where there is a part.
pub open spec fn joined_part(part: Option<Seq<char>>) -> Seq<char> {
    match part {
        Some(p) => ". "@ + p,
        None => Seq::empty(),
    }
}

/// Title, reason and first example, joined by `". "`.
pub open spec fn section_text(g: Guideline) -> Seq<char> {
    g.title@ + joined_part(first_reason(g.sections@)) + joined_part(first_example(g.sections@))
}

/// Id, title, category and full text in one line of prose.
pub open spec fn header_text(g: Guideline) -> Seq<char> {
    g.id@ + ": "@ + g.title@ + ". Category: "@ + g.category@ + ". "@ + g.raw_markdown@
}

/// The text embedded for a guideline: built from its sub-sections where it has no
/// source file, else from its header and full text; cut to a fixed ceiling.
pub open spec fn embedding_text(g: Guideline) -> Seq<char> {
    if g.source_file is None {
        take_chars(section_text(g), SECTION_TEXT_MAX_CHARS as nat)
    } else {
        take_chars(header_text(g), HEADER_TEXT_MAX_CHARS as nat)
    }
}

fn find_reason(secs: &Vec<GuidelineSection>) -> (r: Option<usize>)
    ensures
        match r {
            Some(i) => i < secs@.len() && first_reason(secs@) == Some(secs@[i as int].content@),
            None => first_reason(secs@) is None,
        },
{
    let mut i: usize = 0;
    assert(secs@.skip(0) =~= secs@);
    while i < secs.len()
        invariant
            i <= secs@.len(),
            first_reason(secs@) == first_reason(secs@.skip(i as int)),
        decreases secs@.len() - i,
    {
        assert(secs@.skip(i as int)[0] == secs@[i as int]);
        if text_eq(secs[i].heading.as_str(), "Reason") {
            return Some(i);
        }
        assert(secs@.skip(i as int).drop_first() =~= secs@.skip(i + 1));
        i += 1;
    }
    assert(secs@.skip(i as int) =~= Seq::<GuidelineSection>::empty());
    None
}

fn find_example(secs: &Vec<GuidelineSection>) -> (r: Option<usize>)
    ensures
        match r {
            Some(i) => i < secs@.len() && first_example(secs@) == Some(secs@[i as int].content@),
            None => first_example(secs@) is None,
        },
{
    let mut i: usize = 0;
    assert(secs@.skip(0) =~= secs@);
    while i < secs.len()
        invariant
            i <= secs@.len(),
            first_example(secs@) == first_example(secs@.skip(i as int)),
        decreases secs@.len() - i,
    {
        assert(secs@.skip(i as int)[0] == secs@[i as int]);
        if starts_with(secs[i].heading.as_str(), "Example") {
            return Some(i);
        }
        assert(secs@.skip(i as int).drop_first() =~= secs@.skip(i + 1));
        i += 1;
    }
    assert(secs@.skip(i as int) =~= Seq::<GuidelineSection>::empty());
    None
}

/// The text given to the embedding model for `guideline`; deterministic and bounded.
pub fn compose_embedding_text(guideline: &Guideline) -> (r: String)
    ensures
        r@ == embedding_text(*guideline),
        r@.len() <= HEADER_TEXT_MAX_CHARS,
{
    match &guideline.source_file {
        None => {
            let mut text = guideline.title.clone();
            match find_reason(&guideline.sections) {
                Some(i) => {
                    text = concat3(text.as_str(), ". ", guideline.sections[i].content.as_str());
                },
                None => {},
            }
            match find_example(&guideline.sections) {
                Some(i) => {
                    text = concat3(text.as_str(), ". ", guideline.sections[i].content.as_str());
                },
                None => {},
            }
            proof {
                let g = *guideline;
                assert(text@ =~= section_text(g));
            }
            truncate_chars(text.as_str(), SECTION_TEXT_MAX_CHARS)
        },
        Some(_) => {
            let a = concat3(guideline.id.as_str(), ": ", guideline.title.as_str());
            let b = concat3(a.as_str(), ". Category: ", guideline.category.as_str());
            let text = concat3(b.as_str(), ". ", guideline.raw_markdown.as_str());
            assert(text@ =~= header_text(*guideline));
            truncate_chars(text.as_str(), HEADER_TEXT_MAX_CHARS)
        },
    }
}

} // verus!
