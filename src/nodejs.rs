use vstd::prelude::*;

use crate::generation::{build_categories, categories_counted, categories_of, lemma_counts_add_up, names_view, total_count};
use crate::model::{Category, Guideline};
use crate::parser::{category_of, digits_of, extract_category, guideline_anchor, slug_of};
use crate::pattern::{captures_of, group_of, lines_of, regex_accepts, split_lines, Pattern};
use crate::text::{join_lines, joined, trim_of, trim_text};

verus! {

/// Header of a chapter: ``# `1. Project Architecture Practices` ``.
pub const CATEGORY_HEADER: &'static str = "^#\\s+`?(\\d+)\\.\\s+(.+?)`?\\s*$";

/// Header of a practice: `## ![✔] 1.1 Title`.
pub const GUIDELINE_HEADER: &'static str = "^##\\s+!\\[✔\\]\\s+(\\d+(?:\\.\\d+)+)\\s+(.+?)\\s*$";

/// Guidelines all read from `source_file`.
pub open spec fn from_file(docs: Seq<Guideline>, source_file: Seq<char>) -> bool {
    forall|i: int| 0 <= i < docs.len() ==> ((#[trigger] docs[i]).source_file matches Some(f) && f@ == source_file)
}

/// Key and trimmed name of a chapter header line.
pub open spec fn chapter_header(line: Seq<char>) -> Option<(Seq<char>, Seq<char>)> {
    match (group_of(CATEGORY_HEADER@, line, 1), group_of(CATEGORY_HEADER@, line, 2)) {
        (Some(key), Some(name)) => Some((key, trim_of(name))),
        _ => None,
    }
}

/// Trimmed id and title of a practice header line.
pub open spec fn practice_header(line: Seq<char>) -> Option<(Seq<char>, Seq<char>)> {
    match (group_of(GUIDELINE_HEADER@, line, 1), group_of(GUIDELINE_HEADER@, line, 2)) {
        (Some(id), Some(title)) => Some((trim_of(id), trim_of(title))),
        _ => None,
    }
}

/// A header of either kind, which closes the practice above it.
pub open spec fn ends_practice(line: Seq<char>) -> bool {
    captures_of(GUIDELINE_HEADER@, line) is Some || captures_of(CATEGORY_HEADER@, line) is Some
}

/// Reading `lines` in order: the spans of the practices closed so far with their
/// category, the practice still open, the chapter being read (key and name), and
/// the (key, name) pairs met so far, one per chapter header and one per practice.
pub open spec fn scan_practices(lines: Seq<Seq<char>>) -> (
    Seq<(int, int, Seq<char>)>,
    Option<(int, Seq<char>)>,
    Option<(Seq<char>, Seq<char>)>,
    Seq<(Seq<char>, Seq<char>)>,
)
    decreases lines.len(),
{
    if lines.len() == 0 {
        (Seq::empty(), None, None, Seq::empty())
    } else {
        let (done, open, chapter, names) = scan_practices(lines.drop_last());
        let j = lines.len() - 1;
        let l = lines.last();
        if open is Some && !ends_practice(l) {
            (done, open, chapter, names)
        } else {
            let closed = match open {
                Some((s, c)) => done.push((s, j, c)),
                None => done,
            };
            match chapter_header(l) {
                Some((key, name)) => (closed, None, Some((key, name)), names.push((key, name))),
                None => match practice_header(l) {
                    Some((id, _)) => {
                        let pair = match chapter {
                            Some((k, n)) => (k, n),
                            None => (category_of(id), category_of(id)),
                        };
                        (closed, Some((j, pair.0)), chapter, names.push(pair))
                    },
                    None => (closed, None, chapter, names),
                },
            }
        }
    }
}

/// The spans of the practices of `lines`, each with its category.
pub open spec fn practice_spans(lines: Seq<Seq<char>>) -> Seq<(int, int, Seq<char>)> {
    let (done, open, _, _) = scan_practices(lines);
    match open {
        Some((s, c)) => done.push((s, lines.len() as int, c)),
        None => done,
    }
}

/// `g` is the practice that spans `lines[span.0..span.1]` in category `span.2`.
pub open spec fn practice_from(g: Guideline, lines: Seq<Seq<char>>, span: (int, int, Seq<char>), source_file: Seq<char>) -> bool {
    &&& 0 <= span.0 < span.1 <= lines.len()
    &&& chapter_header(lines[span.0]) is None
    &&& practice_header(lines[span.0]) matches Some((id, title))
    &&& g.id@ == id
    &&& g.title@ == title
    &&& g.category@ == span.2
    &&& g.anchor@ == seq!['-'] + digits_of(id) + seq!['-'] + slug_of(title)
    &&& (g.source_file matches Some(f) && f@ == source_file)
    &&& g.raw_markdown@ == trim_of(joined(lines.subrange(span.0, span.1)))
}

/// Parses the Node.js best practices text into its practices and their chapters.
/// A practice starts at its header and runs up to the next header of either kind;
/// it belongs to the chapter above it, or, before any chapter, to the number
/// before the first dot of its id. A chapter is named by its first header (a
/// practice met before any chapter names its category by its own key).
pub fn parse_guidelines(content: &str, source_file: &str) -> (r: (Vec<Guideline>, Vec<Category>))
    ensures
        from_file(r.0@, source_file@),
        categories_counted(r.1@, r.0@),
        total_count(r.1@) == r.0@.len(),
        regex_accepts(CATEGORY_HEADER@) && regex_accepts(GUIDELINE_HEADER@) ==> {
            &&& categories_of(r.1@, r.0@, scan_practices(lines_of(content@)).3)
            &&& r.0@.len() == practice_spans(lines_of(content@)).len()
            &&& forall|k: int| 0 <= k < r.0@.len() ==> practice_from(
                #[trigger] r.0@[k],
                lines_of(content@),
                practice_spans(lines_of(content@))[k],
                source_file@,
            )
        },
{
    let mut guidelines: Vec<Guideline> = Vec::new();
    let mut names: Vec<(String, String)> = Vec::new();
    let category_re = match Pattern::new(CATEGORY_HEADER) {
        Some(p) => p,
        None => return (guidelines, Vec::new()),
    };
    let guideline_re = match Pattern::new(GUIDELINE_HEADER) {
        Some(p) => p,
        None => return (guidelines, Vec::new()),
    };
    let lines = split_lines(content);
    let ghost all = lines@.map_values(|l: String| l@);
    assert(all =~= lines_of(content@));
    let n = lines.len();
    let mut current: Option<(String, String)> = None;
    let ghost mut spans: Seq<(int, int, Seq<char>)> = Seq::empty();
    let mut i: usize = 0;
    assert(all.subrange(0, 0) =~= Seq::<Seq<char>>::empty());
    while i < n
        invariant
            n == lines@.len(),
            all == lines@.map_values(|l: String| l@),
            i <= n,
            category_re.source() == CATEGORY_HEADER@,
            guideline_re.source() == GUIDELINE_HEADER@,
            spans == practice_spans(all.subrange(0, i as int)),
            guidelines@.len() == spans.len(),
            forall|t: int| 0 <= t < spans.len() ==> practice_from(#[trigger] guidelines@[t], all, spans[t], source_file@),
            (scan_practices(all.subrange(0, i as int)).1 is Some && i < n) ==> ends_practice(all[i as int]),
            match current {
                Some((k, m)) => scan_practices(all.subrange(0, i as int)).2 == Some((k@, m@)),
                None => scan_practices(all.subrange(0, i as int)).2 is None,
            },
            names_view(names@) == scan_practices(all.subrange(0, i as int)).3,
        decreases n - i,
    {
        let ghost before = all.subrange(0, i as int);
        let ghost after = all.subrange(0, i + 1);
        assert(after.drop_last() =~= before);
        assert(after.last() == all[i as int]);
        let line = lines[i].as_str();
        assert(line@ == all[i as int]);
        match (category_re.group(line, 1), category_re.group(line, 2)) {
            (Some(key), Some(name)) => {
                let name = trim_text(name.as_str());
                let ghost nb = names@;
                names.push((key.clone(), name.clone()));
                assert(names_view(names@) =~= names_view(nb).push((key@, name@)));
                current = Some((key, name));
                i += 1;
            },
            _ => match (guideline_re.group(line, 1), guideline_re.group(line, 2)) {
                (Some(raw_id), Some(raw_title)) => {
                    let ghost prev_spans = spans;
                    let id = trim_text(raw_id.as_str());
                    let title = trim_text(raw_title.as_str());
                    let ghost nb = names@;
                    let category = match &current {
                        Some((key, name)) => {
                            names.push((key.clone(), name.clone()));
                            assert(names_view(names@) =~= names_view(nb).push((key@, name@)));
                            key.clone()
                        },
                        None => {
                            let key = extract_category(id.as_str());
                            names.push((key.clone(), key.clone()));
                            assert(names_view(names@) =~= names_view(nb).push((key@, key@)));
                            key
                        },
                    };
                    let start = i;
                    let mut end = i + 1;
                    assert(scan_practices(all.subrange(0, end as int)).0 == prev_spans);
                    while end < n
                        invariant
                            n == lines@.len(),
                            all == lines@.map_values(|l: String| l@),
                            start < end <= n,
                            category_re.source() == CATEGORY_HEADER@,
                            guideline_re.source() == GUIDELINE_HEADER@,
                            scan_practices(all.subrange(0, end as int)) == scan_practices(all.subrange(0, start + 1)),
                            scan_practices(all.subrange(0, start + 1)).0 == prev_spans,
                            scan_practices(all.subrange(0, start + 1)).1 == Some((start as int, category@)),
                        ensures
                            start < end <= n,
                            scan_practices(all.subrange(0, end as int)) == scan_practices(all.subrange(0, start + 1)),
                            end == n || ends_practice(all[end as int]),
                        decreases n - end,
                    {
                        let cur = lines[end].as_str();
                        assert(cur@ == all[end as int]);
                        if guideline_re.matches(cur) || category_re.matches(cur) {
                            break;
                        }
                        proof {
                            let b = all.subrange(0, end as int);
                            let a = all.subrange(0, end + 1);
                            assert(a.drop_last() =~= b);
                            assert(a.last() == all[end as int]);
                        }
                        end += 1;
                    }
                    let raw_markdown = trim_text(join_lines(&lines, start, end).as_str());
                    let anchor = guideline_anchor(id.as_str(), title.as_str());
                    let g = Guideline {
                        id,
                        anchor,
                        title,
                        category,
                        sections: Vec::new(),
                        source_file: Some(source_file.to_owned()),
                        raw_markdown,
                    };
                    proof {
                        spans = prev_spans.push((start as int, end as int, g.category@));
                        assert(lines@.subrange(start as int, end as int).map_values(|l: String| l@) =~= all.subrange(start as int, end as int));
                        assert(practice_from(g, all, (start as int, end as int, g.category@), source_file@));
                    }
                    let ghost pushed_before = guidelines@;
                    guidelines.push(g);
                    proof {
                        assert forall|t: int| 0 <= t < spans.len() implies practice_from(#[trigger] guidelines@[t], all, spans[t], source_file@) by {
                            if t < prev_spans.len() {
                                assert(guidelines@[t] == pushed_before[t]);
                                assert(spans[t] == prev_spans[t]);
                            }
                        }
                    }
                    i = end;
                },
                _ => {
                    i += 1;
                },
            },
        }
    }
    proof {
        assert(all.subrange(0, n as int) =~= all);
        assert forall|t: int| 0 <= t < guidelines@.len() implies ((#[trigger] guidelines@[t]).source_file matches Some(f) && f@ == source_file@) by {
            assert(practice_from(guidelines@[t], all, spans[t], source_file@));
        }
    }
    let categories = build_categories(&guidelines, &names);
    proof {
        lemma_counts_add_up(categories@, guidelines@);
    }
    (guidelines, categories)
}

} // verus!
