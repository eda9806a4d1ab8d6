use vstd::prelude::*;

use crate::error::AppError;
use crate::generation::{build_categories, categories_counted, categories_of, lemma_counts_add_up, names_view, total_count};
use crate::model::{Category, Guideline};
use crate::pattern::{group_of, lines_of, regex_accepts, split_lines, Pattern};
use crate::text::{ascii_lower, concat3, has_prefix, join_lines, joined, slice_chars, starts_with, trim_of, trim_text};

verus! {

/// Heading of a guideline: `## Title (C-ID)`.
pub const HEADING: &'static str = "^##\\s+(.+?)\\s+\\((C-[A-Z0-9-]+)\\)\\s*$";

/// Anchor line before a heading: `<a id="c-id"></a>`.
pub const ANCHOR: &'static str = "^<a id=\"([^\"]+)\"></a>\\s*$";

/// A malformed chapter file.
#[derive(Debug, Clone)]
pub struct ParseError {
    /// Line of the problem, counting from 1.
    pub line: usize,
    pub message: String,
}

/// Index of the first of `lines` that starts with `"# "`.
pub open spec fn first_title_line(lines: Seq<Seq<char>>) -> Option<int>
    decreases lines.len(),
{
    if lines.len() == 0 {
        None
    } else if has_prefix(lines[0], "# "@) {
        Some(0)
    } else {
        match first_title_line(lines.drop_first()) {
            Some(k) => Some(k + 1),
            None => None,
        }
    }
}

/// The chapter title of a file: its first `# ` line without the marker, trimmed.
pub open spec fn chapter_title(content: Seq<char>) -> Option<Seq<char>> {
    match first_title_line(lines_of(content)) {
        Some(k) => Some(trim_of(lines_of(content)[k].subrange(2, lines_of(content)[k].len() as int))),
        None => None,
    }
}

/// Guidelines of the chapter `category`, read from `source_file`.
pub open spec fn of_chapter(docs: Seq<Guideline>, category: Seq<char>, source_file: Seq<char>) -> bool {
    forall|i: int| 0 <= i < docs.len() ==> {
        &&& (#[trigger] docs[i]).category@ == category
        &&& (docs[i].source_file matches Some(f) && f@ == source_file)
    }
}

proof fn lemma_first_title_line_in_range(lines: Seq<Seq<char>>)
    ensures
        first_title_line(lines) matches Some(k) ==> 0 <= k < lines.len(),
    decreases lines.len(),
{
    if lines.len() > 0 {
        lemma_first_title_line_in_range(lines.drop_first());
    }
}

fn chapter_title_of(lines: &Vec<String>) -> (r: Option<String>)
    ensures
        match first_title_line(lines@.map_values(|l: String| l@)) {
            Some(k) => r matches Some(t) && t@ == trim_of(lines@[k]@.subrange(2, lines@[k]@.len() as int)),
            None => r is None,
        },
{
    proof { reveal_strlit("# "); }
    let ghost all = lines@.map_values(|l: String| l@);
    let mut i: usize = 0;
    assert(all.skip(0) =~= all);
    while i < lines.len()
        invariant
            i <= lines@.len(),
            all == lines@.map_values(|l: String| l@),
            first_title_line(all) == match first_title_line(all.skip(i as int)) {
                Some(k) => Some(k + i),
                None => None,
            },
        decreases lines@.len() - i,
    {
        assert(all.skip(i as int)[0] == lines@[i as int]@);
        let line = lines[i].as_str();
        if starts_with(line, "# ") {
            proof { reveal_strlit("# "); }
            let rest = slice_chars(line, 2, line.unicode_len());
            return Some(trim_text(rest.as_str()));
        }
        assert(all.skip(i as int).drop_first() =~= all.skip(i + 1));
        i += 1;
    }
    assert(all.skip(i as int) =~= Seq::<Seq<char>>::empty());
    None
}

/// Trimmed title and id of a guideline heading line.
pub open spec fn heading_parts(line: Seq<char>) -> Option<(Seq<char>, Seq<char>)> {
    match (group_of(HEADING@, line, 1), group_of(HEADING@, line, 2)) {
        (Some(title), Some(id)) => Some((trim_of(title), trim_of(id))),
        _ => None,
    }
}

/// The id named by an anchor line.
pub open spec fn anchor_of(line: Seq<char>) -> Option<Seq<char>> {
    group_of(ANCHOR@, line, 1)
}

/// ASCII lower case of each character.
pub open spec fn lower_ascii(s: Seq<char>) -> Seq<char> {
    s.map_values(|c: char| ascii_lower(c))
}

/// First line of the guideline whose heading is line `h`: the anchor line just above it, if any.
pub open spec fn entry_start(lines: Seq<Seq<char>>, h: int) -> int {
    if h > 0 && anchor_of(lines[h - 1]) is Some { h - 1 } else { h }
}

/// Reading `lines` in order: the (start, end, heading) lines of the guidelines closed
/// so far, and the (start, heading) lines of the one still open. A guideline ends at
/// the next heading, or at the anchor line just above it.
pub open spec fn scan_entries(lines: Seq<Seq<char>>) -> (Seq<(int, int, int)>, Option<(int, int)>)
    decreases lines.len(),
{
    if lines.len() == 0 {
        (Seq::empty(), None)
    } else {
        let (done, open) = scan_entries(lines.drop_last());
        let j = lines.len() - 1;
        if heading_parts(lines.last()) is Some {
            let closed = match open {
                Some((s, h)) => done.push((s, if j - 1 > h && anchor_of(lines[j - 1]) is Some { j - 1 } else { j }, h)),
                None => done,
            };
            (closed, Some((entry_start(lines, j), j)))
        } else {
            (done, open)
        }
    }
}

/// The (start, end, heading) lines of the guidelines of `lines`.
pub open spec fn entry_spans(lines: Seq<Seq<char>>) -> Seq<(int, int, int)> {
    let (done, open) = scan_entries(lines);
    match open {
        Some((s, h)) => done.push((s, lines.len() as int, h)),
        None => done,
    }
}

/// `g` is the guideline of chapter `category` spanning `lines[span.0..span.1]` with its heading at `span.2`.
pub open spec fn entry_from(g: Guideline, lines: Seq<Seq<char>>, span: (int, int, int), category: Seq<char>, source_file: Seq<char>) -> bool {
    &&& 0 <= span.0 <= span.2 < span.1 <= lines.len()
    &&& span.0 == entry_start(lines, span.2)
    &&& heading_parts(lines[span.2]) matches Some((title, id))
    &&& g.title@ == title
    &&& g.id@ == id
    &&& g.anchor@ == (if span.0 < span.2 { anchor_of(lines[span.0]).unwrap() } else { lower_ascii(id) })
    &&& g.category@ == category
    &&& (g.source_file matches Some(f) && f@ == source_file)
    &&& g.raw_markdown@ == trim_of(joined(lines.subrange(span.0, span.1)))
}

/// An open guideline: its first line, its heading line, anchor, id and title.
struct OpenEntry {
    start: usize,
    header: usize,
    anchor: String,
    id: String,
    title: String,
}

/// The guideline that an open entry becomes when it ends before line `end`.
fn close_entry(e: OpenEntry, lines: &Vec<String>, end: usize, category: &String, source_file: &str) -> (g: Guideline)
    requires
        e.start <= e.header < end <= lines@.len(),
    ensures
        g.id@ == e.id@,
        g.title@ == e.title@,
        g.anchor@ == e.anchor@,
        g.category@ == category@,
        g.source_file matches Some(f) && f@ == source_file@,
        g.raw_markdown@ == trim_of(joined(lines@.map_values(|l: String| l@).subrange(e.start as int, end as int))),
{
    let raw = join_lines(lines, e.start, end);
    assert(lines@.subrange(e.start as int, end as int).map_values(|l: String| l@)
        =~= lines@.map_values(|l: String| l@).subrange(e.start as int, end as int));
    Guideline {
        id: e.id,
        anchor: e.anchor,
        title: e.title,
        category: category.clone(),
        sections: Vec::new(),
        source_file: Some(source_file.to_owned()),
        raw_markdown: trim_text(raw.as_str()),
    }
}

/// Parses one chapter file of the Rust API guidelines: its title, then one
/// guideline per heading, with the anchor line above it where there is one (else
/// the id in lower case), up to the next guideline. A file without a title is an error.
pub fn parse_category_file(content: &str, source_file: &str) -> (r: Result<(String, Vec<Guideline>), ParseError>)
    ensures
        r is Err <==> chapter_title(content@) is None,
        r matches Err(e) ==> e.line == 1,
        r matches Ok((c, docs)) ==> {
            &&& chapter_title(content@) == Some(c@)
            &&& of_chapter(docs@, c@, source_file@)
            &&& regex_accepts(HEADING@) && regex_accepts(ANCHOR@) ==> {
                &&& docs@.len() == entry_spans(lines_of(content@)).len()
                &&& forall|k: int| 0 <= k < docs@.len() ==> entry_from(
                    #[trigger] docs@[k],
                    lines_of(content@),
                    entry_spans(lines_of(content@))[k],
                    c@,
                    source_file@,
                )
            }
        },
{
    let lines = split_lines(content);
    let ghost all = lines@.map_values(|l: String| l@);
    assert(all =~= lines_of(content@));
    let category = match chapter_title_of(&lines) {
        Some(c) => c,
        None => return Err(ParseError { line: 1, message: "missing category heading".to_owned() }),
    };
    proof {
        lemma_first_title_line_in_range(lines_of(content@));
        let k = first_title_line(lines_of(content@)).unwrap();
        assert(lines_of(content@)[k] == all[k]);
    }
    let mut guidelines: Vec<Guideline> = Vec::new();
    let heading_re = match Pattern::new(HEADING) {
        Some(p) => p,
        None => return Ok((category, guidelines)),
    };
    let anchor_re = match Pattern::new(ANCHOR) {
        Some(p) => p,
        None => return Ok((category, guidelines)),
    };
    let n = lines.len();
    let mut open: Option<OpenEntry> = None;
    let ghost mut spans: Seq<(int, int, int)> = Seq::empty();
    let mut j: usize = 0;
    assert(all.subrange(0, 0) =~= Seq::<Seq<char>>::empty());
    while j < n
        invariant
            n == lines@.len(),
            all == lines@.map_values(|l: String| l@),
            j <= n,
            heading_re.source() == HEADING@,
            anchor_re.source() == ANCHOR@,
            scan_entries(all.subrange(0, j as int)).0 == spans,
            guidelines@.len() == spans.len(),
            forall|t: int| 0 <= t < spans.len() ==> entry_from(#[trigger] guidelines@[t], all, spans[t], category@, source_file@),
            match open {
                Some(e) => {
                    &&& scan_entries(all.subrange(0, j as int)).1 == Some((e.start as int, e.header as int))
                    &&& e.start == entry_start(all, e.header as int)
                    &&& e.header < j
                    &&& heading_parts(all[e.header as int]) == Some((e.title@, e.id@))
                    &&& e.anchor@ == (if e.start < e.header { anchor_of(all[e.start as int]).unwrap() } else { lower_ascii(e.id@) })
                },
                None => scan_entries(all.subrange(0, j as int)).1 is None,
            },
        decreases n - j,
    {
        let ghost before = all.subrange(0, j as int);
        let ghost after = all.subrange(0, j + 1);
        assert(after.drop_last() =~= before);
        assert(after.last() == all[j as int]);
        let line = lines[j].as_str();
        assert(line@ == all[j as int]);
        match (heading_re.group(line, 1), heading_re.group(line, 2)) {
            (Some(raw_title), Some(raw_id)) => {
                let title = trim_text(raw_title.as_str());
                let id = trim_text(raw_id.as_str());
                let above = if j > 0 { anchor_re.group(lines[j - 1].as_str(), 1) } else { None };
                proof {
                    if j > 0 {
                        assert(lines@[j - 1]@ == all[j - 1]);
                        assert(after[j - 1] == all[j - 1]);
                    }
                }
                let ghost prev_spans = spans;
                match open {
                    Some(e) => {
                        let end = if j - 1 > e.header && above.is_some() { j - 1 } else { j };
                        let ghost span = (e.start as int, end as int, e.header as int);
                        let ghost g_start = e.start;
                        let ghost g_header = e.header;
                        let g = close_entry(e, &lines, end, &category, source_file);
                        proof {
                            spans = prev_spans.push(span);
                            assert(entry_from(g, all, span, category@, source_file@));
                        }
                        let ghost pushed_before = guidelines@;
                        guidelines.push(g);
                        proof {
                            assert forall|t: int| 0 <= t < spans.len() implies entry_from(#[trigger] guidelines@[t], all, spans[t], category@, source_file@) by {
                                if t < prev_spans.len() {
                                    assert(guidelines@[t] == pushed_before[t]);
                                    assert(spans[t] == prev_spans[t]);
                                }
                            }
                        }
                    },
                    None => {},
                }
                let (start, anchor) = match above {
                    Some(a) => (j - 1, a),
                    None => (j, ascii_lowercase(id.as_str())),
                };
                open = Some(OpenEntry { start, header: j, anchor, id, title });
            },
            _ => {},
        }
        j += 1;
    }
    match open {
        Some(e) => {
            let ghost prev_spans = spans;
            let ghost span = (e.start as int, n as int, e.header as int);
            let g = close_entry(e, &lines, n, &category, source_file);
            proof {
                spans = prev_spans.push(span);
                assert(entry_from(g, all, span, category@, source_file@));
            }
            let ghost pushed_before = guidelines@;
            guidelines.push(g);
            proof {
                assert forall|t: int| 0 <= t < spans.len() implies entry_from(#[trigger] guidelines@[t], all, spans[t], category@, source_file@) by {
                    if t < prev_spans.len() {
                        assert(guidelines@[t] == pushed_before[t]);
                        assert(spans[t] == prev_spans[t]);
                    }
                }
            }
        },
        None => {},
    }
    proof {
        assert(all.subrange(0, n as int) =~= all);
        assert forall|t: int| 0 <= t < guidelines@.len() implies {
            &&& (#[trigger] guidelines@[t]).category@ == category@
            &&& (guidelines@[t].source_file matches Some(f) && f@ == source_file@)
        } by {
            assert(entry_from(guidelines@[t], all, spans[t], category@, source_file@));
        }
    }
    Ok((category, guidelines))
}

/// ASCII lower case of `s`.
fn ascii_lowercase(s: &str) -> (r: String)
    ensures
        r@ == lower_ascii(s@),
{
    let n = s.unicode_len();
    let mut out = String::new();
    let mut i: usize = 0;
    while i < n
        invariant
            n == s@.len(),
            i <= n,
            out@ == lower_ascii(s@.subrange(0, i as int)),
        decreases n - i,
    {
        let c = s.get_char(i);
        let l = if 'A' <= c && c <= 'Z' {
            let b = c as u8;
            assert(b as u32 == c as u32);
            (b + 32) as char
        } else {
            c
        };
        crate::text::push_char(&mut out, l);
        assert(lower_ascii(s@.subrange(0, i + 1)) =~= lower_ascii(s@.subrange(0, i as int)).push(ascii_lower(c)));
        i += 1;
    }
    assert(s@.subrange(0, n as int) =~= s@);
    out
}

/// `g` is a guideline of the chapter file `file` (path, content).
pub open spec fn of_file(g: Guideline, file: (String, String)) -> bool {
    &&& chapter_title(file.1@) == Some(g.category@)
    &&& (g.source_file matches Some(f) && f@ == file.0@)
}

/// `g` is a guideline of one of the first `upto` chapter files.
pub open spec fn from_files(g: Guideline, files: Seq<(String, String)>, upto: int) -> bool {
    exists|k: int| 0 <= k < upto && of_file(g, #[trigger] files[k])
}

/// Number of guidelines of the chapter file `file`.
pub open spec fn entry_count(file: (String, String)) -> int {
    entry_spans(lines_of(file.1@)).len() as int
}

/// Number of guidelines of the first `f` chapter files.
pub open spec fn offset(files: Seq<(String, String)>, f: int) -> int
    decreases f,
{
    if f <= 0 {
        0
    } else {
        offset(files, f - 1) + entry_count(files[f - 1])
    }
}

/// `part` is exactly the guidelines that `parse_category_file` gives for `file`.
pub open spec fn entries_of_file(part: Seq<Guideline>, file: (String, String)) -> bool {
    let lines = lines_of(file.1@);
    &&& chapter_title(file.1@) is Some
    &&& part.len() == entry_spans(lines).len()
    &&& forall|k: int| 0 <= k < part.len() ==> entry_from(
        #[trigger] part[k],
        lines,
        entry_spans(lines)[k],
        chapter_title(file.1@).unwrap(),
        file.0@,
    )
}

/// `docs` are the guidelines of the first `upto` chapter files, one file after another.
pub open spec fn chapters_in_order(docs: Seq<Guideline>, files: Seq<(String, String)>, upto: int) -> bool {
    &&& docs.len() == offset(files, upto)
    &&& forall|f: int| 0 <= f < upto ==> entries_of_file(
        docs.subrange(offset(files, f), offset(files, f + 1)),
        #[trigger] files[f],
    )
}

/// The (title, title) pair of each of the first `upto` chapter files: a chapter's
/// category is named by its title.
pub open spec fn chapter_names(files: Seq<(String, String)>, upto: int) -> Seq<(Seq<char>, Seq<char>)>
    decreases upto,
{
    if upto <= 0 {
        Seq::empty()
    } else {
        let t = chapter_title(files[upto - 1].1@).unwrap();
        chapter_names(files, upto - 1).push((t, t))
    }
}

/// Parsing with both patterns accepted by the regex crate.
pub open spec fn chapter_patterns_accepted() -> bool {
    regex_accepts(HEADING@) && regex_accepts(ANCHOR@)
}

proof fn lemma_offset_monotone(files: Seq<(String, String)>, a: int, b: int)
    requires
        0 <= a <= b,
    ensures
        0 <= offset(files, a) <= offset(files, b),
    decreases b,
{
    if b > a {
        lemma_offset_monotone(files, a, b - 1);
    } else if a > 0 {
        lemma_offset_monotone(files, 0, a - 1);
    }
}

proof fn lemma_chapters_step(before: Seq<Guideline>, added: Seq<Guideline>, files: Seq<(String, String)>, f: int)
    requires
        0 <= f < files.len(),
        chapters_in_order(before, files, f),
        entries_of_file(added, files[f]),
    ensures
        chapters_in_order(before + added, files, f + 1),
{
    let g = before + added;
    assert(offset(files, f + 1) == offset(files, f) + entry_count(files[f]));
    assert forall|f2: int| 0 <= f2 < f + 1 implies entries_of_file(
        g.subrange(offset(files, f2), offset(files, f2 + 1)),
        #[trigger] files[f2],
    ) by {
        lemma_offset_monotone(files, f2, f2 + 1);
        if f2 < f {
            lemma_offset_monotone(files, f2 + 1, f);
            assert(g.subrange(offset(files, f2), offset(files, f2 + 1))
                =~= before.subrange(offset(files, f2), offset(files, f2 + 1)));
        } else {
            assert(g.subrange(offset(files, f2), offset(files, f2 + 1)) =~= added);
        }
    }
}

/// Parses the chapter files of the Rust API guidelines, given as (path, content)
/// pairs, into all their guidelines, file after file, and one category per chapter,
/// named by its title. The first file without a title ends the parse with its
/// error and its path.
pub fn parse_chapters(files: &Vec<(String, String)>) -> (r: Result<(Vec<Guideline>, Vec<Category>), AppError>)
    ensures
        r is Err <==> exists|f: int| 0 <= f < files@.len() && chapter_title((#[trigger] files@[f]).1@) is None,
        r matches Err(e) ==> e matches AppError::Parse { line, .. } && line == 1,
        r matches Ok((docs, cats)) ==> {
            &&& categories_of(cats@, docs@, chapter_names(files@, files@.len() as int))
            &&& total_count(cats@) == docs@.len()
            &&& forall|i: int| 0 <= i < docs@.len() ==> from_files(#[trigger] docs@[i], files@, files@.len() as int)
            &&& chapter_patterns_accepted() ==> chapters_in_order(docs@, files@, files@.len() as int)
        },
{
    let mut guidelines: Vec<Guideline> = Vec::new();
    let mut names: Vec<(String, String)> = Vec::new();
    let mut f: usize = 0;
    while f < files.len()
        invariant
            f <= files@.len(),
            forall|k: int| 0 <= k < f ==> chapter_title((#[trigger] files@[k]).1@) is Some,
            forall|i: int| 0 <= i < guidelines@.len() ==> from_files(#[trigger] guidelines@[i], files@, f as int),
            names_view(names@) == chapter_names(files@, f as int),
            chapter_patterns_accepted() ==> chapters_in_order(guidelines@, files@, f as int),
        decreases files@.len() - f,
    {
        let (path, content) = &files[f];
        match parse_category_file(content.as_str(), path.as_str()) {
            Err(e) => {
                return Err(AppError::Parse { line: e.line, message: concat3(e.message.as_str(), " in ", path.as_str()) });
            },
            Ok((category, mut chapter)) => {
                let ghost before = guidelines@;
                let ghost added = chapter@;
                let ghost nb = names@;
                names.push((category.clone(), category));
                assert(names_view(names@) =~= names_view(nb).push((category@, category@)));
                guidelines.append(&mut chapter);
                proof {
                    assert(guidelines@ == before + added);
                    assert forall|i: int| 0 <= i < guidelines@.len() implies from_files(#[trigger] guidelines@[i], files@, f + 1) by {
                        if i < before.len() {
                            assert(guidelines@[i] == before[i]);
                            assert(from_files(before[i], files@, f as int));
                            let k = choose|k: int| 0 <= k < f && of_file(before[i], #[trigger] files@[k]);
                            assert(of_file(guidelines@[i], files@[k]));
                        } else {
                            assert(guidelines@[i] == added[i - before.len()]);
                            assert(of_file(guidelines@[i], files@[f as int]));
                        }
                    }
                    if chapter_patterns_accepted() {
                        lemma_chapters_step(before, added, files@, f as int);
                    }
                }
            },
        }
        f += 1;
    }
    let categories = build_categories(&guidelines, &names);
    proof {
        lemma_counts_add_up(categories@, guidelines@);
    }
    Ok((guidelines, categories))
}

} // verus!
