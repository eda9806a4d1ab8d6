use vstd::prelude::*;

use crate::generation::{build_categories, categories_counted, categories_of, lemma_counts_add_up, names_view, total_count};
use crate::model::{Category, Guideline, GuidelineSection};
use crate::pattern::{captures_of, group_of, lines_of, regex_accepts, split_lines, Pattern};
use crate::text::{
    ascii_lower, find_text, first_occurrence, has_prefix, join_lines, joined, push_char, slice_chars, starts_with,
    trim_of, trim_text,
};

verus! {

/// The part of a rule id before its first `.`, or the whole id where it has none.
pub open spec fn category_of(id: Seq<char>) -> Seq<char>
    decreases id.len(),
{
    if id.len() == 0 || id[0] == '.' {
        Seq::empty()
    } else {
        seq![id[0]] + category_of(id.drop_first())
    }
}

/// Category key of a rule id: "SL.con.1" is in "SL", "P.1" in "P".
pub fn extract_category(rule_id: &str) -> (r: String)
    ensures
        r@ == category_of(rule_id@),
{
    let n = rule_id.unicode_len();
    let mut i: usize = 0;
    assert(rule_id@.skip(0) =~= rule_id@);
    assert(rule_id@.subrange(0, 0) + category_of(rule_id@) =~= category_of(rule_id@));
    while i < n
        invariant
            n == rule_id@.len(),
            i <= n,
            forall|k: int| 0 <= k < i ==> rule_id@[k] != '.',
            category_of(rule_id@) == rule_id@.subrange(0, i as int) + category_of(rule_id@.skip(i as int)),
        decreases n - i,
    {
        assert(rule_id@.skip(i as int)[0] == rule_id@[i as int]);
        if rule_id.get_char(i) == '.' {
            assert(category_of(rule_id@.skip(i as int)) =~= Seq::<char>::empty());
            assert(rule_id@.subrange(0, i as int) + Seq::<char>::empty() =~= rule_id@.subrange(0, i as int));
            return rule_id.substring_char(0, i).to_owned();
        }
        assert(rule_id@.skip(i as int).drop_first() =~= rule_id@.skip(i + 1));
        assert(rule_id@.subrange(0, i + 1) =~= rule_id@.subrange(0, i as int) + seq![rule_id@[i as int]]);
        i += 1;
    }
    assert(rule_id@.skip(n as int) =~= Seq::<char>::empty());
    assert(rule_id@.subrange(0, n as int) + Seq::<char>::empty() =~= rule_id@);
    rule_id.to_owned()
}

/// ASCII letter or digit.
pub open spec fn is_ascii_alnum(c: char) -> bool {
    ('a' <= c && c <= 'z') || ('A' <= c && c <= 'Z') || ('0' <= c && c <= '9')
}

/// The slug of `s` before its ends are trimmed, and whether it ends in a dash:
/// letters and digits lower-cased, every run of other characters one `-`.
pub open spec fn slug_state(s: Seq<char>) -> (Seq<char>, bool)
    decreases s.len(),
{
    if s.len() == 0 {
        (Seq::empty(), false)
    } else {
        let (out, dash) = slug_state(s.drop_last());
        let c = ascii_lower(s.last());
        if is_ascii_alnum(c) {
            (out.push(c), false)
        } else if !dash {
            (out.push('-'), true)
        } else {
            (out, dash)
        }
    }
}

/// `s` without leading dashes.
pub open spec fn trim_dash_start(s: Seq<char>) -> Seq<char>
    decreases s.len(),
{
    if s.len() > 0 && s[0] == '-' {
        trim_dash_start(s.drop_first())
    } else {
        s
    }
}

/// `s` without trailing dashes.
pub open spec fn trim_dash_end(s: Seq<char>) -> Seq<char>
    decreases s.len(),
{
    if s.len() > 0 && s.last() == '-' {
        trim_dash_end(s.drop_last())
    } else {
        s
    }
}

/// URL slug of a heading, as used for anchors.
pub open spec fn slug_of(s: Seq<char>) -> Seq<char> {
    trim_dash_end(trim_dash_start(slug_state(s).0))
}

fn ascii_lower_char(c: char) -> (r: char)
    ensures
        r == ascii_lower(c),
{
    if 'A' <= c && c <= 'Z' {
        let b = c as u8;
        assert(b as u32 == c as u32);
        (b + 32) as char
    } else {
        c
    }
}

fn drop_dash_start(s: &str) -> (r: String)
    ensures
        r@ == trim_dash_start(s@),
{
    let n = s.unicode_len();
    let mut i: usize = 0;
    assert(s@.skip(0) =~= s@);
    while i < n && s.get_char(i) == '-'
        invariant
            n == s@.len(),
            i <= n,
            trim_dash_start(s@) == trim_dash_start(s@.skip(i as int)),
        decreases n - i,
    {
        assert(s@.skip(i as int).drop_first() =~= s@.skip(i + 1));
        i += 1;
    }
    assert(s@.subrange(i as int, n as int) =~= s@.skip(i as int));
    s.substring_char(i, n).to_owned()
}

fn drop_dash_end(s: &str) -> (r: String)
    ensures
        r@ == trim_dash_end(s@),
{
    let n = s.unicode_len();
    let mut j: usize = n;
    assert(s@.subrange(0, n as int) =~= s@);
    while j > 0 && s.get_char(j - 1) == '-'
        invariant
            n == s@.len(),
            j <= n,
            trim_dash_end(s@) == trim_dash_end(s@.subrange(0, j as int)),
        decreases j,
    {
        assert(s@.subrange(0, j as int).drop_last() =~= s@.subrange(0, j - 1));
        j -= 1;
    }
    s.substring_char(0, j).to_owned()
}

/// URL slug of a heading: lower-case letters and digits, single dashes between words.
pub fn slugify(s: &str) -> (r: String)
    ensures
        r@ == slug_of(s@),
{
    let n = s.unicode_len();
    let mut out = String::new();
    let mut last_dash = false;
    let mut i: usize = 0;
    while i < n
        invariant
            n == s@.len(),
            i <= n,
            slug_state(s@.subrange(0, i as int)) == (out@, last_dash),
        decreases n - i,
    {
        assert(s@.subrange(0, i + 1).drop_last() =~= s@.subrange(0, i as int));
        let lc = ascii_lower_char(s.get_char(i));
        if ('a' <= lc && lc <= 'z') || ('A' <= lc && lc <= 'Z') || ('0' <= lc && lc <= '9') {
            push_char(&mut out, lc);
            last_dash = false;
        } else if !last_dash {
            push_char(&mut out, '-');
            last_dash = true;
        }
        i += 1;
    }
    assert(s@.subrange(0, n as int) =~= s@);
    let head = drop_dash_start(out.as_str());
    drop_dash_end(head.as_str())
}

/// The ASCII digits of `s`, in order.
pub open spec fn digits_of(s: Seq<char>) -> Seq<char>
    decreases s.len(),
{
    if s.len() == 0 {
        Seq::empty()
    } else if '0' <= s.last() && s.last() <= '9' {
        digits_of(s.drop_last()).push(s.last())
    } else {
        digits_of(s.drop_last())
    }
}

/// Anchor of a numbered guideline: `-`, the digits of its id, `-`, the slug of its title.
pub fn guideline_anchor(id: &str, title: &str) -> (r: String)
    ensures
        r@ == seq!['-'] + digits_of(id@) + seq!['-'] + slug_of(title@),
{
    let n = id.unicode_len();
    let mut out = String::new();
    push_char(&mut out, '-');
    let mut i: usize = 0;
    while i < n
        invariant
            n == id@.len(),
            i <= n,
            out@ == seq!['-'] + digits_of(id@.subrange(0, i as int)),
        decreases n - i,
    {
        assert(id@.subrange(0, i + 1).drop_last() =~= id@.subrange(0, i as int));
        let c = id.get_char(i);
        if '0' <= c && c <= '9' {
            push_char(&mut out, c);
        }
        i += 1;
    }
    assert(id@.subrange(0, n as int) =~= id@);
    push_char(&mut out, '-');
    let slug = slugify(title);
    crate::text::concat(out.as_str(), slug.as_str())
}

/// Guidelines whose ids are non-empty and whose category is the prefix of their id.
pub open spec fn keyed_by_id(docs: Seq<Guideline>) -> bool {
    forall|i: int| 0 <= i < docs.len() ==> {
        &&& (#[trigger] docs[i]).id@.len() > 0
        &&& docs[i].category@ == category_of(docs[i].id@)
        &&& docs[i].source_file is None
    }
}

/// Header of a rule: `### <a name="ANCHOR"></a>ID: Title`.
pub const CPP_RULE_HEADER: &'static str = "^### <a name=\"([^\"]+)\">\\s*</a>\\s*(.+)$";

/// Header of a category: `# <a name="..."></a>PREFIX: Name`.
pub const CPP_CATEGORY_HEADER: &'static str = "^# <a name=\"[^\"]+\">\\s*</a>\\s*(\\S+):\\s+(.+)$";

/// Header of a sub-section of a rule: `##### Heading`.
pub const CPP_SECTION_HEADER: &'static str = "^##### (.+)$";

/// A heading of level one to three, which ends a rule.
pub const CPP_ANY_HEADING: &'static str = "^#{1,3} ";

/// Id and title of `ID: Title` (or `ID:Title`), split at the first colon and trimmed.
pub open spec fn rule_parts(rest: Seq<char>) -> Option<(Seq<char>, Seq<char>)> {
    match first_occurrence(rest, ": "@) {
        Some(p) => Some((trim_of(rest.subrange(0, p)), trim_of(rest.subrange(p + 2, rest.len() as int)))),
        None => match first_occurrence(rest, ":"@) {
            Some(p) => Some((trim_of(rest.subrange(0, p)), trim_of(rest.subrange(p + 1, rest.len() as int)))),
            None => None,
        },
    }
}

/// Anchor, id and title of a rule header line with a non-empty id.
pub open spec fn rule_header(line: Seq<char>) -> Option<(Seq<char>, Seq<char>, Seq<char>)> {
    match (group_of(CPP_RULE_HEADER@, line, 1), group_of(CPP_RULE_HEADER@, line, 2)) {
        (Some(anchor), Some(rest)) => match rule_parts(rest) {
            Some((id, title)) => if id.len() > 0 { Some((anchor, id, title)) } else { None },
            None => None,
        },
        _ => None,
    }
}

/// A heading of level one to three, which closes the rule above it.
pub open spec fn ends_rule(line: Seq<char>) -> bool {
    &&& captures_of(CPP_ANY_HEADING@, line) is Some
    &&& !has_prefix(line, "##### "@)
    &&& !has_prefix(line, "###### "@)
}

/// The (prefix, name) pairs of the category headers of `lines`, the last header first.
pub open spec fn category_headers(lines: Seq<Seq<char>>) -> Seq<(Seq<char>, Seq<char>)>
    decreases lines.len(),
{
    if lines.len() == 0 {
        Seq::empty()
    } else {
        let rest = category_headers(lines.drop_last());
        match (group_of(CPP_CATEGORY_HEADER@, lines.last(), 1), group_of(CPP_CATEGORY_HEADER@, lines.last(), 2)) {
            (Some(prefix), Some(name)) => seq![(prefix, name)] + rest,
            _ => rest,
        }
    }
}

/// Reading `lines` in order: the line spans of the rules closed so far, and the
/// first line of the rule still open, if any.
pub open spec fn scan_rules(lines: Seq<Seq<char>>) -> (Seq<(int, int)>, Option<int>)
    decreases lines.len(),
{
    if lines.len() == 0 {
        (Seq::empty(), None)
    } else {
        let (done, open) = scan_rules(lines.drop_last());
        let j = lines.len() - 1;
        if open is Some && !ends_rule(lines.last()) {
            (done, open)
        } else {
            let closed = match open {
                Some(s) => done.push((s, j)),
                None => done,
            };
            (closed, if rule_header(lines.last()) is Some { Some(j) } else { None })
        }
    }
}

/// The line spans of the rules of `lines`: each starts at a rule header and runs up
/// to the next heading of level one to three, or to the end.
pub open spec fn rule_spans(lines: Seq<Seq<char>>) -> Seq<(int, int)> {
    let (done, open) = scan_rules(lines);
    match open {
        Some(s) => done.push((s, lines.len() as int)),
        None => done,
    }
}

/// Heading and content of each section.
pub open spec fn sections_view(secs: Seq<GuidelineSection>) -> Seq<(Seq<char>, Seq<char>)> {
    secs.map_values(|x: GuidelineSection| (x.heading@, x.content@))
}

/// `secs` with the open section `cur` (heading, first line) added, ending before line `end`:
/// its content is its lines joined and trimmed, and it is dropped where both are empty.
pub open spec fn flushed(
    secs: Seq<(Seq<char>, Seq<char>)>,
    cur: Option<(Seq<char>, int)>,
    lines: Seq<Seq<char>>,
    end: int,
) -> Seq<(Seq<char>, Seq<char>)> {
    match cur {
        Some((h, from)) => {
            let c = trim_of(joined(lines.subrange(from, end)));
            if c.len() > 0 || h.len() > 0 { secs.push((h, c)) } else { secs }
        },
        None => secs,
    }
}

/// Reading `lines[from0..upto]`: the sections closed so far and the one still open.
pub open spec fn section_scan(lines: Seq<Seq<char>>, from0: int, upto: int) -> (Seq<(Seq<char>, Seq<char>)>, Option<(Seq<char>, int)>)
    decreases upto - from0,
{
    if upto <= from0 {
        (Seq::empty(), None)
    } else {
        let (secs, cur) = section_scan(lines, from0, upto - 1);
        match group_of(CPP_SECTION_HEADER@, lines[upto - 1], 1) {
            Some(h) => (flushed(secs, cur, lines, upto - 1), Some((h, upto))),
            None => (secs, cur),
        }
    }
}

/// The sections of the rule spanning `lines[start..end]`: one per `#####` line after
/// the header, each running to the next one or to the end of the rule.
pub open spec fn rule_sections(lines: Seq<Seq<char>>, start: int, end: int) -> Seq<(Seq<char>, Seq<char>)> {
    let (secs, cur) = section_scan(lines, start + 1, end);
    flushed(secs, cur, lines, end)
}

/// `g` is the rule that spans `lines[span.0..span.1]`.
pub open spec fn rule_from(g: Guideline, lines: Seq<Seq<char>>, span: (int, int)) -> bool {
    &&& 0 <= span.0 < span.1 <= lines.len()
    &&& rule_header(lines[span.0]) matches Some((anchor, id, title))
    &&& g.anchor@ == anchor
    &&& g.id@ == id
    &&& g.title@ == title
    &&& g.category@ == category_of(id)
    &&& g.source_file is None
    &&& g.raw_markdown@ == joined(lines.subrange(span.0, span.1))
    &&& sections_view(g.sections@) == rule_sections(lines, span.0, span.1)
}

/// Whether the regex crate accepts the four patterns of the C++ Core Guidelines text.
pub open spec fn cpp_patterns_accepted() -> bool {
    &&& regex_accepts(CPP_RULE_HEADER@)
    &&& regex_accepts(CPP_CATEGORY_HEADER@)
    &&& regex_accepts(CPP_SECTION_HEADER@)
    &&& regex_accepts(CPP_ANY_HEADING@)
}

/// The patterns of the C++ Core Guidelines text.
struct CppPatterns {
    rule: Pattern,
    category: Pattern,
    section: Pattern,
    heading: Pattern,
}

fn cpp_patterns() -> (r: Option<CppPatterns>)
    ensures
        r is Some == cpp_patterns_accepted(),
        r matches Some(p) ==> {
            &&& p.rule.source() == CPP_RULE_HEADER@
            &&& p.category.source() == CPP_CATEGORY_HEADER@
            &&& p.section.source() == CPP_SECTION_HEADER@
            &&& p.heading.source() == CPP_ANY_HEADING@
        },
{
    let rule = Pattern::new(CPP_RULE_HEADER)?;
    let category = Pattern::new(CPP_CATEGORY_HEADER)?;
    let section = Pattern::new(CPP_SECTION_HEADER)?;
    let heading = Pattern::new(CPP_ANY_HEADING)?;
    Some(CppPatterns { rule, category, section, heading })
}

/// Splits `ID: Title` (or `ID:Title`) at its first colon, trimming both parts.
fn split_rule_title(rest: &str) -> (r: Option<(String, String)>)
    ensures
        match r {
            Some((id, title)) => rule_parts(rest@) == Some((id@, title@)),
            None => rule_parts(rest@) is None,
        },
{
    proof {
        reveal_strlit(": ");
        reveal_strlit(":");
    }
    let n = rest.unicode_len();
    match find_text(rest, ": ") {
        Some(p) => {
            let id = trim_text(slice_chars(rest, 0, p).as_str());
            let title = trim_text(slice_chars(rest, p + 2, n).as_str());
            Some((id, title))
        },
        None => match find_text(rest, ":") {
            Some(p) => {
                let id = trim_text(slice_chars(rest, 0, p).as_str());
                let title = trim_text(slice_chars(rest, p + 1, n).as_str());
                Some((id, title))
            },
            None => None,
        },
    }
}

/// Adds the section `heading` made of `lines[from..to]`, its content trimmed.
fn flush_section(sections: &mut Vec<GuidelineSection>, heading: Option<String>, lines: &Vec<String>, from: usize, to: usize)
    requires
        from <= to <= lines@.len(),
    ensures
        sections_view(final(sections)@) == flushed(
            sections_view(old(sections)@),
            match heading { Some(h) => Some((h@, from as int)), None => None },
            lines@.map_values(|l: String| l@),
            to as int,
        ),
{
    assert(lines@.subrange(from as int, to as int).map_values(|l: String| l@)
        =~= lines@.map_values(|l: String| l@).subrange(from as int, to as int));
    let ghost before = sections@;
    match heading {
        Some(h) => {
            let content = trim_text(join_lines(lines, from, to).as_str());
            if content.as_str().unicode_len() > 0 || h.as_str().unicode_len() > 0 {
                let ghost hv = h@;
                let ghost cv = content@;
                sections.push(GuidelineSection { heading: h, content });
                assert(sections_view(sections@) =~= sections_view(before).push((hv, cv)));
            }
        },
        None => {},
    }
}

/// Parses the C++ Core Guidelines text into its rules and their categories, each
/// category named by the last category header for its prefix. Each rule starts at
/// a header line with a non-empty id and runs up to the next heading of level one
/// to three; malformed rule headers are skipped and the parser never fails.
#[verifier::rlimit(60)]
pub fn parse_guidelines(content: &str) -> (r: (Vec<Guideline>, Vec<Category>))
    ensures
        keyed_by_id(r.0@),
        categories_counted(r.1@, r.0@),
        total_count(r.1@) == r.0@.len(),
        cpp_patterns_accepted() ==> {
            &&& categories_of(r.1@, r.0@, category_headers(lines_of(content@)))
            &&& r.0@.len() == rule_spans(lines_of(content@)).len()
            &&& forall|k: int| 0 <= k < r.0@.len()
                ==> rule_from(#[trigger] r.0@[k], lines_of(content@), rule_spans(lines_of(content@))[k])
        },
{
    let mut guidelines: Vec<Guideline> = Vec::new();
    let mut names: Vec<(String, String)> = Vec::new();
    let pats = match cpp_patterns() {
        Some(p) => p,
        None => return (guidelines, Vec::new()),
    };
    let lines = split_lines(content);
    let ghost all = lines@.map_values(|l: String| l@);
    assert(all =~= lines_of(content@));
    let n = lines.len();

    let mut k: usize = 0;
    while k < n
        invariant
            n == lines@.len(),
            all == lines@.map_values(|l: String| l@),
            k <= n,
            pats.category.source() == CPP_CATEGORY_HEADER@,
            names_view(names@) == category_headers(all.subrange(0, k as int)),
        decreases n - k,
    {
        let line = lines[k].as_str();
        assert(line@ == all[k as int]);
        let ghost before = names@;
        assert(all.subrange(0, k + 1).drop_last() =~= all.subrange(0, k as int));
        match (pats.category.group(line, 1), pats.category.group(line, 2)) {
            (Some(prefix), Some(name)) => {
                names.insert(0, (prefix, name));
                assert(names_view(names@) =~= seq![(prefix@, name@)] + names_view(before));
            },
            _ => {},
        }
        k += 1;
    }
    assert(all.subrange(0, n as int) =~= all);
    let ghost header_names = names@;

    let ghost mut spans: Seq<(int, int)> = Seq::empty();
    let mut i: usize = 0;
    assert(all.subrange(0, 0) =~= Seq::<Seq<char>>::empty());
    while i < n
        invariant
            n == lines@.len(),
            all == lines@.map_values(|l: String| l@),
            i <= n,
            pats.rule.source() == CPP_RULE_HEADER@,
            pats.section.source() == CPP_SECTION_HEADER@,
            pats.heading.source() == CPP_ANY_HEADING@,
            spans == rule_spans(all.subrange(0, i as int)),
            guidelines@.len() == spans.len(),
            forall|t: int| 0 <= t < spans.len() ==> rule_from(#[trigger] guidelines@[t], all, spans[t]),
            (scan_rules(all.subrange(0, i as int)).1 is Some && i < n) ==> ends_rule(all[i as int]),
        decreases n - i,
    {
        let ghost before = all.subrange(0, i as int);
        let ghost after = all.subrange(0, i + 1);
        assert(after.drop_last() =~= before);
        assert(after.last() == all[i as int]);
        let line = lines[i].as_str();
        let header = match (pats.rule.group(line, 1), pats.rule.group(line, 2)) {
            (Some(anchor), Some(rest)) => match split_rule_title(rest.as_str()) {
                Some((id, title)) => if id.as_str().unicode_len() > 0 { Some((anchor, id, title)) } else { None },
                None => None,
            },
            _ => None,
        };
        assert(header is Some == rule_header(all[i as int]) is Some);
        match header {
            None => {
                proof {
                    assert(scan_rules(after).1 is None);
                }
                i += 1;
            },
            Some((anchor, id, title)) => {
                let ghost prev_spans = spans;
                let category = extract_category(id.as_str());
                let start = i;
                i += 1;
                let mut sections: Vec<GuidelineSection> = Vec::new();
                let mut heading: Option<String> = None;
                let mut from: usize = i;
                assert(scan_rules(all.subrange(0, i as int)) == (prev_spans, Some(start as int)));
                assert(sections_view(sections@) =~= Seq::<(Seq<char>, Seq<char>)>::empty());
                while i < n
                    invariant
                        n == lines@.len(),
                        all == lines@.map_values(|l: String| l@),
                        start < i <= n,
                        from <= i,
                        pats.section.source() == CPP_SECTION_HEADER@,
                        pats.heading.source() == CPP_ANY_HEADING@,
                        scan_rules(all.subrange(0, i as int)) == (prev_spans, Some(start as int)),
                        section_scan(all, start + 1, i as int) == (
                            sections_view(sections@),
                            match heading { Some(h) => Some((h@, from as int)), None => None },
                        ),
                    ensures
                        start < i <= n,
                        from <= i,
                        scan_rules(all.subrange(0, i as int)) == (prev_spans, Some(start as int)),
                        section_scan(all, start + 1, i as int) == (
                            sections_view(sections@),
                            match heading { Some(h) => Some((h@, from as int)), None => None },
                        ),
                        i == n || ends_rule(all[i as int]),
                    decreases n - i,
                {
                    let cur = lines[i].as_str();
                    assert(cur@ == all[i as int]);
                    if pats.heading.matches(cur) && !starts_with(cur, "##### ") && !starts_with(cur, "###### ") {
                        break;
                    }
                    proof {
                        let b = all.subrange(0, i as int);
                        let a = all.subrange(0, i + 1);
                        assert(a.drop_last() =~= b);
                        assert(a.last() == all[i as int]);
                    }
                    match pats.section.group(cur, 1) {
                        Some(h) => {
                            flush_section(&mut sections, heading, &lines, from, i);
                            heading = Some(h);
                            from = i + 1;
                        },
                        None => {},
                    }
                    i += 1;
                }
                flush_section(&mut sections, heading, &lines, from, i);
                let raw_markdown = join_lines(&lines, start, i);
                let ghost g_view = (anchor@, id@, title@);
                let g = Guideline {
                    id,
                    anchor,
                    title,
                    category,
                    sections,
                    source_file: None,
                    raw_markdown,
                };
                proof {
                    spans = prev_spans.push((start as int, i as int));
                    assert(lines@.subrange(start as int, i as int).map_values(|l: String| l@) =~= all.subrange(start as int, i as int));
                    assert(rule_from(g, all, (start as int, i as int)));
                }
                let ghost pushed_before = guidelines@;
                guidelines.push(g);
                proof {
                    assert forall|t: int| 0 <= t < spans.len() implies rule_from(#[trigger] guidelines@[t], all, spans[t]) by {
                        if t < prev_spans.len() {
                            assert(guidelines@[t] == pushed_before[t]);
                            assert(spans[t] == prev_spans[t]);
                        }
                    }
                }
            },
        }
    }
    proof {
        assert(all.subrange(0, n as int) =~= all);
        assert forall|t: int| 0 <= t < guidelines@.len() implies {
            &&& (#[trigger] guidelines@[t]).id@.len() > 0
            &&& guidelines@[t].category@ == category_of(guidelines@[t].id@)
            &&& guidelines@[t].source_file is None
        } by {
            assert(rule_from(guidelines@[t], all, spans[t]));
        }
    }
    let categories = build_categories(&guidelines, &names);
    proof {
        lemma_counts_add_up(categories@, guidelines@);
    }
    (guidelines, categories)
}

} // verus!
