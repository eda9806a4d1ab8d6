use vstd::prelude::*;

verus! {

#[verifier::external_type_specification]
#[verifier::external_body]
pub struct ExRegex(regex::Regex);

/// Whether the regex crate accepts `pattern`.
pub uninterp spec fn regex_accepts(pattern: Seq<char>) -> bool;

/// The groups of the first match of `pattern` in `hay`, group 0 (the whole match)
/// first, `None` for a group that took no part in it; `None` where nothing matches.
pub uninterp spec fn captures_of(pattern: Seq<char>, hay: Seq<char>) -> Option<Seq<Option<Seq<char>>>>;

/// The text of each group.
pub open spec fn groups_view(groups: Seq<Option<String>>) -> Seq<Option<Seq<char>>> {
    groups.map_values(|g: Option<String>| match g {
        Some(s) => Some(s@),
        None => None,
    })
}

/// Text of group `i` of the first match of `pattern` in `hay`, where both exist.
pub open spec fn group_of(pattern: Seq<char>, hay: Seq<char>, i: int) -> Option<Seq<char>> {
    match captures_of(pattern, hay) {
        Some(g) => if 0 <= i < g.len() { g[i] } else { None },
        None => None,
    }
}

/// Relies on `regex::Regex::new`: compiles `pattern`, and fails where the crate refuses it.
#[verifier::external_body]
fn compile(pattern: &str) -> (r: Option<regex::Regex>)
    ensures
        r is Some == regex_accepts(pattern@),
{
    regex::Regex::new(pattern).ok()
}

/// A compiled regular expression together with its source text.
pub struct Pattern {
    re: regex::Regex,
    source: String,
}

impl Pattern {
    /// The source text the pattern was compiled from.
    pub closed spec fn source(&self) -> Seq<char> {
        self.source@
    }

    /// Compiles `pattern`; `None` where the regex crate refuses it.
    pub fn new(pattern: &str) -> (r: Option<Pattern>)
        ensures
            r is Some == regex_accepts(pattern@),
            r matches Some(p) ==> p.source() == pattern@,
    {
        match compile(pattern) {
            Some(re) => Some(Pattern { re, source: pattern.to_owned() }),
            None => None,
        }
    }

    /// Relies on `regex::Regex::captures` on the regex compiled from `self.source()`:
    /// the groups of the first match in `hay`.
    #[verifier::external_body]
    fn captures(&self, hay: &str) -> (r: Option<Vec<Option<String>>>)
        ensures
            match r {
                Some(g) => captures_of(self.source(), hay@) == Some(groups_view(g@)),
                None => captures_of(self.source(), hay@) is None,
            },
    {
        self.re.captures(hay).map(|c| c.iter().map(|m| m.map(|m| m.as_str().to_string())).collect())
    }

    /// The text of group `i` of the first match of the pattern in `hay`, where both exist.
    pub fn group(&self, hay: &str, i: usize) -> (r: Option<String>)
        ensures
            match r {
                Some(s) => group_of(self.source(), hay@, i as int) == Some(s@),
                None => group_of(self.source(), hay@, i as int) is None,
            },
    {
        match self.captures(hay) {
            None => None,
            Some(g) => {
                if i < g.len() {
                    match &g[i] {
                        Some(s) => Some(s.clone()),
                        None => None,
                    }
                } else {
                    None
                }
            },
        }
    }

    /// Whether the pattern matches somewhere in `hay`.
    pub fn matches(&self, hay: &str) -> (r: bool)
        ensures
            r == captures_of(self.source(), hay@) is Some,
    {
        self.captures(hay).is_some()
    }
}

/// Pieces of `s` between `'\n'` characters; there is always at least one.
pub open spec fn pieces_of(s: Seq<char>) -> Seq<Seq<char>>
    decreases s.len(),
{
    if s.len() == 0 {
        seq![Seq::empty()]
    } else {
        let p = pieces_of(s.drop_last());
        if s.last() == '\n' {
            p.push(Seq::empty())
        } else {
            p.update(p.len() - 1, p.last().push(s.last()))
        }
    }
}

/// A line without one trailing carriage return.
pub open spec fn strip_cr(l: Seq<char>) -> Seq<char> {
    if l.len() > 0 && l.last() == '\r' { l.drop_last() } else { l }
}

/// The lines of `s` as `str::lines` gives them: split at `'\n'`, a line ended by
/// `"\r\n"` without its `'\r'`, a last line without a line feed kept as it is, and
/// no empty last line after a final line feed.
pub open spec fn lines_of(s: Seq<char>) -> Seq<Seq<char>> {
    let p = pieces_of(s);
    let ended = p.drop_last().map_values(|l: Seq<char>| strip_cr(l));
    if p.last().len() == 0 { ended } else { ended.push(p.last()) }
}

proof fn lemma_pieces_nonempty(s: Seq<char>)
    ensures
        pieces_of(s).len() >= 1,
    decreases s.len(),
{
    if s.len() > 0 {
        lemma_pieces_nonempty(s.drop_last());
    }
}

/// The lines of `s`.
pub fn split_lines(s: &str) -> (r: Vec<String>)
    ensures
        r@.len() == lines_of(s@).len(),
        forall|i: int| 0 <= i < r@.len() ==> (#[trigger] r@[i])@ == lines_of(s@)[i],
{
    let n = s.unicode_len();
    let mut done: Vec<String> = Vec::new();
    let mut cur = String::new();
    let mut i: usize = 0;
    while i < n
        invariant
            n == s@.len(),
            i <= n,
            pieces_of(s@.subrange(0, i as int)).len() == done@.len() + 1,
            forall|k: int| 0 <= k < done@.len() ==> (#[trigger] done@[k])@ == pieces_of(s@.subrange(0, i as int))[k],
            cur@ == pieces_of(s@.subrange(0, i as int)).last(),
        decreases n - i,
    {
        let ghost before = s@.subrange(0, i as int);
        assert(s@.subrange(0, i + 1).drop_last() =~= before);
        proof { lemma_pieces_nonempty(before); }
        let c = s.get_char(i);
        if c == '\n' {
            done.push(cur);
            cur = String::new();
        } else {
            crate::text::push_char(&mut cur, c);
        }
        i += 1;
    }
    assert(s@.subrange(0, n as int) =~= s@);
    proof { lemma_pieces_nonempty(s@); }
    let mut out: Vec<String> = Vec::new();
    let mut k: usize = 0;
    while k < done.len()
        invariant
            k <= done@.len(),
            out@.len() == k,
            forall|t: int| 0 <= t < k ==> (#[trigger] out@[t])@ == strip_cr(done@[t]@),
        decreases done@.len() - k,
    {
        let line = done[k].as_str();
        let m = line.unicode_len();
        if m > 0 && line.get_char(m - 1) == '\r' {
            out.push(line.substring_char(0, m - 1).to_owned());
        } else {
            out.push(line.to_owned());
        }
        k += 1;
    }
    if cur.as_str().unicode_len() > 0 {
        out.push(cur);
    }
    out
}

} // verus!
