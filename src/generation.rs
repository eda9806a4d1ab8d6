use vstd::prelude::*;

use crate::error::AppError;
use crate::model::{Category, CategoryInfo, CategoryListResponse, Guideline, GuidelineSummary};
use crate::text::{
    eq_ignore_ascii_case, eq_ignore_case, lemma_text_lt_irreflexive, lemma_text_lt_total,
    lemma_text_lt_transitive, text_eq, text_less, text_lt,
};

verus! {

/// Ids strictly ascending, hence pairwise distinct.
pub open spec fn ids_sorted(docs: Seq<Guideline>) -> bool {
    forall|i: int, j: int| 0 <= i < j < docs.len() ==> text_lt(#[trigger] docs[i].id@, #[trigger] docs[j].id@)
}

/// No guideline after position `k` of `input` has the id of `input[k]`.
pub open spec fn last_with_its_id(input: Seq<Guideline>, k: int) -> bool {
    forall|k2: int| k < k2 < input.len() ==> (#[trigger] input[k2]).id@ != input[k].id@
}

/// Each `out[i]` is `input[src[i]]`, the last guideline of `input` with its id.
pub open spec fn drawn_from(out: Seq<Guideline>, input: Seq<Guideline>, src: Seq<int>) -> bool {
    &&& src.len() == out.len()
    &&& forall|i: int| #![trigger src[i]] 0 <= i < out.len() ==> 0 <= src[i] < input.len()
        && input[src[i]] == out[i] && last_with_its_id(input, src[i])
}

/// Each `input[k]` with `k >= from` shares its id with `out[dst[k]]`.
pub open spec fn covers(out: Seq<Guideline>, input: Seq<Guideline>, from: int, dst: Seq<int>) -> bool {
    &&& dst.len() == input.len()
    &&& forall|k: int| #![trigger dst[k]] from <= k < input.len() ==> 0 <= dst[k] < out.len()
        && out[dst[k]].id@ == input[k].id@
}

/// `out` holds, for each id of `input`, the last guideline that has it, and nothing else.
pub open spec fn keeps_last_of(out: Seq<Guideline>, input: Seq<Guideline>) -> bool {
    exists|src: Seq<int>, dst: Seq<int>| #[trigger] drawn_from(out, input, src) && #[trigger] covers(out, input, 0, dst)
}

/// Position at which `id` belongs in `docs`, sorted by id: the first guideline
/// whose id does not come before it.
fn insertion_point(docs: &Vec<Guideline>, id: &str) -> (p: usize)
    requires
        ids_sorted(docs@),
    ensures
        p <= docs@.len(),
        forall|i: int| 0 <= i < p ==> text_lt(#[trigger] docs@[i].id@, id@),
        p < docs@.len() ==> !text_lt(docs@[p as int].id@, id@),
{
    let mut p: usize = 0;
    while p < docs.len()
        invariant
            p <= docs@.len(),
            forall|i: int| 0 <= i < p ==> text_lt(#[trigger] docs@[i].id@, id@),
        decreases docs@.len() - p,
    {
        if !text_less(docs[p].id.as_str(), id) {
            return p;
        }
        p += 1;
    }
    p
}

/// Adds `g` at its place in `docs`, sorted by id, unless a guideline with its id is there.
fn insert_if_new(docs: &mut Vec<Guideline>, g: Guideline)
    requires
        ids_sorted(old(docs)@),
    ensures
        ids_sorted(final(docs)@),
        (exists|i: int| 0 <= i < old(docs)@.len() && (#[trigger] old(docs)@[i]).id@ == g.id@)
            ==> final(docs)@ == old(docs)@,
        (forall|i: int| 0 <= i < old(docs)@.len() ==> (#[trigger] old(docs)@[i]).id@ != g.id@)
            ==> exists|p: int| 0 <= p <= old(docs)@.len() && final(docs)@ == #[trigger] old(docs)@.insert(p, g),
{
    let ghost old_out = docs@;
    let p = insertion_point(docs, g.id.as_str());
    if p < docs.len() && text_eq(docs[p].id.as_str(), g.id.as_str()) {
        return;
    }
    proof {
        if p < old_out.len() {
            lemma_text_lt_total(old_out[p as int].id@, g.id@);
        }
        assert forall|i: int| 0 <= i < old_out.len() implies #[trigger] old_out[i].id@ != g.id@ by {
            lemma_text_lt_irreflexive(g.id@);
            if i > p && old_out[i].id@ == g.id@ {
                lemma_text_lt_transitive(g.id@, old_out[p as int].id@, old_out[i].id@);
            }
        }
    }
    let ghost gg = g;
    docs.insert(p, g);
    proof {
        let o = docs@;
        assert forall|i: int, j: int| 0 <= i < j < o.len() implies text_lt(#[trigger] o[i].id@, #[trigger] o[j].id@) by {
            if j < p {
                assert(o[i] == old_out[i] && o[j] == old_out[j]);
            } else if j == p {
                assert(o[i] == old_out[i]);
            } else if i < p {
                assert(o[i] == old_out[i] && o[j] == old_out[j - 1]);
                if j - 1 > p {
                    assert(text_lt(old_out[p as int].id@, old_out[j - 1].id@));
                    lemma_text_lt_transitive(gg.id@, old_out[p as int].id@, old_out[j - 1].id@);
                }
                lemma_text_lt_transitive(old_out[i].id@, gg.id@, old_out[j - 1].id@);
            } else if i == p {
                assert(o[j] == old_out[j - 1]);
                if j - 1 > p {
                    assert(text_lt(old_out[p as int].id@, old_out[j - 1].id@));
                    lemma_text_lt_transitive(gg.id@, old_out[p as int].id@, old_out[j - 1].id@);
                }
            } else {
                assert(o[i] == old_out[i - 1] && o[j] == old_out[j - 1]);
            }
        }
    }
}

/// Sorts guidelines by id; where several share an id, the last of them is kept.
pub fn sort_unique_by_id(guidelines: Vec<Guideline>) -> (out: Vec<Guideline>)
    ensures
        ids_sorted(out@),
        keeps_last_of(out@, guidelines@),
{
    let ghost input = guidelines@;
    let mut rest = guidelines;
    let mut out: Vec<Guideline> = Vec::new();
    let ghost mut src: Seq<int> = Seq::empty();
    let ghost mut dst: Seq<int> = Seq::new(input.len(), |k: int| 0);
    while rest.len() > 0
        invariant
            rest@.len() <= input.len(),
            rest@ == input.subrange(0, rest@.len() as int),
            ids_sorted(out@),
            drawn_from(out@, input, src),
            covers(out@, input, rest@.len() as int, dst),
        decreases rest@.len(),
    {
        let ghost r = rest@.len() as int;
        assert(rest@[r - 1] == input[r - 1]);
        let g = rest.pop().unwrap();
        let ghost old_out = out@;
        insert_if_new(&mut out, g);
        proof {
            let o = out@;
            if exists|i: int| 0 <= i < old_out.len() && (#[trigger] old_out[i]).id@ == input[r - 1].id@ {
                let w = choose|w: int| 0 <= w < old_out.len() && (#[trigger] old_out[w]).id@ == input[r - 1].id@;
                let nd = dst.update(r - 1, w);
                assert forall|k: int| #![trigger nd[k]] r - 1 <= k < input.len() implies 0 <= nd[k] < o.len()
                    && o[nd[k]].id@ == input[k].id@ by {
                    if k != r - 1 {
                        assert(nd[k] == dst[k]);
                    }
                }
                dst = nd;
            } else {
                let p = choose|p: int| 0 <= p <= old_out.len() && o == #[trigger] old_out.insert(p, input[r - 1]);
                let ns = src.insert(p, r - 1);
                let nd = Seq::new(input.len(), |k: int| if k == r - 1 { p } else if dst[k] >= p { dst[k] + 1 } else { dst[k] });
                assert forall|k2: int| r - 1 < k2 < input.len() implies (#[trigger] input[k2]).id@ != input[r - 1].id@ by {
                    assert(old_out[dst[k2]].id@ == input[k2].id@);
                }
                assert forall|i: int| #![trigger ns[i]] 0 <= i < o.len() implies 0 <= ns[i] < input.len()
                    && input[ns[i]] == o[i] && last_with_its_id(input, ns[i]) by {
                    if i < p {
                        assert(ns[i] == src[i] && o[i] == old_out[i]);
                    } else if i > p {
                        assert(ns[i] == src[i - 1] && o[i] == old_out[i - 1]);
                    }
                }
                assert forall|k: int| #![trigger nd[k]] r - 1 <= k < input.len() implies 0 <= nd[k] < o.len()
                    && o[nd[k]].id@ == input[k].id@ by {
                    if k != r - 1 {
                        if dst[k] >= p {
                            assert(o[dst[k] + 1] == old_out[dst[k]]);
                        } else {
                            assert(o[dst[k]] == old_out[dst[k]]);
                        }
                    }
                }
                src = ns;
                dst = nd;
            }
        }
        assert(rest@ =~= input.subrange(0, rest@.len() as int));
    }
    assert(drawn_from(out@, input, src) && covers(out@, input, 0, dst));
    out
}

proof fn lemma_every_doc_has_category(cats: Seq<Category>, docs: Seq<Guideline>, at: Seq<int>)
    requires
        at.len() == docs.len(),
        forall|t: int| #![trigger at[t]] 0 <= t < docs.len() ==> 0 <= at[t] < cats.len()
            && cats[at[t]].key@ == docs[t].category@,
    ensures
        forall|i: int| 0 <= i < docs.len() ==> has_key(cats, #[trigger] docs[i].category@),
{
    assert forall|i: int| 0 <= i < docs.len() implies has_key(cats, #[trigger] docs[i].category@) by {
        let j = at[i];
        assert(0 <= j < cats.len());
        assert(cats[j].key@ == docs[i].category@);
    }
}

/// Number of guidelines of `docs` in the category `key`.
pub open spec fn count_in(docs: Seq<Guideline>, key: Seq<char>) -> nat
    decreases docs.len(),
{
    if docs.len() == 0 {
        0
    } else {
        count_in(docs.drop_last(), key) + if docs.last().category@ == key { 1nat } else { 0nat }
    }
}

/// Category keys strictly ascending, hence pairwise distinct.
pub open spec fn keys_sorted(cats: Seq<Category>) -> bool {
    forall|i: int, j: int| 0 <= i < j < cats.len() ==> text_lt(#[trigger] cats[i].key@, #[trigger] cats[j].key@)
}

/// The text of each (key, name) pair.
pub open spec fn names_view(names: Seq<(String, String)>) -> Seq<(Seq<char>, Seq<char>)> {
    names.map_values(|p: (String, String)| (p.0@, p.1@))
}

/// Display name of the category `key`: the name paired with it first in `names`, else the key itself.
pub open spec fn name_for(names: Seq<(Seq<char>, Seq<char>)>, key: Seq<char>) -> Seq<char>
    decreases names.len(),
{
    if names.len() == 0 {
        key
    } else if names[0].0 == key {
        names[0].1
    } else {
        name_for(names.drop_first(), key)
    }
}

/// `cats` are exactly the categories of `docs`: one per key in use, sorted by key,
/// each counting its guidelines and named from `names`.
pub open spec fn categories_of(cats: Seq<Category>, docs: Seq<Guideline>, names: Seq<(Seq<char>, Seq<char>)>) -> bool {
    &&& categories_counted(cats, docs)
    &&& forall|j: int| #![trigger cats[j]] 0 <= j < cats.len() ==> cats[j].display_name@ == name_for(names, cats[j].key@)
}

/// `cats` has one category per key in use in `docs`, sorted by key, each counting its guidelines.
pub open spec fn categories_counted(cats: Seq<Category>, docs: Seq<Guideline>) -> bool {
    &&& keys_sorted(cats)
    &&& forall|j: int| #![trigger cats[j]] 0 <= j < cats.len() ==> {
        &&& cats[j].guideline_count == count_in(docs, cats[j].key@)
        &&& cats[j].guideline_count >= 1
    }
    &&& forall|i: int| 0 <= i < docs.len() ==> has_key(cats, #[trigger] docs[i].category@)
}

/// Some category of `cats` has the key `key`.
pub open spec fn has_key(cats: Seq<Category>, key: Seq<char>) -> bool {
    exists|j: int| 0 <= j < cats.len() && (#[trigger] cats[j]).key@ == key
}

proof fn lemma_count_positive_has_member(docs: Seq<Guideline>, key: Seq<char>)
    requires
        count_in(docs, key) > 0,
    ensures
        exists|t: int| 0 <= t < docs.len() && (#[trigger] docs[t]).category@ == key,
    decreases docs.len(),
{
    if docs.last().category@ != key {
        lemma_count_positive_has_member(docs.drop_last(), key);
        let t = choose|t: int| 0 <= t < docs.drop_last().len() && (#[trigger] docs.drop_last()[t]).category@ == key;
        assert(docs[t] == docs.drop_last()[t]);
    } else {
        assert(docs[docs.len() - 1].category@ == key);
    }
}

fn category_position(cats: &Vec<Category>, key: &str) -> (p: usize)
    requires
        keys_sorted(cats@),
    ensures
        p <= cats@.len(),
        forall|j: int| 0 <= j < p ==> text_lt(#[trigger] cats@[j].key@, key@),
        p < cats@.len() ==> !text_lt(cats@[p as int].key@, key@),
{
    let mut p: usize = 0;
    while p < cats.len()
        invariant
            p <= cats@.len(),
            forall|j: int| 0 <= j < p ==> text_lt(#[trigger] cats@[j].key@, key@),
        decreases cats@.len() - p,
    {
        if !text_less(cats[p].key.as_str(), key) {
            return p;
        }
        p += 1;
    }
    p
}

/// Display name of the category `key` under `names`.
pub fn display_name_for(names: &Vec<(String, String)>, key: &str) -> (r: String)
    ensures
        r@ == name_for(names_view(names@), key@),
{
    let ghost nv = names_view(names@);
    let mut i: usize = 0;
    assert(nv.skip(0) =~= nv);
    while i < names.len()
        invariant
            i <= names@.len(),
            nv == names_view(names@),
            name_for(nv, key@) == name_for(nv.skip(i as int), key@),
        decreases names@.len() - i,
    {
        assert(nv.skip(i as int)[0] == nv[i as int]);
        if text_eq(names[i].0.as_str(), key) {
            return names[i].1.clone();
        }
        assert(nv.skip(i as int).drop_first() =~= nv.skip(i + 1));
        i += 1;
    }
    assert(nv.skip(i as int) =~= Seq::<(Seq<char>, Seq<char>)>::empty());
    key.to_owned()
}

/// The categories of `docs`, sorted by key, with their guideline counts.
pub fn build_categories(docs: &Vec<Guideline>, names: &Vec<(String, String)>) -> (cats: Vec<Category>)
    ensures
        categories_of(cats@, docs@, names_view(names@)),
{
    let mut cats: Vec<Category> = Vec::new();
    let ghost mut at: Seq<int> = Seq::empty();
    let mut i: usize = 0;
    while i < docs.len()
        invariant
            i <= docs@.len(),
            keys_sorted(cats@),
            forall|j: int| #![trigger cats@[j]] 0 <= j < cats@.len() ==> {
                &&& cats@[j].guideline_count == count_in(docs@.subrange(0, i as int), cats@[j].key@)
                &&& cats@[j].guideline_count >= 1
                &&& cats@[j].display_name@ == name_for(names_view(names@), cats@[j].key@)
            },
            at.len() == i,
            forall|t: int| #![trigger at[t]] 0 <= t < i ==> 0 <= at[t] < cats@.len()
                && cats@[at[t]].key@ == docs@[t].category@,
        decreases docs@.len() - i,
    {
        let ghost prev = docs@.subrange(0, i as int);
        let ghost next = docs@.subrange(0, i + 1);
        assert(next.drop_last() =~= prev);
        assert(next.last() == docs@[i as int]);
        let key = &docs[i].category;
        let p = category_position(&cats, key.as_str());
        let ghost old_cats = cats@;
        proof {
            assert forall|j: int| 0 <= j < old_cats.len() implies #[trigger] old_cats[j].guideline_count <= i by {
                if count_in(prev, old_cats[j].key@) > i {
                    lemma_count_at_most_len(prev, old_cats[j].key@);
                }
            }
        }
        if p < cats.len() && text_eq(cats[p].key.as_str(), key.as_str()) {
            let c = cats.remove(p);
            let n = c.guideline_count + 1;
            cats.insert(p, Category { key: c.key, display_name: c.display_name, guideline_count: n });
            proof {
                assert forall|j: int| #![trigger cats@[j]] 0 <= j < cats@.len() implies {
                    &&& cats@[j].guideline_count == count_in(next, cats@[j].key@)
                    &&& cats@[j].guideline_count >= 1
                    &&& cats@[j].display_name@ == name_for(names_view(names@), cats@[j].key@)
                } by {
                    assert(cats@[j].key@ == old_cats[j].key@);
                    if j != p {
                        assert(cats@[j] == old_cats[j]);
                        assert(text_lt(old_cats[j].key@, old_cats[p as int].key@) || text_lt(old_cats[p as int].key@, old_cats[j].key@));
                        lemma_text_lt_irreflexive(old_cats[j].key@);
                    }
                }
                assert(keys_sorted(cats@)) by {
                    assert forall|a: int, b: int| 0 <= a < b < cats@.len() implies text_lt(#[trigger] cats@[a].key@, #[trigger] cats@[b].key@) by {
                        assert(cats@[a].key@ == old_cats[a].key@ && cats@[b].key@ == old_cats[b].key@);
                    }
                }
                at = at.push(p as int);
                assert forall|t: int| #![trigger at[t]] 0 <= t < i + 1 implies 0 <= at[t] < cats@.len()
                    && cats@[at[t]].key@ == docs@[t].category@ by {
                    assert(cats@[at[t]].key@ == old_cats[at[t]].key@);
                }
            }
        } else {
            let name = display_name_for(names, key.as_str());
            proof {
                if p < old_cats.len() {
                    lemma_text_lt_total(old_cats[p as int].key@, key@);
                }
                assert forall|j: int| 0 <= j < old_cats.len() implies #[trigger] old_cats[j].key@ != key@ by {
                    lemma_text_lt_irreflexive(key@);
                    if j > p && old_cats[j].key@ == key@ {
                        lemma_text_lt_transitive(key@, old_cats[p as int].key@, old_cats[j].key@);
                    }
                }
                if count_in(prev, key@) > 0 {
                    lemma_count_positive_has_member(prev, key@);
                    let t = choose|t: int| 0 <= t < prev.len() && (#[trigger] prev[t]).category@ == key@;
                    assert(prev[t] == docs@[t]);
                    assert(old_cats[at[t]].key@ == key@);
                }
            }
            cats.insert(p, Category { key: key.clone(), display_name: name, guideline_count: 1 });
            proof {
                let o = cats@;
                assert forall|j: int| #![trigger o[j]] 0 <= j < o.len() implies {
                    &&& o[j].guideline_count == count_in(next, o[j].key@)
                    &&& o[j].guideline_count >= 1
                    &&& o[j].display_name@ == name_for(names_view(names@), o[j].key@)
                } by {
                    if j < p {
                        assert(o[j] == old_cats[j]);
                    } else if j > p {
                        assert(o[j] == old_cats[j - 1]);
                    }
                }
                assert forall|a: int, b: int| 0 <= a < b < o.len() implies text_lt(#[trigger] o[a].key@, #[trigger] o[b].key@) by {
                    if b < p {
                        assert(o[a] == old_cats[a] && o[b] == old_cats[b]);
                    } else if b == p {
                        assert(o[a] == old_cats[a]);
                    } else if a < p {
                        assert(o[a] == old_cats[a] && o[b] == old_cats[b - 1]);
                        if b - 1 > p {
                            assert(text_lt(old_cats[p as int].key@, old_cats[b - 1].key@));
                            lemma_text_lt_transitive(key@, old_cats[p as int].key@, old_cats[b - 1].key@);
                        }
                        lemma_text_lt_transitive(old_cats[a].key@, key@, old_cats[b - 1].key@);
                    } else if a == p {
                        assert(o[b] == old_cats[b - 1]);
                        if b - 1 > p {
                            assert(text_lt(old_cats[p as int].key@, old_cats[b - 1].key@));
                            lemma_text_lt_transitive(key@, old_cats[p as int].key@, old_cats[b - 1].key@);
                        }
                    } else {
                        assert(o[a] == old_cats[a - 1] && o[b] == old_cats[b - 1]);
                    }
                }
                let na = Seq::new((i + 1) as nat, |t: int| if t == i { p as int } else if at[t] >= p { at[t] + 1 } else { at[t] });
                assert forall|t: int| #![trigger na[t]] 0 <= t < i + 1 implies 0 <= na[t] < o.len()
                    && o[na[t]].key@ == docs@[t].category@ by {
                    if t < i {
                        if at[t] >= p {
                            assert(o[at[t] + 1] == old_cats[at[t]]);
                        } else {
                            assert(o[at[t]] == old_cats[at[t]]);
                        }
                    }
                }
                at = na;
            }
        }
        i += 1;
    }
    proof {
        assert(docs@.subrange(0, i as int) =~= docs@);
        assert forall|j: int| #![trigger cats@[j]] 0 <= j < cats@.len() implies
            cats@[j].guideline_count == count_in(docs@, cats@[j].key@) by {
            assert(cats@[j].guideline_count == count_in(docs@.subrange(0, i as int), cats@[j].key@));
        }
        lemma_every_doc_has_category(cats@, docs@, at);
        assert(keys_sorted(cats@));
        assert forall|j: int| #![trigger cats@[j]] 0 <= j < cats@.len() implies {
            &&& cats@[j].guideline_count == count_in(docs@, cats@[j].key@)
            &&& cats@[j].guideline_count >= 1
            &&& cats@[j].display_name@ == name_for(names_view(names@), cats@[j].key@)
        } by {
            assert(cats@[j].guideline_count == count_in(docs@.subrange(0, i as int), cats@[j].key@));
        }
    }
    cats
}

proof fn lemma_count_at_most_len(docs: Seq<Guideline>, key: Seq<char>)
    ensures
        count_in(docs, key) <= docs.len(),
    decreases docs.len(),
{
    if docs.len() > 0 {
        lemma_count_at_most_len(docs.drop_last(), key);
    }
}

/// Guidelines of `docs` in the category `key`, in order.
pub open spec fn members(docs: Seq<Guideline>, key: Seq<char>) -> Seq<Guideline>
    decreases docs.len(),
{
    if docs.len() == 0 {
        Seq::empty()
    } else if docs.last().category@ == key {
        members(docs.drop_last(), key).push(docs.last())
    } else {
        members(docs.drop_last(), key)
    }
}

/// Sum of the guideline counts of `cats`.
pub open spec fn total_count(cats: Seq<Category>) -> int
    decreases cats.len(),
{
    if cats.len() == 0 {
        0
    } else {
        total_count(cats.drop_last()) + cats.last().guideline_count
    }
}

spec fn member_total(cats: Seq<Category>, docs: Seq<Guideline>) -> int
    decreases cats.len(),
{
    if cats.len() == 0 {
        0
    } else {
        member_total(cats.drop_last(), docs) + count_in(docs, cats.last().key@)
    }
}

spec fn occurrences(cats: Seq<Category>, key: Seq<char>) -> int
    decreases cats.len(),
{
    if cats.len() == 0 {
        0
    } else {
        occurrences(cats.drop_last(), key) + if cats.last().key@ == key { 1int } else { 0int }
    }
}

proof fn lemma_member_total_step(cats: Seq<Category>, docs: Seq<Guideline>)
    requires
        docs.len() > 0,
    ensures
        member_total(cats, docs) == member_total(cats, docs.drop_last()) + occurrences(cats, docs.last().category@),
    decreases cats.len(),
{
    if cats.len() > 0 {
        lemma_member_total_step(cats.drop_last(), docs);
    }
}

proof fn lemma_occurrences_absent(cats: Seq<Category>, key: Seq<char>)
    requires
        forall|j: int| 0 <= j < cats.len() ==> (#[trigger] cats[j]).key@ != key,
    ensures
        occurrences(cats, key) == 0,
    decreases cats.len(),
{
    if cats.len() > 0 {
        assert(cats.last() == cats[cats.len() - 1]);
        lemma_occurrences_absent(cats.drop_last(), key);
    }
}

proof fn lemma_occurrences_once(cats: Seq<Category>, key: Seq<char>)
    requires
        keys_sorted(cats),
        has_key(cats, key),
    ensures
        occurrences(cats, key) == 1,
    decreases cats.len(),
{
    let init = cats.drop_last();
    let n = cats.len() - 1;
    assert(cats.last() == cats[n]);
    if cats[n].key@ == key {
        assert forall|j: int| 0 <= j < init.len() implies (#[trigger] init[j]).key@ != key by {
            assert(init[j] == cats[j]);
            assert(text_lt(cats[j].key@, cats[n].key@));
            lemma_text_lt_irreflexive(key);
        }
        lemma_occurrences_absent(init, key);
    } else {
        let j = choose|j: int| 0 <= j < cats.len() && (#[trigger] cats[j]).key@ == key;
        assert(init[j] == cats[j]);
        assert(has_key(init, key));
        assert forall|a: int, b: int| 0 <= a < b < init.len() implies text_lt(#[trigger] init[a].key@, #[trigger] init[b].key@) by {
            assert(init[a] == cats[a] && init[b] == cats[b]);
        }
        lemma_occurrences_once(init, key);
    }
}

proof fn lemma_member_total_is_len(cats: Seq<Category>, docs: Seq<Guideline>)
    requires
        keys_sorted(cats),
        forall|i: int| 0 <= i < docs.len() ==> has_key(cats, #[trigger] docs[i].category@),
    ensures
        member_total(cats, docs) == docs.len(),
    decreases docs.len(),
{
    if docs.len() == 0 {
        lemma_member_total_empty(cats, docs);
    } else {
        let init = docs.drop_last();
        assert forall|i: int| 0 <= i < init.len() implies has_key(cats, #[trigger] init[i].category@) by {
            assert(init[i] == docs[i]);
        }
        lemma_member_total_is_len(cats, init);
        lemma_member_total_step(cats, docs);
        assert(docs.last() == docs[docs.len() - 1]);
        lemma_occurrences_once(cats, docs.last().category@);
    }
}

proof fn lemma_member_total_empty(cats: Seq<Category>, docs: Seq<Guideline>)
    requires
        docs.len() == 0,
    ensures
        member_total(cats, docs) == 0,
    decreases cats.len(),
{
    if cats.len() > 0 {
        lemma_member_total_empty(cats.drop_last(), docs);
    }
}

proof fn lemma_total_is_member_total(cats: Seq<Category>, docs: Seq<Guideline>)
    requires
        forall|j: int| #![trigger cats[j]] 0 <= j < cats.len() ==> cats[j].guideline_count == count_in(docs, cats[j].key@),
    ensures
        total_count(cats) == member_total(cats, docs),
    decreases cats.len(),
{
    if cats.len() > 0 {
        let init = cats.drop_last();
        assert forall|j: int| #![trigger init[j]] 0 <= j < init.len() implies init[j].guideline_count == count_in(docs, init[j].key@) by {
            assert(init[j] == cats[j]);
        }
        lemma_total_is_member_total(init, docs);
        assert(cats.last() == cats[cats.len() - 1]);
    }
}

/// One generation of a corpus: its revision, its guidelines sorted by id, and the
/// categories derived from them. A generation is replaced as a whole, never patched.
pub struct Generation {
    commit: String,
    guidelines: Vec<Guideline>,
    categories: Vec<Category>,
}

impl Generation {
    /// The corpus revision the generation was built from.
    pub closed spec fn revision(&self) -> Seq<char> {
        self.commit@
    }

    /// The guidelines, sorted by id.
    pub closed spec fn docs(&self) -> Seq<Guideline> {
        self.guidelines@
    }

    /// The categories, sorted by key.
    pub closed spec fn cats(&self) -> Seq<Category> {
        self.categories@
    }

    /// Ids are unique and sorted, and the categories are those of the guidelines;
    /// every generation keeps this.
    #[verifier::type_invariant]
    closed spec fn inv(&self) -> bool {
        &&& ids_sorted(self.guidelines@)
        &&& categories_counted(self.categories@, self.guidelines@)
    }

    /// Ids are unique and sorted, and the categories are those of the guidelines.
    pub open spec fn wf(&self) -> bool {
        &&& ids_sorted(self.docs())
        &&& categories_counted(self.cats(), self.docs())
    }

    /// Builds a generation from parsed guidelines. Where several guidelines share an
    /// id the last one is kept; the categories are counted from what is kept and
    /// named from `category_names`.
    pub fn new(commit: String, guidelines: Vec<Guideline>, category_names: &Vec<(String, String)>) -> (g: Generation)
        ensures
            g.wf(),
            g.revision() == commit@,
            keeps_last_of(g.docs(), guidelines@),
            categories_of(g.cats(), g.docs(), names_view(category_names@)),
    {
        let docs = sort_unique_by_id(guidelines);
        let cats = build_categories(&docs, category_names);
        Generation { commit, guidelines: docs, categories: cats }
    }

    /// The corpus revision.
    pub fn commit(&self) -> (r: &String)
        ensures
            r@ == self.revision(),
    {
        &self.commit
    }

    /// The guidelines, sorted by id.
    pub fn guidelines(&self) -> (r: &Vec<Guideline>)
        ensures
            r@ == self.docs(),
    {
        &self.guidelines
    }

    /// The categories, sorted by key.
    pub fn categories(&self) -> (r: &Vec<Category>)
        ensures
            r@ == self.cats(),
    {
        &self.categories
    }

    /// Number of guidelines.
    pub fn len(&self) -> (r: usize)
        ensures
            r == self.docs().len(),
            self.wf(),
    {
        proof {
            use_type_invariant(self);
        }
        self.guidelines.len()
    }

    /// The guideline whose id equals `id` up to ASCII case; of several, the first by id.
    pub fn find_guideline(&self, id: &str) -> (r: Option<&Guideline>)
        ensures
            match r {
                Some(g) => exists|i: int| 0 <= i < self.docs().len() && *g == self.docs()[i]
                    && eq_ignore_case(self.docs()[i].id@, id@)
                    && forall|k: int| 0 <= k < i ==> !eq_ignore_case(#[trigger] self.docs()[k].id@, id@),
                None => forall|k: int| 0 <= k < self.docs().len() ==> !eq_ignore_case(#[trigger] self.docs()[k].id@, id@),
            },
    {
        let mut i: usize = 0;
        while i < self.guidelines.len()
            invariant
                i <= self.docs().len(),
                self.guidelines@ == self.docs(),
                forall|k: int| 0 <= k < i ==> !eq_ignore_case(#[trigger] self.docs()[k].id@, id@),
            decreases self.docs().len() - i,
        {
            if eq_ignore_ascii_case(self.guidelines[i].id.as_str(), id) {
                return Some(&self.guidelines[i]);
            }
            i += 1;
        }
        None
    }

    /// Index of the category whose key equals `key` up to ASCII case; of several, the first by key.
    pub fn find_category(&self, key: &str) -> (r: Option<usize>)
        ensures
            match r {
                Some(j) => j < self.cats().len() && eq_ignore_case(self.cats()[j as int].key@, key@)
                    && forall|k: int| 0 <= k < j ==> !eq_ignore_case(#[trigger] self.cats()[k].key@, key@),
                None => forall|k: int| 0 <= k < self.cats().len() ==> !eq_ignore_case(#[trigger] self.cats()[k].key@, key@),
            },
    {
        let mut j: usize = 0;
        while j < self.categories.len()
            invariant
                j <= self.cats().len(),
                self.categories@ == self.cats(),
                forall|k: int| 0 <= k < j ==> !eq_ignore_case(#[trigger] self.cats()[k].key@, key@),
            decreases self.cats().len() - j,
        {
            if eq_ignore_ascii_case(self.categories[j].key.as_str(), key) {
                return Some(j);
            }
            j += 1;
        }
        None
    }

    /// Ids of the guidelines in the category `key` (exact match), ascending.
    pub fn member_ids(&self, key: &str) -> (r: Vec<String>)
        ensures
            r@.len() == members(self.docs(), key@).len(),
            forall|t: int| 0 <= t < r@.len() ==> (#[trigger] r@[t])@ == members(self.docs(), key@)[t].id@,
    {
        let mut out: Vec<String> = Vec::new();
        let mut i: usize = 0;
        while i < self.guidelines.len()
            invariant
                i <= self.docs().len(),
                self.guidelines@ == self.docs(),
                out@.len() == members(self.docs().subrange(0, i as int), key@).len(),
                forall|t: int| 0 <= t < out@.len() ==> (#[trigger] out@[t])@ == members(self.docs().subrange(0, i as int), key@)[t].id@,
            decreases self.docs().len() - i,
        {
            let ghost prev = self.docs().subrange(0, i as int);
            let ghost next = self.docs().subrange(0, i + 1);
            assert(next.drop_last() =~= prev);
            assert(next.last() == self.docs()[i as int]);
            if text_eq(self.guidelines[i].category.as_str(), key) {
                out.push(self.guidelines[i].id.clone());
            }
            i += 1;
        }
        assert(self.docs().subrange(0, i as int) =~= self.docs());
        out
    }

    /// Id and title of each guideline in the category `key` (exact match), ascending by id.
    pub fn summaries(&self, key: &str) -> (r: Vec<GuidelineSummary>)
        ensures
            r@.len() == members(self.docs(), key@).len(),
            forall|t: int| 0 <= t < r@.len() ==> {
                &&& (#[trigger] r@[t]).id@ == members(self.docs(), key@)[t].id@
                &&& r@[t].title@ == members(self.docs(), key@)[t].title@
            },
    {
        let mut out: Vec<GuidelineSummary> = Vec::new();
        let mut i: usize = 0;
        while i < self.guidelines.len()
            invariant
                i <= self.docs().len(),
                self.guidelines@ == self.docs(),
                out@.len() == members(self.docs().subrange(0, i as int), key@).len(),
                forall|t: int| 0 <= t < out@.len() ==> {
                    &&& (#[trigger] out@[t]).id@ == members(self.docs().subrange(0, i as int), key@)[t].id@
                    &&& out@[t].title@ == members(self.docs().subrange(0, i as int), key@)[t].title@
                },
            decreases self.docs().len() - i,
        {
            let ghost prev = self.docs().subrange(0, i as int);
            let ghost next = self.docs().subrange(0, i + 1);
            assert(next.drop_last() =~= prev);
            assert(next.last() == self.docs()[i as int]);
            let g = &self.guidelines[i];
            if text_eq(g.category.as_str(), key) {
                out.push(GuidelineSummary { id: g.id.clone(), title: g.title.clone() });
            }
            i += 1;
        }
        assert(self.docs().subrange(0, i as int) =~= self.docs());
        out
    }

    /// The category whose key equals `category` up to ASCII case (of several, the
    /// first by key), with its guidelines in id order; `UnknownCategory` where none matches.
    pub fn list_category(&self, category: &str) -> (r: Result<CategoryListResponse, AppError>)
        ensures
            r is Err <==> forall|k: int| 0 <= k < self.cats().len() ==> !eq_ignore_case(#[trigger] self.cats()[k].key@, category@),
            r matches Err(e) ==> e matches AppError::UnknownCategory(c) && c@ == category@,
            r matches Ok(resp) ==> forall|a: int, b: int| 0 <= a < b < resp.guidelines@.len()
                ==> text_lt(#[trigger] resp.guidelines@[a].id@, #[trigger] resp.guidelines@[b].id@),
            r matches Ok(resp) ==> exists|j: int| 0 <= j < self.cats().len()
                && eq_ignore_case(self.cats()[j].key@, category@)
                && (forall|k: int| 0 <= k < j ==> !eq_ignore_case(#[trigger] self.cats()[k].key@, category@))
                && resp.category.key@ == self.cats()[j].key@
                && resp.category.display_name@ == self.cats()[j].display_name@
                && resp.category.guideline_count == self.cats()[j].guideline_count
                && resp.guidelines@.len() == members(self.docs(), self.cats()[j].key@).len()
                && forall|t: int| 0 <= t < resp.guidelines@.len() ==> {
                    &&& (#[trigger] resp.guidelines@[t]).id@ == members(self.docs(), self.cats()[j].key@)[t].id@
                    &&& resp.guidelines@[t].title@ == members(self.docs(), self.cats()[j].key@)[t].title@
                },
    {
        match self.find_category(category) {
            None => Err(AppError::UnknownCategory(category.to_owned())),
            Some(j) => {
                proof {
                    use_type_invariant(self);
                    lemma_members_sorted(self.docs(), self.cats()[j as int].key@);
                }
                let cat = &self.categories[j];
                let guidelines = self.summaries(cat.key.as_str());
                let info = CategoryInfo {
                    key: cat.key.clone(),
                    display_name: cat.display_name.clone(),
                    guideline_count: cat.guideline_count,
                };
                Ok(CategoryListResponse { category: info, guidelines })
            },
        }
    }

    /// Keys of all categories, ascending.
    pub fn category_keys(&self) -> (r: Vec<String>)
        ensures
            r@.len() == self.cats().len(),
            forall|j: int| 0 <= j < r@.len() ==> (#[trigger] r@[j])@ == self.cats()[j].key@,
    {
        let mut out: Vec<String> = Vec::new();
        let mut j: usize = 0;
        while j < self.categories.len()
            invariant
                j <= self.cats().len(),
                self.categories@ == self.cats(),
                out@.len() == j,
                forall|k: int| 0 <= k < j ==> (#[trigger] out@[k])@ == self.cats()[k].key@,
            decreases self.cats().len() - j,
        {
            out.push(self.categories[j].key.clone());
            j += 1;
        }
        out
    }
}

/// Key and display name of each category, in order.
pub fn category_names(cats: &Vec<Category>) -> (r: Vec<(String, String)>)
    ensures
        r@.len() == cats@.len(),
        forall|j: int| 0 <= j < r@.len() ==> (#[trigger] r@[j]).0@ == cats@[j].key@ && r@[j].1@ == cats@[j].display_name@,
{
    let mut out: Vec<(String, String)> = Vec::new();
    let mut j: usize = 0;
    while j < cats.len()
        invariant
            j <= cats@.len(),
            out@.len() == j,
            forall|k: int| 0 <= k < j ==> (#[trigger] out@[k]).0@ == cats@[k].key@ && out@[k].1@ == cats@[k].display_name@,
        decreases cats@.len() - j,
    {
        out.push((cats[j].key.clone(), cats[j].display_name.clone()));
        j += 1;
    }
    out
}

proof fn lemma_members_sorted(docs: Seq<Guideline>, key: Seq<char>)
    requires
        ids_sorted(docs),
    ensures
        ids_sorted(members(docs, key)),
        forall|t: int| 0 <= t < members(docs, key).len() ==> exists|i: int| 0 <= i < docs.len()
            && #[trigger] members(docs, key)[t] == docs[i],
    decreases docs.len(),
{
    if docs.len() > 0 {
        let init = docs.drop_last();
        let n = docs.len() - 1;
        assert forall|a: int, b: int| 0 <= a < b < init.len() implies text_lt(#[trigger] init[a].id@, #[trigger] init[b].id@) by {
            assert(init[a] == docs[a] && init[b] == docs[b]);
        }
        lemma_members_sorted(init, key);
        let mi = members(init, key);
        assert forall|t: int| 0 <= t < mi.len() implies exists|i: int| 0 <= i < n
            && #[trigger] mi[t] == docs[i] by {
            let i = choose|i: int| 0 <= i < init.len() && #[trigger] mi[t] == init[i];
            assert(init[i] == docs[i]);
        }
        if docs.last().category@ == key {
            let m = members(docs, key);
            assert(m == mi.push(docs[n]));
            assert forall|a: int, b: int| 0 <= a < b < m.len() implies text_lt(#[trigger] m[a].id@, #[trigger] m[b].id@) by {
                if b == mi.len() {
                    let i = choose|i: int| 0 <= i < n && #[trigger] mi[a] == docs[i];
                    assert(m[a] == docs[i]);
                } else {
                    assert(m[a] == mi[a] && m[b] == mi[b]);
                }
            }
            assert forall|t: int| 0 <= t < m.len() implies exists|i: int| 0 <= i < docs.len()
                && #[trigger] m[t] == docs[i] by {
                if t == mi.len() {
                    assert(m[t] == docs[n]);
                } else {
                    assert(m[t] == mi[t]);
                    let i = choose|i: int| 0 <= i < n && #[trigger] mi[t] == docs[i];
                }
            }
        }
    }
}

/// Where `cats` are the categories counted from `docs`, their counts add up to the
/// number of guidelines.
pub proof fn lemma_counts_add_up(cats: Seq<Category>, docs: Seq<Guideline>)
    requires
        categories_counted(cats, docs),
    ensures
        total_count(cats) == docs.len(),
{
    lemma_total_is_member_total(cats, docs);
    lemma_member_total_is_len(cats, docs);
}

/// Every guideline id of a well-formed generation is unique, and the guideline
/// counts of its categories add up to the number of guidelines.
pub proof fn lemma_generation_consistent(g: &Generation)
    requires
        g.wf(),
    ensures
        forall|i: int, j: int| 0 <= i < g.docs().len() && 0 <= j < g.docs().len() && i != j
            ==> (#[trigger] g.docs()[i]).id@ != (#[trigger] g.docs()[j]).id@,
        total_count(g.cats()) == g.docs().len(),
{
    let docs = g.docs();
    assert forall|i: int, j: int| 0 <= i < docs.len() && 0 <= j < docs.len() && i != j
        implies (#[trigger] docs[i]).id@ != (#[trigger] docs[j]).id@ by {
        lemma_text_lt_irreflexive(docs[i].id@);
        lemma_text_lt_irreflexive(docs[j].id@);
    }
    lemma_counts_add_up(g.cats(), docs);
}

} // verus!
