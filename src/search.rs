//! Filtering the asset list by a search query.
use vstd::prelude::*;
use crate::catalog::{find_from, occurs_at};
use crate::model::texts;
use crate::state::{AssetView, CollectionRef};
use crate::text::{lower_of, lowercase, views_of};

verus! {

/// The search box: whether it is being edited, the applied query, and the
/// text being typed.
#[derive(Debug, Clone, Default)]
pub struct SearchState {
    pub active: bool,
    pub query: String,
    pub draft: String,
}

impl SearchState {
    pub fn is_active(&self) -> (r: bool)
        ensures
            r == self.active,
    {
        self.active
    }

    pub fn query(&self) -> (r: &str)
        ensures
            r@ == self.query@,
    {
        self.query.as_str()
    }

    pub fn draft(&self) -> (r: &str)
        ensures
            r@ == self.draft@,
    {
        self.draft.as_str()
    }
}

/// The slug, or nothing.
pub open spec fn slug_text(v: AssetView) -> Seq<char> {
    match v.slug {
        Some(s) => s@,
        None => Seq::empty(),
    }
}

pub open spec fn ref_texts(refs: Seq<CollectionRef>) -> Seq<Seq<char>>
    decreases refs.len(),
{
    if refs.len() == 0 {
        Seq::empty()
    } else {
        ref_texts(refs.drop_last()).push(refs.last().id@).push(refs.last().name@)
    }
}

/// Every text a query is matched against: name, path, slug, description,
/// tags, patterns, and the id and name of each collection listing the asset.
pub open spec fn haystack(v: AssetView) -> Seq<Seq<char>> {
    seq![v.name@, v.path@, slug_text(v), v.description@] + texts(v.tags@) + texts(v.apply_to@) + ref_texts(
        v.collections@,
    )
}

/// `q` occurs in `s`.
pub open spec fn has_sub(s: Seq<char>, q: Seq<char>) -> bool {
    exists|i: int| #[trigger] occurs_at(s, q, i)
}

fn append_texts(h: &mut Vec<String>, v: &Vec<String>)
    ensures
        views_of(final(h)@) == views_of(old(h)@) + texts(v@),
{
    let ghost start = views_of(h@);
    let mut i: usize = 0;
    while i < v.len()
        invariant
            i <= v.len(),
            views_of(h@) == start + texts(v@).take(i as int),
        decreases v.len() - i,
    {
        let ghost before = views_of(h@);
        h.push(v[i].clone());
        assert(views_of(h@) =~= before.push(v@[i as int]@));
        assert(start + texts(v@).take(i as int + 1) =~= (start + texts(v@).take(i as int)).push(v@[i as int]@));
        i = i + 1;
    }
    assert(texts(v@).take(v.len() as int) =~= texts(v@));
}

/// Whether the lower-cased `query` occurs in the lower-cased form of any
/// text of the asset.
pub fn asset_matches(asset: &AssetView, query: &str) -> (r: bool)
    ensures
        r == exists|i: int| 0 <= i < haystack(*asset).len() && has_sub(lower_of(#[trigger] haystack(*asset)[i]), query@),
{
    let mut h: Vec<String> = Vec::new();
    h.push(asset.name.clone());
    h.push(asset.path.clone());
    match &asset.slug {
        Some(s) => h.push(s.clone()),
        None => h.push(String::new()),
    }
    h.push(asset.description.clone());
    assert(views_of(h@) =~= seq![asset.name@, asset.path@, slug_text(*asset), asset.description@]);
    append_texts(&mut h, &asset.tags);
    append_texts(&mut h, &asset.apply_to);
    let mut c: usize = 0;
    let ghost base = views_of(h@);
    while c < asset.collections.len()
        invariant
            c <= asset.collections.len(),
            views_of(h@) == base + ref_texts(asset.collections@.take(c as int)),
        decreases asset.collections.len() - c,
    {
        let ghost before = views_of(h@);
        h.push(asset.collections[c].id.clone());
        h.push(asset.collections[c].name.clone());
        proof {
            let t = asset.collections@.take(c as int + 1);
            assert(t.drop_last() =~= asset.collections@.take(c as int));
            assert(views_of(h@) =~= before.push(t.last().id@).push(t.last().name@));
        }
        c = c + 1;
    }
    assert(asset.collections@.take(asset.collections.len() as int) =~= asset.collections@);
    assert(views_of(h@) =~= haystack(*asset));
    let mut i: usize = 0;
    while i < h.len()
        invariant
            views_of(h@) == haystack(*asset),
            i <= h.len(),
            forall|k: int| 0 <= k < i ==> !has_sub(lower_of(#[trigger] haystack(*asset)[k]), query@),
        decreases h.len() - i,
    {
        let lowered = lowercase(h[i].as_str());
        assert(haystack(*asset)[i as int] == h@[i as int]@);
        match find_from(lowered.as_str(), query, 0) {
            Some(_) => {
                return true;
            },
            None => {},
        }
        i = i + 1;
    }
    false
}

} // verus!
