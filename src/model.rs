//! Catalog entities and the lookup index derived from them.
use vstd::prelude::*;
use crate::text::{seq_lt, text_eq, text_lt, lemma_seq_lt_total, lemma_seq_lt_transitive};

verus! {

/// The four kinds of catalog asset.
#[derive(Debug, Clone, Copy, PartialEq, Eq, Hash, PartialOrd, Ord, Structural)]
pub enum AssetKind {
    Prompt,
    Instruction,
    ChatMode,
    Collection,
}

#[derive(Debug, Clone)]
pub struct Prompt {
    pub path: String,
    pub slug: String,
    pub name: String,
    pub description: String,
    pub mode: String,
    pub tags: Vec<String>,
    pub sha256: String,
}

#[derive(Debug, Clone)]
pub struct Instruction {
    pub path: String,
    pub slug: String,
    pub name: String,
    pub description: String,
    pub apply_to: Vec<String>,
    pub tags: Vec<String>,
    pub sha256: String,
}

#[derive(Debug, Clone)]
pub struct ChatMode {
    pub path: String,
    pub slug: String,
    pub name: String,
    pub description: String,
    pub tools: Vec<String>,
    pub tags: Vec<String>,
    pub sha256: String,
}

/// A reference from a collection to another asset, by kind and path.
#[derive(Debug, Clone)]
pub struct CollectionItem {
    pub path: String,
    pub kind: AssetKind,
}

#[derive(Debug, Clone)]
pub struct Collection {
    pub path: String,
    pub id: String,
    pub slug: String,
    pub name: String,
    pub description: String,
    pub tags: Vec<String>,
    pub items: Vec<CollectionItem>,
    pub sha256: String,
}

/// The collection ids that list one asset path, sorted ascending.
#[derive(Debug, Clone)]
pub struct Membership {
    pub path: String,
    pub ids: Vec<String>,
}

/// The catalog: every asset of every kind, and the reverse membership index
/// that `finalize` derives from the collections.
#[derive(Debug, Clone)]
pub struct Catalog {
    pub prompts: Vec<Prompt>,
    pub instructions: Vec<Instruction>,
    pub chat_modes: Vec<ChatMode>,
    pub collections: Vec<Collection>,
    pub membership: Vec<Membership>,
}

/// The character sequences of a sequence of strings.
pub open spec fn texts(v: Seq<String>) -> Seq<Seq<char>> {
    v.map_values(|s: String| s@)
}

/// Strictly ascending, hence free of duplicates.
pub open spec fn sorted_strict(s: Seq<Seq<char>>) -> bool {
    forall|i: int, j: int| 0 <= i < j < s.len() ==> seq_lt(#[trigger] s[i], #[trigger] s[j])
}

/// Whether collection `c` lists an item at path `p`.
pub open spec fn lists(c: Collection, p: Seq<char>) -> bool {
    exists|k: int| 0 <= k < c.items.len() && c.items[k].path@ == p
}

impl Default for Catalog {
    fn default() -> (r: Self)
        ensures
            r.prompts.len() == 0,
            r.instructions.len() == 0,
            r.chat_modes.len() == 0,
            r.collections.len() == 0,
            r.membership.len() == 0,
    {
        Catalog {
            prompts: Vec::new(),
            instructions: Vec::new(),
            chat_modes: Vec::new(),
            collections: Vec::new(),
            membership: Vec::new(),
        }
    }
}

impl Catalog {
    /// The paths of the assets of one kind, in catalog order.
    pub open spec fn paths_of(&self, kind: AssetKind) -> Seq<Seq<char>> {
        match kind {
            AssetKind::Prompt => self.prompts@.map_values(|a: Prompt| a.path@),
            AssetKind::Instruction => self.instructions@.map_values(|a: Instruction| a.path@),
            AssetKind::ChatMode => self.chat_modes@.map_values(|a: ChatMode| a.path@),
            AssetKind::Collection => self.collections@.map_values(|a: Collection| a.path@),
        }
    }

    /// Whether the catalog holds an asset of `kind` at path `p`.
    pub open spec fn has(&self, kind: AssetKind, p: Seq<char>) -> bool {
        self.paths_of(kind).contains(p)
    }

    /// Ids of the collections that list path `p`.
    pub open spec fn member_ids(&self, p: Seq<char>) -> Set<Seq<char>> {
        Set::new(
            |id: Seq<char>|
                exists|j: int|
                    0 <= j < self.collections.len() && self.collections[j].id@ == id && lists(
                        self.collections[j],
                        p,
                    ),
        )
    }

    /// `ids` is exactly the ascending list of the ids of collections listing `p`.
    pub open spec fn is_membership_of(&self, p: Seq<char>, ids: Seq<Seq<char>>) -> bool {
        &&& sorted_strict(ids)
        &&& forall|id: Seq<char>| ids.contains(id) <==> #[trigger] self.member_ids(p).contains(id)
    }

    /// `j` is the first collection carrying id `id`.
    pub open spec fn first_with_id(&self, j: int, id: Seq<char>) -> bool {
        &&& 0 <= j < self.collections.len()
        &&& self.collections[j].id@ == id
        &&& forall|k: int| 0 <= k < j ==> self.collections[k].id@ != id
    }

    /// `j` is the first collection at path `p`.
    pub open spec fn first_with_path(&self, j: int, p: Seq<char>) -> bool {
        &&& 0 <= j < self.collections.len()
        &&& self.collections[j].path@ == p
        &&& forall|k: int| 0 <= k < j ==> self.collections[k].path@ != p
    }

    /// The membership index agrees with the collections: each entry holds
    /// the sorted ids of the collections listing its path, and every listed
    /// path has an entry.
    pub open spec fn index_wf(&self) -> bool {
        &&& forall|e: int|
            0 <= e < self.membership.len() ==> self.is_membership_of(
                #[trigger] self.membership[e].path@,
                texts(self.membership[e].ids@),
            )
        &&& forall|j: int, k: int|
            0 <= j < self.collections.len() && 0 <= k < self.collections[j].items.len()
                ==> #[trigger] self.has_entry(self.collections[j].items[k].path@)
    }

    pub open spec fn has_entry(&self, p: Seq<char>) -> bool {
        exists|e: int| 0 <= e < self.membership.len() && self.membership[e].path@ == p
    }

    /// Builds the membership index from the collections; the assets
    /// themselves are kept as they are.
    pub fn finalize(self) -> (r: Self)
        ensures
            r.prompts == self.prompts,
            r.instructions == self.instructions,
            r.chat_modes == self.chat_modes,
            r.collections == self.collections,
            r.index_wf(),
    {
        let mut cat = self;
        let mut index: Vec<Membership> = Vec::new();
        let n = cat.collections.len();
        let mut j: usize = 0;
        while j < n
            invariant
                n == cat.collections.len(),
                cat.collections == self.collections,
                cat.prompts == self.prompts,
                cat.instructions == self.instructions,
                cat.chat_modes == self.chat_modes,
                j <= n,
                forall|e: int|
                    0 <= e < index.len() ==> cat.is_membership_of(
                        #[trigger] index[e].path@,
                        texts(index[e].ids@),
                    ),
                forall|jj: int, k: int|
                    0 <= jj < j && 0 <= k < cat.collections[jj].items.len() ==> #[trigger] paths_in(
                        index@,
                    ).contains(cat.collections[jj].items[k].path@),
            decreases n - j,
        {
            let m = cat.collections[j].items.len();
            let mut k: usize = 0;
            while k < m
                invariant
                    n == cat.collections.len(),
                    cat.collections == self.collections,
                    cat.prompts == self.prompts,
                    cat.instructions == self.instructions,
                    cat.chat_modes == self.chat_modes,
                    j < n,
                    m == cat.collections[j as int].items.len(),
                    k <= m,
                    forall|e: int|
                        0 <= e < index.len() ==> cat.is_membership_of(
                            #[trigger] index[e].path@,
                            texts(index[e].ids@),
                        ),
                    forall|jj: int, kk: int|
                        0 <= jj < j && 0 <= kk < cat.collections[jj].items.len()
                            ==> #[trigger] paths_in(index@).contains(cat.collections[jj].items[kk].path@),
                    forall|kk: int|
                        0 <= kk < k ==> #[trigger] paths_in(index@).contains(
                            cat.collections[j as int].items[kk].path@,
                        ),
                decreases m - k,
            {
                let p = &cat.collections[j].items[k].path;
                if !index_has(&index, p.as_str()) {
                    let ids = cat.collect_member_ids(p.as_str());
                    let ghost before = index@;
                    let entry = Membership { path: p.clone(), ids };
                    index.push(entry);
                    proof {
                        assert(index@ == before.push(entry));
                        assert(paths_in(index@) =~= paths_in(before).push(p@));
                        lemma_push_keeps(paths_in(before), p@);
                    }
                } else {
                    proof {
                        let e = choose|e: int| 0 <= e < index.len() && index[e].path@ == p@;
                        assert(paths_in(index@)[e] == p@);
                    }
                }
                k = k + 1;
            }
            j = j + 1;
        }
        let ghost cat0 = cat;
        cat.membership = index;
        proof {
            assert forall|e: int|
                0 <= e < cat.membership.len() implies cat.is_membership_of(
                #[trigger] cat.membership[e].path@,
                texts(cat.membership[e].ids@),
            ) by {
                let q = cat.membership[e].path@;
                assert(cat0.is_membership_of(q, texts(cat.membership[e].ids@)));
                assert(cat.member_ids(q) =~= cat0.member_ids(q));
            }
            assert forall|jj: int, kk: int|
                0 <= jj < cat.collections.len() && 0 <= kk < cat.collections[jj].items.len()
                implies #[trigger] cat.has_entry(cat.collections[jj].items[kk].path@) by {
                let q = cat.collections[jj].items[kk].path@;
                assert(paths_in(cat.membership@).contains(q));
                let e = choose|e: int| 0 <= e < paths_in(cat.membership@).len() && paths_in(cat.membership@)[e] == q;
                assert(cat.membership[e].path@ == q);
            }
        }
        cat
    }

    /// Whether an asset of `kind` at `path` is in the catalog.
    pub fn contains(&self, kind: AssetKind, path: &str) -> (r: bool)
        ensures
            r == self.has(kind, path@),
    {
        let mut i: usize = 0;
        match kind {
            AssetKind::Prompt => {
                let ghost ps = self.paths_of(kind);
                assert(ps.len() == self.prompts.len());
                while i < self.prompts.len()
                    invariant
                        i <= self.prompts.len(),
                        kind == AssetKind::Prompt,
                        ps == self.paths_of(kind),
                        ps.len() == self.prompts.len(),
                        forall|k: int| 0 <= k < i ==> ps[k] != path@,
                    decreases self.prompts.len() - i,
                {
                    assert(ps[i as int] == self.prompts[i as int].path@);
                    if text_eq(self.prompts[i].path.as_str(), path) {
                        return true;
                    }
                    i = i + 1;
                }
            },
            AssetKind::Instruction => {
                let ghost ps = self.paths_of(kind);
                assert(ps.len() == self.instructions.len());
                while i < self.instructions.len()
                    invariant
                        i <= self.instructions.len(),
                        kind == AssetKind::Instruction,
                        ps == self.paths_of(kind),
                        ps.len() == self.instructions.len(),
                        forall|k: int| 0 <= k < i ==> ps[k] != path@,
                    decreases self.instructions.len() - i,
                {
                    assert(ps[i as int] == self.instructions[i as int].path@);
                    if text_eq(self.instructions[i].path.as_str(), path) {
                        return true;
                    }
                    i = i + 1;
                }
            },
            AssetKind::ChatMode => {
                let ghost ps = self.paths_of(kind);
                assert(ps.len() == self.chat_modes.len());
                while i < self.chat_modes.len()
                    invariant
                        i <= self.chat_modes.len(),
                        kind == AssetKind::ChatMode,
                        ps == self.paths_of(kind),
                        ps.len() == self.chat_modes.len(),
                        forall|k: int| 0 <= k < i ==> ps[k] != path@,
                    decreases self.chat_modes.len() - i,
                {
                    assert(ps[i as int] == self.chat_modes[i as int].path@);
                    if text_eq(self.chat_modes[i].path.as_str(), path) {
                        return true;
                    }
                    i = i + 1;
                }
            },
            AssetKind::Collection => {
                let ghost ps = self.paths_of(kind);
                assert(ps.len() == self.collections.len());
                while i < self.collections.len()
                    invariant
                        i <= self.collections.len(),
                        kind == AssetKind::Collection,
                        ps == self.paths_of(kind),
                        ps.len() == self.collections.len(),
                        forall|k: int| 0 <= k < i ==> ps[k] != path@,
                    decreases self.collections.len() - i,
                {
                    assert(ps[i as int] == self.collections[i as int].path@);
                    if text_eq(self.collections[i].path.as_str(), path) {
                        return true;
                    }
                    i = i + 1;
                }
            },
        }
        proof {
            let ps = self.paths_of(kind);
            if ps.contains(path@) {
                let k = choose|k: int| 0 <= k < ps.len() && ps[k] == path@;
            }
        }
        false
    }

    /// Index of the first collection with id `id`.
    pub fn collection_index_by_id(&self, id: &str) -> (r: Option<usize>)
        ensures
            match r {
                Some(j) => self.first_with_id(j as int, id@),
                None => forall|k: int| 0 <= k < self.collections.len() ==> self.collections[k].id@ != id@,
            },
    {
        let mut i: usize = 0;
        while i < self.collections.len()
            invariant
                i <= self.collections.len(),
                forall|k: int| 0 <= k < i ==> self.collections[k].id@ != id@,
            decreases self.collections.len() - i,
        {
            if text_eq(self.collections[i].id.as_str(), id) {
                return Some(i);
            }
            i = i + 1;
        }
        None
    }

    /// Index of the first collection at path `path`.
    pub fn collection_index_by_path(&self, path: &str) -> (r: Option<usize>)
        ensures
            match r {
                Some(j) => self.first_with_path(j as int, path@),
                None => forall|k: int| 0 <= k < self.collections.len() ==> self.collections[k].path@ != path@,
            },
    {
        let mut i: usize = 0;
        while i < self.collections.len()
            invariant
                i <= self.collections.len(),
                forall|k: int| 0 <= k < i ==> self.collections[k].path@ != path@,
            decreases self.collections.len() - i,
        {
            if text_eq(self.collections[i].path.as_str(), path) {
                return Some(i);
            }
            i = i + 1;
        }
        None
    }

    /// The first collection with id `id`.
    pub fn collection_by_id(&self, id: &str) -> (r: Option<&Collection>)
        ensures
            match r {
                Some(c) => exists|j: int| self.first_with_id(j, id@) && *c == self.collections[j],
                None => forall|k: int| 0 <= k < self.collections.len() ==> self.collections[k].id@ != id@,
            },
    {
        match self.collection_index_by_id(id) {
            Some(j) => Some(&self.collections[j]),
            None => None,
        }
    }

    /// The first collection at path `path`.
    pub fn collection_by_path(&self, path: &str) -> (r: Option<&Collection>)
        ensures
            match r {
                Some(c) => exists|j: int| self.first_with_path(j, path@) && *c == self.collections[j],
                None => forall|k: int| 0 <= k < self.collections.len() ==> self.collections[k].path@ != path@,
            },
    {
        match self.collection_index_by_path(path) {
            Some(j) => Some(&self.collections[j]),
            None => None,
        }
    }

    /// The ascending ids of the collections that list `path`, from the index.
    pub fn memberships(&self, path: &str) -> (r: Vec<String>)
        requires
            self.index_wf(),
        ensures
            self.is_membership_of(path@, texts(r@)),
    {
        let mut e: usize = 0;
        while e < self.membership.len()
            invariant
                self.index_wf(),
                e <= self.membership.len(),
                forall|x: int| 0 <= x < e ==> self.membership[x].path@ != path@,
            decreases self.membership.len() - e,
        {
            if text_eq(self.membership[e].path.as_str(), path) {
                assert(self.is_membership_of(self.membership[e as int].path@, texts(self.membership[e as int].ids@)));
                return copy_texts(&self.membership[e].ids);
            }
            e = e + 1;
        }
        let r: Vec<String> = Vec::new();
        proof {
            assert forall|id: Seq<char>| texts(r@).contains(id) <==> #[trigger] self.member_ids(path@).contains(id) by {
                if self.member_ids(path@).contains(id) {
                    let j = choose|j: int|
                        0 <= j < self.collections.len() && self.collections[j].id@ == id && lists(
                            self.collections[j],
                            path@,
                        );
                    let k = choose|k: int| 0 <= k < self.collections[j].items.len() && self.collections[j].items[k].path@ == path@;
                    assert(self.has_entry(self.collections[j].items[k].path@));
                }
            }
        }
        r
    }

    /// Computes the ascending ids of the collections that list `path`
    /// directly from the collections.
    fn collect_member_ids(&self, path: &str) -> (r: Vec<String>)
        ensures
            self.is_membership_of(path@, texts(r@)),
    {
        let mut r: Vec<String> = Vec::new();
        let mut j: usize = 0;
        while j < self.collections.len()
            invariant
                j <= self.collections.len(),
                sorted_strict(texts(r@)),
                forall|id: Seq<char>|
                    #[trigger] texts(r@).contains(id) <==> exists|jj: int|
                        0 <= jj < j && self.collections[jj].id@ == id && lists(self.collections[jj], path@),
            decreases self.collections.len() - j,
        {
            if collection_lists(&self.collections[j], path) {
                let id = self.collections[j].id.clone();
                insert_sorted(&mut r, id);
                proof {
                    assert forall|x: Seq<char>|
                        #[trigger] texts(r@).contains(x) <==> exists|jj: int|
                            0 <= jj < j + 1 && self.collections[jj].id@ == x && lists(self.collections[jj], path@) by {
                        if exists|jj: int| 0 <= jj < j + 1 && self.collections[jj].id@ == x && lists(self.collections[jj], path@) {
                            let jj = choose|jj: int| 0 <= jj < j + 1 && self.collections[jj].id@ == x && lists(self.collections[jj], path@);
                            if jj < j {
                                assert(exists|j2: int| 0 <= j2 < j && self.collections[j2].id@ == x && lists(self.collections[j2], path@));
                            }
                        }
                    }
                }
            } else {
                proof {
                    assert forall|x: Seq<char>|
                        #[trigger] texts(r@).contains(x) <==> exists|jj: int|
                            0 <= jj < j + 1 && self.collections[jj].id@ == x && lists(self.collections[jj], path@) by {
                        if exists|jj: int| 0 <= jj < j + 1 && self.collections[jj].id@ == x && lists(self.collections[jj], path@) {
                            let jj = choose|jj: int| 0 <= jj < j + 1 && self.collections[jj].id@ == x && lists(self.collections[jj], path@);
                            assert(jj != j);
                        }
                    }
                }
            }
            j = j + 1;
        }
        r
    }
}

/// Whether collection `c` lists an item at `path`.
pub fn collection_lists(c: &Collection, path: &str) -> (r: bool)
    ensures
        r == lists(*c, path@),
{
    let mut k: usize = 0;
    while k < c.items.len()
        invariant
            k <= c.items.len(),
            forall|x: int| 0 <= x < k ==> c.items[x].path@ != path@,
        decreases c.items.len() - k,
    {
        if text_eq(c.items[k].path.as_str(), path) {
            return true;
        }
        k = k + 1;
    }
    false
}

fn index_has(index: &Vec<Membership>, path: &str) -> (r: bool)
    ensures
        r == exists|e: int| 0 <= e < index.len() && index[e].path@ == path@,
{
    let mut e: usize = 0;
    while e < index.len()
        invariant
            e <= index.len(),
            forall|x: int| 0 <= x < e ==> index[x].path@ != path@,
        decreases index.len() - e,
    {
        if text_eq(index[e].path.as_str(), path) {
            return true;
        }
        e = e + 1;
    }
    false
}

/// The paths of a membership index, in order.
pub open spec fn paths_in(index: Seq<Membership>) -> Seq<Seq<char>> {
    index.map_values(|m: Membership| m.path@)
}

proof fn lemma_push_keeps(s: Seq<Seq<char>>, x: Seq<char>)
    ensures
        forall|y: Seq<char>| #[trigger] s.push(x).contains(y) <==> (s.contains(y) || y == x),
{
    assert forall|y: Seq<char>| #[trigger] s.push(x).contains(y) <==> (s.contains(y) || y == x) by {
        if s.contains(y) {
            let i = choose|i: int| 0 <= i < s.len() && s[i] == y;
            assert(s.push(x)[i] == y);
        }
        if y == x {
            assert(s.push(x)[s.len() as int] == y);
        }
        if s.push(x).contains(y) {
            let i = choose|i: int| 0 <= i < s.len() + 1 && s.push(x)[i] == y;
            if i < s.len() {
                assert(s[i] == y);
            }
        }
    }
}

/// A copy of `v`, string by string.
pub fn copy_texts(v: &Vec<String>) -> (r: Vec<String>)
    ensures
        texts(r@) == texts(v@),
{
    let mut r: Vec<String> = Vec::new();
    let mut i: usize = 0;
    while i < v.len()
        invariant
            i <= v.len(),
            r.len() == i,
            forall|k: int| 0 <= k < i ==> #[trigger] r@[k]@ == v@[k]@,
        decreases v.len() - i,
    {
        let c = v[i].clone();
        r.push(c);
        i = i + 1;
    }
    assert(texts(r@) =~= texts(v@));
    r
}

/// Inserts `x` into the strictly ascending `v`, unless it is there already.
pub fn insert_sorted(v: &mut Vec<String>, x: String)
    requires
        sorted_strict(texts(old(v)@)),
    ensures
        sorted_strict(texts(final(v)@)),
        forall|s: Seq<char>| #[trigger] texts(final(v)@).contains(s) <==> (texts(old(v)@).contains(s) || s == x@),
{
    let ghost old_t = texts(v@);
    let mut p: usize = 0;
    while p < v.len() && text_lt(v[p].as_str(), x.as_str())
        invariant
            p <= v.len(),
            texts(v@) == old_t,
            forall|i: int| 0 <= i < p ==> seq_lt(#[trigger] old_t[i], x@),
        decreases v.len() - p,
    {
        p = p + 1;
    }
    if p < v.len() && text_eq(v[p].as_str(), x.as_str()) {
        assert(old_t[p as int] == x@);
        return;
    }
    let ghost xv = x@;
    proof {
        if p < v.len() {
            lemma_seq_lt_total(old_t[p as int], xv);
        }
    }
    v.insert(p, x);
    proof {
        let t = texts(v@);
        assert(t =~= old_t.insert(p as int, xv));
        assert forall|i: int, j: int| 0 <= i < j < t.len() implies seq_lt(#[trigger] t[i], #[trigger] t[j]) by {
            if j < p {
            } else if j == p {
            } else if i < p {
                lemma_seq_lt_transitive(t[i], xv, old_t[p as int]);
                if j - 1 > p {
                    lemma_seq_lt_transitive(t[i], old_t[p as int], t[j]);
                }
            } else if i == p {
                if j - 1 > p {
                    lemma_seq_lt_transitive(xv, old_t[p as int], t[j]);
                }
            } else {
                assert(t[i] == old_t[i - 1]);
                assert(t[j] == old_t[j - 1]);
            }
        }
        assert forall|s: Seq<char>| #[trigger] t.contains(s) <==> (old_t.contains(s) || s == xv) by {
            if old_t.contains(s) {
                let i = choose|i: int| 0 <= i < old_t.len() && old_t[i] == s;
                if i < p {
                    assert(t[i] == s);
                } else {
                    assert(t[i + 1] == s);
                }
            }
            if s == xv {
                assert(t[p as int] == s);
            }
            if t.contains(s) {
                let i = choose|i: int| 0 <= i < t.len() && t[i] == s;
                if i < p {
                    assert(old_t[i] == s);
                } else if i > p {
                    assert(old_t[i - 1] == s);
                }
            }
        }
    }
}

} // verus!
