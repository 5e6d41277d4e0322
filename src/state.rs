//! The resolver: derives every asset's explicit, inherited and effective
//! state from the catalog and the override store, and lists the overrides
//! that no longer match a catalog asset.
use vstd::prelude::*;
use crate::model::{AssetKind, Catalog, ChatMode, Collection, Instruction, Prompt, texts, sorted_strict, copy_texts};
use crate::overrides::{EnablementFile, OverrideMap};
use crate::sync::LocalStatus;
use crate::text::{seq_lt, seq_le, lowercase, lower_of, stable_order, stable_sort_order, views_of, as_ints, text_eq};

verus! {

/// A reference to a collection, for display and for inherited state.
#[derive(Debug, Clone)]
pub struct CollectionRef {
    pub id: String,
    pub name: String,
    pub path: String,
}

/// The state an asset takes from a collection with an explicit override.
#[derive(Debug, Clone)]
pub struct InheritedState {
    pub collection: CollectionRef,
    pub value: bool,
}

/// The resolved view of one catalog asset.
#[derive(Debug, Clone)]
pub struct AssetView {
    pub kind: AssetKind,
    pub path: String,
    pub slug: Option<String>,
    pub name: String,
    pub description: String,
    pub tags: Vec<String>,
    pub apply_to: Vec<String>,
    pub mode: Option<String>,
    pub tools: Vec<String>,
    pub collections: Vec<CollectionRef>,
    pub member_count: usize,
    pub explicit: Option<bool>,
    pub inherited: Option<InheritedState>,
    pub effective: bool,
    pub local: LocalStatus,
}

/// An override whose path is not in the catalog under its kind.
#[derive(Debug, Clone)]
pub struct OrphanEntry {
    pub kind: AssetKind,
    pub path: String,
    pub value: bool,
}

/// `r` names collection `c`.
pub open spec fn describes(r: CollectionRef, c: Collection) -> bool {
    r.id@ == c.id@ && r.name@ == c.name@ && r.path@ == c.path@
}

/// The explicit override of `kind` at `p`, if any.
pub open spec fn explicit_of(en: EnablementFile, kind: AssetKind, p: Seq<char>) -> Option<bool> {
    if en.spec_map(kind)@.contains_key(p) {
        Some(en.spec_map(kind)@[p])
    } else {
        None
    }
}

/// Collection id `id` lists `p`, and the collection it names (the first
/// with that id) has an explicit override.
pub open spec fn qualifies(cat: Catalog, en: EnablementFile, p: Seq<char>, id: Seq<char>) -> bool {
    &&& cat.member_ids(p).contains(id)
    &&& exists|j: int| cat.first_with_id(j, id) && en.collections@.contains_key(#[trigger] cat.collections[j].path@)
}

/// `inh` is the inherited state of path `p`: taken from the qualifying
/// collection with the smallest id, or absent when none qualifies.
pub open spec fn inherited_ok(cat: Catalog, en: EnablementFile, p: Seq<char>, inh: Option<InheritedState>) -> bool {
    match inh {
        None => forall|id: Seq<char>| !#[trigger] qualifies(cat, en, p, id),
        Some(st) => {
            &&& qualifies(cat, en, p, st.collection.id@)
            &&& forall|id: Seq<char>| #[trigger] qualifies(cat, en, p, id) ==> seq_le(st.collection.id@, id)
            &&& exists|j: int|
                cat.first_with_id(j, st.collection.id@) && describes(st.collection, #[trigger] cat.collections[j])
                    && st.value == en.collections@[cat.collections[j].path@]
        },
    }
}

/// Explicit wins, then inherited, then the disabled default.
pub open spec fn effective_of(explicit: Option<bool>, inh: Option<InheritedState>) -> bool {
    match explicit {
        Some(b) => b,
        None => match inh {
            Some(st) => st.value,
            None => false,
        },
    }
}

pub open spec fn ref_ids(refs: Seq<CollectionRef>) -> Seq<Seq<char>> {
    refs.map_values(|r: CollectionRef| r.id@)
}

/// `refs` names, by ascending id, each collection that lists `p`.
pub open spec fn refs_ok(cat: Catalog, p: Seq<char>, refs: Seq<CollectionRef>) -> bool {
    &&& sorted_strict(ref_ids(refs))
    &&& forall|id: Seq<char>| ref_ids(refs).contains(id) <==> #[trigger] cat.member_ids(p).contains(id)
    &&& forall|i: int| 0 <= i < refs.len() ==> names_collection(cat, #[trigger] refs[i])
}

/// `r` names the collection that its id resolves to.
pub open spec fn names_collection(cat: Catalog, r: CollectionRef) -> bool {
    exists|j: int| cat.first_with_id(j, r.id@) && describes(r, #[trigger] cat.collections[j])
}

/// `o` holds a string whose characters are `s`.
pub open spec fn text_opt(o: Option<String>, s: Seq<char>) -> bool {
    match o {
        Some(x) => x@ == s,
        None => false,
    }
}

/// The state part of a view of the asset of `kind` at `p`.
pub open spec fn state_ok(cat: Catalog, en: EnablementFile, kind: AssetKind, p: Seq<char>, v: AssetView) -> bool {
    &&& v.kind == kind
    &&& v.path@ == p
    &&& v.explicit == explicit_of(en, kind, p)
    &&& if kind == AssetKind::Collection {
        v.inherited is None
    } else {
        inherited_ok(cat, en, p, v.inherited)
    }
    &&& v.effective == effective_of(v.explicit, v.inherited)
    &&& v.local == LocalStatus::NA
}

pub open spec fn prompt_view_ok(cat: Catalog, en: EnablementFile, a: Prompt, v: AssetView) -> bool {
    &&& state_ok(cat, en, AssetKind::Prompt, a.path@, v)
    &&& text_opt(v.slug, a.slug@)
    &&& v.name@ == a.name@
    &&& v.description@ == a.description@
    &&& texts(v.tags@) == texts(a.tags@)
    &&& v.apply_to.len() == 0
    &&& v.tools.len() == 0
    &&& if a.mode@.len() == 0 {
        v.mode is None
    } else {
        text_opt(v.mode, a.mode@)
    }
    &&& refs_ok(cat, a.path@, v.collections@)
    &&& v.member_count == 0
}

pub open spec fn instruction_view_ok(cat: Catalog, en: EnablementFile, a: Instruction, v: AssetView) -> bool {
    &&& state_ok(cat, en, AssetKind::Instruction, a.path@, v)
    &&& text_opt(v.slug, a.slug@)
    &&& v.name@ == a.name@
    &&& v.description@ == a.description@
    &&& texts(v.tags@) == texts(a.tags@)
    &&& texts(v.apply_to@) == texts(a.apply_to@)
    &&& v.tools.len() == 0
    &&& v.mode is None
    &&& refs_ok(cat, a.path@, v.collections@)
    &&& v.member_count == 0
}

pub open spec fn chat_mode_view_ok(cat: Catalog, en: EnablementFile, a: ChatMode, v: AssetView) -> bool {
    &&& state_ok(cat, en, AssetKind::ChatMode, a.path@, v)
    &&& text_opt(v.slug, a.slug@)
    &&& v.name@ == a.name@
    &&& v.description@ == a.description@
    &&& texts(v.tags@) == texts(a.tags@)
    &&& v.apply_to.len() == 0
    &&& texts(v.tools@) == texts(a.tools@)
    &&& v.mode is None
    &&& refs_ok(cat, a.path@, v.collections@)
    &&& v.member_count == 0
}

pub open spec fn collection_view_ok(cat: Catalog, en: EnablementFile, a: Collection, v: AssetView) -> bool {
    &&& state_ok(cat, en, AssetKind::Collection, a.path@, v)
    &&& text_opt(v.slug, a.id@)
    &&& v.name@ == a.name@
    &&& v.description@ == a.description@
    &&& texts(v.tags@) == texts(a.tags@)
    &&& v.apply_to.len() == 0
    &&& v.tools.len() == 0
    &&& v.mode is None
    &&& v.collections.len() == 0
    &&& v.member_count == a.items.len()
}

/// Sort keys of each kind: lower-cased display names, in catalog order.
pub open spec fn name_keys(cat: Catalog, kind: AssetKind) -> Seq<Seq<char>> {
    match kind {
        AssetKind::Prompt => cat.prompts@.map_values(|a: Prompt| lower_of(a.name@)),
        AssetKind::Instruction => cat.instructions@.map_values(|a: Instruction| lower_of(a.name@)),
        AssetKind::ChatMode => cat.chat_modes@.map_values(|a: ChatMode| lower_of(a.name@)),
        AssetKind::Collection => cat.collections@.map_values(|a: Collection| lower_of(a.name@)),
    }
}

/// `v` is the view of the catalog asset of `kind` at position `i`.
pub open spec fn view_of(cat: Catalog, en: EnablementFile, kind: AssetKind, i: int, v: AssetView) -> bool {
    match kind {
        AssetKind::Prompt => prompt_view_ok(cat, en, cat.prompts[i], v),
        AssetKind::Instruction => instruction_view_ok(cat, en, cat.instructions[i], v),
        AssetKind::ChatMode => chat_mode_view_ok(cat, en, cat.chat_modes[i], v),
        AssetKind::Collection => collection_view_ok(cat, en, cat.collections[i], v),
    }
}

/// `perm` orders the assets of `kind` and `views` holds their views in that order.
pub open spec fn views_in_order(cat: Catalog, en: EnablementFile, kind: AssetKind, views: Seq<AssetView>, perm: Seq<int>) -> bool {
    &&& stable_order(name_keys(cat, kind), perm)
    &&& views.len() == perm.len()
    &&& forall|i: int| 0 <= i < views.len() ==> view_of(cat, en, kind, perm[i], #[trigger] views[i])
}

/// `views` holds one view per catalog asset of `kind`, sorted by display
/// name without regard to case, ties in catalog order.
pub open spec fn views_ok(cat: Catalog, en: EnablementFile, kind: AssetKind, views: Seq<AssetView>) -> bool {
    exists|perm: Seq<int>| views_in_order(cat, en, kind, views, perm)
}

pub open spec fn kind_rank(k: AssetKind) -> int {
    match k {
        AssetKind::Prompt => 0,
        AssetKind::Instruction => 1,
        AssetKind::ChatMode => 2,
        AssetKind::Collection => 3,
    }
}

/// The override of `kind` at `p` is `v`, and the catalog has no such asset.
pub open spec fn is_orphan(cat: Catalog, en: EnablementFile, kind: AssetKind, p: Seq<char>, v: bool) -> bool {
    &&& en.spec_map(kind)@.contains_key(p)
    &&& en.spec_map(kind)@[p] == v
    &&& !cat.has(kind, p)
}

/// Orphans are ordered by path, then by kind.
pub open spec fn orphan_before(a: OrphanEntry, b: OrphanEntry) -> bool {
    seq_lt(a.path@, b.path@) || (a.path@ == b.path@ && kind_rank(a.kind) < kind_rank(b.kind))
}

/// `o` lists each orphaned override once, ordered by path.
pub open spec fn orphans_ok(cat: Catalog, en: EnablementFile, o: Seq<OrphanEntry>) -> bool {
    &&& forall|i: int| 0 <= i < o.len() ==> is_orphan(cat, en, #[trigger] o[i].kind, o[i].path@, o[i].value)
    &&& forall|k: AssetKind, p: Seq<char>|
        #[trigger] en.spec_map(k)@.contains_key(p) && !cat.has(k, p) ==> exists|i: int|
            0 <= i < o.len() && #[trigger] o[i].kind == k && o[i].path@ == p
    &&& forall|i: int, j: int| 0 <= i < j < o.len() ==> orphan_before(#[trigger] o[i], #[trigger] o[j])
}


/// The explicit override of `kind` at `path`.
pub fn explicit_state(en: &EnablementFile, kind: AssetKind, path: &str) -> (r: Option<bool>)
    requires
        en.wf(),
    ensures
        r == explicit_of(*en, kind, path@),
{
    en.map_for(kind).get(path)
}

fn collection_ref(c: &Collection) -> (r: CollectionRef)
    ensures
        describes(r, *c),
{
    CollectionRef { id: c.id.clone(), name: c.name.clone(), path: c.path.clone() }
}

/// The inherited state of the asset at `path`: the qualifying collection
/// with the smallest id, found as the first qualifying entry of the sorted
/// membership list.
pub fn inherited_state(cat: &Catalog, en: &EnablementFile, path: &str) -> (r: Option<InheritedState>)
    requires
        cat.index_wf(),
        en.wf(),
    ensures
        inherited_ok(*cat, *en, path@, r),
{
    let ids = cat.memberships(path);
    let ghost t = texts(ids@);
    let mut i: usize = 0;
    while i < ids.len()
        invariant
            en.wf(),
            t == texts(ids@),
            cat.is_membership_of(path@, t),
            i <= ids.len(),
            forall|q: int| 0 <= q < i ==> !#[trigger] qualifies(*cat, *en, path@, t[q]),
        decreases ids.len() - i,
    {
        assert(t[i as int] == ids@[i as int]@);
        assert(t.contains(t[i as int]));
        match cat.collection_index_by_id(ids[i].as_str()) {
            Some(j) => {
                let c = &cat.collections[j];
                match en.collections.get(c.path.as_str()) {
                    Some(value) => {
                        let st = InheritedState { collection: collection_ref(c), value };
                        proof {
                            assert(qualifies(*cat, *en, path@, t[i as int]));
                            assert forall|id: Seq<char>| #[trigger] qualifies(*cat, *en, path@, id) implies seq_le(
                                st.collection.id@,
                                id,
                            ) by {
                                assert(t.contains(id));
                                let q = choose|q: int| 0 <= q < t.len() && t[q] == id;
                                if q > i {
                                    assert(seq_lt(t[i as int], t[q]));
                                }
                            }
                            assert(cat.first_with_id(j as int, st.collection.id@) && describes(st.collection, cat.collections[j as int])
                                && st.value == en.collections@[cat.collections[j as int].path@]);
                        }
                        return Some(st);
                    },
                    None => {
                        proof {
                            assert forall|jj: int| cat.first_with_id(jj, t[i as int]) implies !en.collections@.contains_key(#[trigger] cat.collections[jj].path@) by {
                                if jj < j {
                                } else if jj > j {
                                    assert(cat.collections[j as int].id@ == t[i as int]);
                                }
                            }
                        }
                    },
                }
            },
            None => {},
        }
        i = i + 1;
    }
    proof {
        assert forall|id: Seq<char>| !#[trigger] qualifies(*cat, *en, path@, id) by {
            if qualifies(*cat, *en, path@, id) {
                assert(t.contains(id));
                let q = choose|q: int| 0 <= q < t.len() && t[q] == id;
            }
        }
    }
    None
}

/// References to the collections listing `path`, by ascending id.
pub fn collections_for(cat: &Catalog, path: &str) -> (r: Vec<CollectionRef>)
    requires
        cat.index_wf(),
    ensures
        refs_ok(*cat, path@, r@),
{
    let ids = cat.memberships(path);
    let ghost t = texts(ids@);
    let mut r: Vec<CollectionRef> = Vec::new();
    assert(t.len() == ids.len());
    assert(ref_ids(r@) =~= t.take(0));
    let mut i: usize = 0;
    while i < ids.len()
        invariant
            t == texts(ids@),
            t.len() == ids.len(),
            cat.is_membership_of(path@, t),
            i <= ids.len(),
            r.len() == i,
            ref_ids(r@) == t.take(i as int),
            forall|q: int| 0 <= q < r.len() ==> names_collection(*cat, #[trigger] r@[q]),
        decreases ids.len() - i,
    {
        assert(t[i as int] == ids@[i as int]@);
        assert(t.contains(t[i as int]));
        match cat.collection_index_by_id(ids[i].as_str()) {
            Some(j) => {
                let c = collection_ref(&cat.collections[j]);
                let ghost before = r@;
                r.push(c);
                proof {
                    assert(r@ == before.push(c));
                    assert(c.id@ == t[i as int]);
                    assert(ref_ids(r@).len() == i + 1);
                    assert(ref_ids(before).len() == i);
                    assert forall|q: int| 0 <= q < before.len() implies #[trigger] ref_ids(r@)[q] == t[q] by {
                        assert(ref_ids(before)[q] == t.take(i as int)[q]);
                        assert(r@[q] == before[q]);
                    }
                    assert(ref_ids(r@)[i as int] == t[i as int]);
                    assert(ref_ids(r@) =~= t.take(i as int + 1));
                    assert forall|q: int| 0 <= q < r.len() implies names_collection(*cat, #[trigger] r@[q]) by {
                        if q < before.len() {
                            assert(r@[q] == before[q]);
                        } else {
                            assert(r@[q] == c);
                            assert(cat.first_with_id(j as int, r@[q].id@) && describes(r@[q], cat.collections[j as int]));
                        }
                    }
                }
            },
            None => {
                proof {
                    assert(false) by {
                    assert(cat.member_ids(path@).contains(t[i as int]));
                    let jj = choose|jj: int|
                        0 <= jj < cat.collections.len() && cat.collections[jj].id@ == t[i as int] && crate::model::lists(
                            cat.collections[jj],
                            path@,
                        );
                    }
                }
            },
        }
        i = i + 1;
    }
    proof {
        assert(t.take(ids.len() as int) =~= t);
        assert(ref_ids(r@) == t);
    }
    r
}


fn effective_value(explicit: Option<bool>, inherited: &Option<InheritedState>) -> (r: bool)
    ensures
        r == effective_of(explicit, *inherited),
{
    match explicit {
        Some(b) => b,
        None => match inherited {
            Some(st) => st.value,
            None => false,
        },
    }
}

/// The view of prompt `a`.
pub fn build_prompt_view(cat: &Catalog, en: &EnablementFile, a: &Prompt) -> (v: AssetView)
    requires
        cat.index_wf(),
        en.wf(),
    ensures
        prompt_view_ok(*cat, *en, *a, v),
{
    let explicit = explicit_state(en, AssetKind::Prompt, a.path.as_str());
    let inherited = inherited_state(cat, en, a.path.as_str());
    let effective = effective_value(explicit, &inherited);
    let mode = if a.mode.as_str().unicode_len() == 0 {
        None
    } else {
        Some(a.mode.clone())
    };
    AssetView {
        kind: AssetKind::Prompt,
        path: a.path.clone(),
        slug: Some(a.slug.clone()),
        name: a.name.clone(),
        description: a.description.clone(),
        tags: copy_texts(&a.tags),
        apply_to: Vec::new(),
        mode,
        tools: Vec::new(),
        collections: collections_for(cat, a.path.as_str()),
        member_count: 0,
        explicit,
        inherited,
        effective,
        local: LocalStatus::NA,
    }
}

/// The view of instruction `a`.
pub fn build_instruction_view(cat: &Catalog, en: &EnablementFile, a: &Instruction) -> (v: AssetView)
    requires
        cat.index_wf(),
        en.wf(),
    ensures
        instruction_view_ok(*cat, *en, *a, v),
{
    let explicit = explicit_state(en, AssetKind::Instruction, a.path.as_str());
    let inherited = inherited_state(cat, en, a.path.as_str());
    let effective = effective_value(explicit, &inherited);
    AssetView {
        kind: AssetKind::Instruction,
        path: a.path.clone(),
        slug: Some(a.slug.clone()),
        name: a.name.clone(),
        description: a.description.clone(),
        tags: copy_texts(&a.tags),
        apply_to: copy_texts(&a.apply_to),
        mode: None,
        tools: Vec::new(),
        collections: collections_for(cat, a.path.as_str()),
        member_count: 0,
        explicit,
        inherited,
        effective,
        local: LocalStatus::NA,
    }
}

/// The view of chat mode `a`.
pub fn build_chat_mode_view(cat: &Catalog, en: &EnablementFile, a: &ChatMode) -> (v: AssetView)
    requires
        cat.index_wf(),
        en.wf(),
    ensures
        chat_mode_view_ok(*cat, *en, *a, v),
{
    let explicit = explicit_state(en, AssetKind::ChatMode, a.path.as_str());
    let inherited = inherited_state(cat, en, a.path.as_str());
    let effective = effective_value(explicit, &inherited);
    AssetView {
        kind: AssetKind::ChatMode,
        path: a.path.clone(),
        slug: Some(a.slug.clone()),
        name: a.name.clone(),
        description: a.description.clone(),
        tags: copy_texts(&a.tags),
        apply_to: Vec::new(),
        mode: None,
        tools: copy_texts(&a.tools),
        collections: collections_for(cat, a.path.as_str()),
        member_count: 0,
        explicit,
        inherited,
        effective,
        local: LocalStatus::NA,
    }
}

/// The view of collection `a`: its own override or disabled; collections
/// never inherit.
pub fn build_collection_view(en: &EnablementFile, a: &Collection) -> (v: AssetView)
    requires
        en.wf(),
    ensures
        forall|cat: Catalog| collection_view_ok(cat, *en, *a, v),
{
    let explicit = explicit_state(en, AssetKind::Collection, a.path.as_str());
    let effective = match explicit {
        Some(b) => b,
        None => false,
    };
    AssetView {
        kind: AssetKind::Collection,
        path: a.path.clone(),
        slug: Some(a.id.clone()),
        name: a.name.clone(),
        description: a.description.clone(),
        tags: copy_texts(&a.tags),
        apply_to: Vec::new(),
        mode: None,
        tools: Vec::new(),
        collections: Vec::new(),
        member_count: a.items.len(),
        explicit,
        inherited: None,
        effective,
        local: LocalStatus::NA,
    }
}

fn kind_len(cat: &Catalog, kind: AssetKind) -> (n: usize)
    ensures
        n == name_keys(*cat, kind).len(),
{
    match kind {
        AssetKind::Prompt => cat.prompts.len(),
        AssetKind::Instruction => cat.instructions.len(),
        AssetKind::ChatMode => cat.chat_modes.len(),
        AssetKind::Collection => cat.collections.len(),
    }
}

fn sort_key_at(cat: &Catalog, kind: AssetKind, i: usize) -> (r: String)
    requires
        i < name_keys(*cat, kind).len(),
    ensures
        r@ == name_keys(*cat, kind)[i as int],
{
    match kind {
        AssetKind::Prompt => lowercase(cat.prompts[i].name.as_str()),
        AssetKind::Instruction => lowercase(cat.instructions[i].name.as_str()),
        AssetKind::ChatMode => lowercase(cat.chat_modes[i].name.as_str()),
        AssetKind::Collection => lowercase(cat.collections[i].name.as_str()),
    }
}

fn build_view(cat: &Catalog, en: &EnablementFile, kind: AssetKind, i: usize) -> (v: AssetView)
    requires
        cat.index_wf(),
        en.wf(),
        i < name_keys(*cat, kind).len(),
    ensures
        view_of(*cat, *en, kind, i as int, v),
{
    match kind {
        AssetKind::Prompt => build_prompt_view(cat, en, &cat.prompts[i]),
        AssetKind::Instruction => build_instruction_view(cat, en, &cat.instructions[i]),
        AssetKind::ChatMode => build_chat_mode_view(cat, en, &cat.chat_modes[i]),
        AssetKind::Collection => build_collection_view(en, &cat.collections[i]),
    }
}

/// The views of every asset of `kind`, sorted by display name without
/// regard to case, ties in catalog order.
pub fn resolve_views(cat: &Catalog, en: &EnablementFile, kind: AssetKind) -> (r: Vec<AssetView>)
    requires
        cat.index_wf(),
        en.wf(),
    ensures
        views_ok(*cat, *en, kind, r@),
{
    let ghost ks = name_keys(*cat, kind);
    let n = kind_len(cat, kind);
    let mut keys: Vec<String> = Vec::new();
    let mut i: usize = 0;
    while i < n
        invariant
            n == ks.len(),
            ks == name_keys(*cat, kind),
            i <= n,
            keys.len() == i,
            forall|q: int| 0 <= q < i ==> #[trigger] keys@[q]@ == ks[q],
        decreases n - i,
    {
        let key = sort_key_at(cat, kind, i);
        keys.push(key);
        i = i + 1;
    }
    assert(views_of(keys@) =~= ks);
    let order = stable_sort_order(&keys);
    let ghost perm = as_ints(order@);
    let mut views: Vec<AssetView> = Vec::new();
    let mut k: usize = 0;
    while k < order.len()
        invariant
            cat.index_wf(),
            en.wf(),
            ks == name_keys(*cat, kind),
            perm == as_ints(order@),
            stable_order(ks, perm),
            k <= order.len(),
            views.len() == k,
            forall|q: int| 0 <= q < k ==> view_of(*cat, *en, kind, perm[q], #[trigger] views@[q]),
        decreases order.len() - k,
    {
        assert(perm[k as int] == order@[k as int] as int);
        let v = build_view(cat, en, kind, order[k]);
        views.push(v);
        k = k + 1;
    }
    assert(views_in_order(*cat, *en, kind, views@, perm));
    views
}


/// Facts about an unsorted orphan list gathered kind by kind.
pub open spec fn raw_orphans_ok(cat: Catalog, en: EnablementFile, raw: Seq<OrphanEntry>) -> bool {
    &&& forall|i: int| 0 <= i < raw.len() ==> is_orphan(cat, en, #[trigger] raw[i].kind, raw[i].path@, raw[i].value)
    &&& forall|i: int, j: int|
        0 <= i < j < raw.len() ==> kind_rank(#[trigger] raw[i].kind) <= kind_rank(#[trigger] raw[j].kind)
    &&& forall|i: int, j: int|
        0 <= i < j < raw.len() ==> !(#[trigger] raw[i].kind == #[trigger] raw[j].kind && raw[i].path@ == raw[j].path@)
}

/// Every orphan of `kind` is in `raw`.
pub open spec fn covers_kind(cat: Catalog, en: EnablementFile, kind: AssetKind, raw: Seq<OrphanEntry>) -> bool {
    forall|p: Seq<char>|
        #[trigger] en.spec_map(kind)@.contains_key(p) && !cat.has(kind, p) ==> exists|i: int|
            0 <= i < raw.len() && raw[i].kind == kind && raw[i].path@ == p
}

/// The loop state of `push_orphans_of` after `e` entries of `m`.
pub open spec fn push_state(cat: Catalog, en: EnablementFile, kind: AssetKind, m: OverrideMap, start: Seq<OrphanEntry>, raw: Seq<OrphanEntry>, e: int) -> bool {
    &&& raw_orphans_ok(cat, en, raw)
    &&& raw.len() >= start.len()
    &&& forall|i: int| 0 <= i < start.len() ==> kind_rank(#[trigger] start[i].kind) < kind_rank(kind)
    &&& forall|i: int| 0 <= i < start.len() ==> #[trigger] raw[i] == start[i]
    &&& forall|i: int| start.len() <= i < raw.len() ==> #[trigger] raw[i].kind == kind && from_first(m, raw[i].path@, e)
    &&& forall|x: int| 0 <= x < e && !cat.has(kind, #[trigger] m.pairs()[x].0) ==> listed(raw, kind, m.pairs()[x].0)
}

/// `p` is the path of one of the first `e` entries of `m`.
pub open spec fn from_first(m: OverrideMap, p: Seq<char>, e: int) -> bool {
    exists|x: int| 0 <= x < e && m.pairs()[x].0 == p
}

/// `raw` has an entry of `kind` at `p`.
pub open spec fn listed(raw: Seq<OrphanEntry>, kind: AssetKind, p: Seq<char>) -> bool {
    exists|i: int| 0 <= i < raw.len() && raw[i].kind == kind && raw[i].path@ == p
}

#[verifier::spinoff_prover]
#[verifier::rlimit(100)]
proof fn lemma_push_step(cat: Catalog, en: EnablementFile, kind: AssetKind, m: OverrideMap, start: Seq<OrphanEntry>, before: Seq<OrphanEntry>, o: OrphanEntry, e: int)
    requires
        m == en.spec_map(kind),
        m.wf(),
        0 <= e < m.pairs().len(),
        push_state(cat, en, kind, m, start, before, e),
        o.kind == kind,
        o.path@ == m.pairs()[e].0,
        o.value == m.pairs()[e].1,
        !cat.has(kind, o.path@),
    ensures
        push_state(cat, en, kind, m, start, before.push(o), e + 1),
{
    let raw = before.push(o);
    m.lemma_view();
    assert(m@.contains_key(m.pairs()[e].0));
    assert forall|i: int, j: int| 0 <= i < j < raw.len() implies !(#[trigger] raw[i].kind == #[trigger] raw[j].kind
        && raw[i].path@ == raw[j].path@) by {
        if j == before.len() && i >= start.len() {
            assert(from_first(m, before[i].path@, e));
            let x = choose|x: int| 0 <= x < e && m.pairs()[x].0 == before[i].path@;
            assert(m.pairs()[x].0 != m.pairs()[e].0);
        } else if j == before.len() {
            assert(kind_rank(start[i].kind) < kind_rank(kind));
        } else {
            assert(raw[i] == before[i] && raw[j] == before[j]);
        }
    }
    assert forall|i: int, j: int| 0 <= i < j < raw.len() implies kind_rank(#[trigger] raw[i].kind) <= kind_rank(#[trigger] raw[j].kind) by {
        if j == before.len() {
            if i < start.len() {
                assert(raw[i] == start[i]);
            }
        } else {
            assert(raw[i] == before[i] && raw[j] == before[j]);
        }
    }
    assert forall|i: int| 0 <= i < raw.len() implies is_orphan(cat, en, #[trigger] raw[i].kind, raw[i].path@, raw[i].value) by {
        if i < before.len() {
            assert(raw[i] == before[i]);
        }
    }
    assert forall|i: int| start.len() <= i < raw.len() implies #[trigger] raw[i].kind == kind && from_first(m, raw[i].path@, e + 1) by {
        if i < before.len() {
            assert(raw[i] == before[i]);
            assert(from_first(m, before[i].path@, e));
            let x = choose|x: int| 0 <= x < e && m.pairs()[x].0 == before[i].path@;
            assert(0 <= x < e + 1 && m.pairs()[x].0 == raw[i].path@);
        } else {
            assert(m.pairs()[e].0 == raw[i].path@);
        }
    }
    assert forall|x: int| 0 <= x < e + 1 && !cat.has(kind, #[trigger] m.pairs()[x].0) implies listed(raw, kind, m.pairs()[x].0) by {
        if x < e {
            assert(listed(before, kind, m.pairs()[x].0));
            let i = choose|i: int| 0 <= i < before.len() && before[i].kind == kind && before[i].path@ == m.pairs()[x].0;
            assert(raw[i] == before[i]);
        } else {
            assert(raw[before.len() as int] == o);
        }
    }
    assert forall|i: int| 0 <= i < start.len() implies #[trigger] raw[i] == start[i] by {
        assert(raw[i] == before[i]);
    }
}

#[verifier::spinoff_prover]
proof fn lemma_skip_step(cat: Catalog, en: EnablementFile, kind: AssetKind, m: OverrideMap, start: Seq<OrphanEntry>, raw: Seq<OrphanEntry>, e: int)
    requires
        0 <= e < m.pairs().len(),
        push_state(cat, en, kind, m, start, raw, e),
        cat.has(kind, m.pairs()[e].0),
    ensures
        push_state(cat, en, kind, m, start, raw, e + 1),
{
    assert forall|i: int| start.len() <= i < raw.len() implies #[trigger] raw[i].kind == kind && from_first(m, raw[i].path@, e + 1) by {
        assert(from_first(m, raw[i].path@, e));
        let x = choose|x: int| 0 <= x < e && m.pairs()[x].0 == raw[i].path@;
        assert(0 <= x < e + 1 && m.pairs()[x].0 == raw[i].path@);
    }
}

/// Appends the orphans of `kind`, in the map's order.
fn push_orphans_of(cat: &Catalog, en: &EnablementFile, kind: AssetKind, raw: &mut Vec<OrphanEntry>)
    requires
        en.wf(),
        raw_orphans_ok(*cat, *en, old(raw)@),
        forall|i: int| 0 <= i < old(raw)@.len() ==> kind_rank(#[trigger] old(raw)@[i].kind) < kind_rank(kind),
    ensures
        raw_orphans_ok(*cat, *en, final(raw)@),
        final(raw)@.len() >= old(raw)@.len(),
        forall|i: int| 0 <= i < old(raw)@.len() ==> #[trigger] final(raw)@[i] == old(raw)@[i],
        forall|i: int| old(raw)@.len() <= i < final(raw)@.len() ==> #[trigger] final(raw)@[i].kind == kind,
        covers_kind(*cat, *en, kind, final(raw)@),
{
    let m = en.map_for(kind);
    let ghost mm = *m;
    let ghost start = raw@;
    let n = m.len();
    let mut e: usize = 0;
    while e < n
        invariant
            mm == en.spec_map(kind),
            *m == mm,
            mm.wf(),
            n == mm.pairs().len(),
            e <= n,
            push_state(*cat, *en, kind, mm, start, raw@, e as int),
        decreases n - e,
    {
        let (path, value) = m.entry(e);
        if !cat.contains(kind, path.as_str()) {
            let o = OrphanEntry { kind, path: path.clone(), value };
            let ghost before = raw@;
            raw.push(o);
            proof {
                lemma_push_step(*cat, *en, kind, mm, start, before, o, e as int);
            }
        } else {
            proof {
                lemma_skip_step(*cat, *en, kind, mm, start, raw@, e as int);
            }
        }
        e = e + 1;
    }
    proof {
        mm.lemma_view();
        assert forall|p: Seq<char>|
            #[trigger] en.spec_map(kind)@.contains_key(p) && !cat.has(kind, p) implies exists|i: int|
                0 <= i < raw@.len() && raw@[i].kind == kind && raw@[i].path@ == p by {
            let x = choose|x: int| mm.has_index(p, x);
            assert(!cat.has(kind, mm.pairs()[x].0));
            assert(listed(raw@, kind, p));
        }
    }
}

fn copy_orphan(o: &OrphanEntry) -> (r: OrphanEntry)
    ensures
        r.kind == o.kind,
        r.path@ == o.path@,
        r.value == o.value,
{
    OrphanEntry { kind: o.kind, path: o.path.clone(), value: o.value }
}

/// Every override whose path is not in the catalog under its kind, sorted
/// by path (overrides of one path under several kinds: in kind order).
pub fn collect_orphans(cat: &Catalog, en: &EnablementFile) -> (r: Vec<OrphanEntry>)
    requires
        en.wf(),
    ensures
        orphans_ok(*cat, *en, r@),
{
    let mut raw: Vec<OrphanEntry> = Vec::new();
    push_orphans_of(cat, en, AssetKind::Prompt, &mut raw);
    let ghost r0 = raw@;
    push_orphans_of(cat, en, AssetKind::Instruction, &mut raw);
    let ghost r1 = raw@;
    push_orphans_of(cat, en, AssetKind::ChatMode, &mut raw);
    let ghost r2 = raw@;
    push_orphans_of(cat, en, AssetKind::Collection, &mut raw);
    proof {
        assert forall|k: AssetKind, p: Seq<char>|
            #[trigger] en.spec_map(k)@.contains_key(p) && !cat.has(k, p) implies exists|i: int|
                0 <= i < raw@.len() && raw@[i].kind == k && raw@[i].path@ == p by {
            match k {
                AssetKind::Prompt => {
                    let i = choose|i: int| 0 <= i < r0.len() && r0[i].kind == k && r0[i].path@ == p;
                    assert(raw@[i] == r2[i] && r2[i] == r1[i] && r1[i] == r0[i]);
                },
                AssetKind::Instruction => {
                    let i = choose|i: int| 0 <= i < r1.len() && r1[i].kind == k && r1[i].path@ == p;
                    assert(raw@[i] == r2[i] && r2[i] == r1[i]);
                },
                AssetKind::ChatMode => {
                    let i = choose|i: int| 0 <= i < r2.len() && r2[i].kind == k && r2[i].path@ == p;
                    assert(raw@[i] == r2[i]);
                },
                AssetKind::Collection => {},
            }
        }
    }
    let mut keys: Vec<String> = Vec::new();
    let mut i: usize = 0;
    while i < raw.len()
        invariant
            i <= raw.len(),
            keys.len() == i,
            forall|q: int| 0 <= q < i ==> #[trigger] keys@[q]@ == raw@[q].path@,
        decreases raw.len() - i,
    {
        keys.push(raw[i].path.clone());
        i = i + 1;
    }
    let ghost ks = views_of(keys@);
    assert(ks.len() == raw.len());
    assert forall|q: int| 0 <= q < raw.len() implies #[trigger] ks[q] == raw@[q].path@ by {
        assert(keys@[q]@ == raw@[q].path@);
    }
    let order = stable_sort_order(&keys);
    let ghost perm = as_ints(order@);
    let mut r: Vec<OrphanEntry> = Vec::new();
    let mut k: usize = 0;
    while k < order.len()
        invariant
            ks == views_of(keys@),
            ks.len() == raw.len(),
            forall|q: int| 0 <= q < raw.len() ==> #[trigger] ks[q] == raw@[q].path@,
            perm == as_ints(order@),
            stable_order(ks, perm),
            k <= order.len(),
            r.len() == k,
            forall|q: int|
                0 <= q < k ==> (#[trigger] r@[q]).kind == raw@[perm[q]].kind && r@[q].path@ == raw@[perm[q]].path@
                    && r@[q].value == raw@[perm[q]].value,
        decreases order.len() - k,
    {
        assert(perm[k as int] == order@[k as int] as int);
        let o = copy_orphan(&raw[order[k]]);
        r.push(o);
        k = k + 1;
    }
    proof {
        assert forall|q: int| 0 <= q < r.len() implies is_orphan(*cat, *en, #[trigger] r@[q].kind, r@[q].path@, r@[q].value) by {
            let x = perm[q];
            assert(0 <= x < raw.len());
        }
        assert forall|kk: AssetKind, p: Seq<char>|
            #[trigger] en.spec_map(kk)@.contains_key(p) && !cat.has(kk, p) implies exists|q: int|
                0 <= q < r@.len() && #[trigger] r@[q].kind == kk && r@[q].path@ == p by {
            let x = choose|x: int| 0 <= x < raw@.len() && raw@[x].kind == kk && raw@[x].path@ == p;
            assert(perm.contains(x));
            let q = choose|q: int| 0 <= q < perm.len() && perm[q] == x;
            assert(r@[q].kind == kk && r@[q].path@ == p);
        }
        assert forall|a: int, b: int| 0 <= a < b < r.len() implies orphan_before(#[trigger] r@[a], #[trigger] r@[b]) by {
            let x = perm[a];
            let y = perm[b];
            assert(crate::text::key_before(ks, x, y));
            if x < y {
                assert(!(raw@[x].kind == raw@[y].kind && raw@[x].path@ == raw@[y].path@));
                assert(kind_rank(raw@[x].kind) <= kind_rank(raw@[y].kind));
            } else {
                assert(seq_lt(ks[x], ks[y]));
            }
        }
    }
    r
}


/// Some view in `views` is at path `p`.
pub open spec fn has_view(views: Seq<AssetView>, p: Seq<char>) -> bool {
    exists|i: int| 0 <= i < views.len() && #[trigger] views[i].path@ == p
}

/// `i` is the first view in `views` at path `p`.
pub open spec fn first_view(views: Seq<AssetView>, p: Seq<char>, i: int) -> bool {
    &&& 0 <= i < views.len()
    &&& views[i].path@ == p
    &&& forall|k: int| 0 <= k < i ==> #[trigger] views[k].path@ != p
}

proof fn lemma_view_path(cat: Catalog, en: EnablementFile, kind: AssetKind, j: int, v: AssetView)
    requires
        0 <= j < cat.paths_of(kind).len(),
        view_of(cat, en, kind, j, v),
    ensures
        v.path@ == cat.paths_of(kind)[j],
        v.kind == kind,
{
}

proof fn lemma_keys_len(cat: Catalog, kind: AssetKind)
    ensures
        name_keys(cat, kind).len() == cat.paths_of(kind).len(),
{
}

/// The views of a kind cover exactly the catalog's paths of that kind.
pub proof fn lemma_has_view_iff(cat: Catalog, en: EnablementFile, kind: AssetKind, views: Seq<AssetView>, p: Seq<char>)
    requires
        views_ok(cat, en, kind, views),
    ensures
        has_view(views, p) <==> cat.has(kind, p),
{
    let perm = choose|perm: Seq<int>| views_in_order(cat, en, kind, views, perm);
    lemma_keys_len(cat, kind);
    if has_view(views, p) {
        let i = choose|i: int| 0 <= i < views.len() && #[trigger] views[i].path@ == p;
        lemma_view_path(cat, en, kind, perm[i], views[i]);
        assert(cat.paths_of(kind)[perm[i]] == p);
    }
    if cat.has(kind, p) {
        let j = choose|j: int| 0 <= j < cat.paths_of(kind).len() && cat.paths_of(kind)[j] == p;
        assert(perm.contains(j));
        let q = choose|q: int| 0 <= q < perm.len() && perm[q] == j;
        lemma_view_path(cat, en, kind, j, views[q]);
        assert(views[q].path@ == p);
    }
}

/// Position of the first view at `path`.
pub fn find_view(views: &[AssetView], path: &str) -> (r: Option<usize>)
    ensures
        match r {
            Some(i) => first_view(views@, path@, i as int),
            None => !has_view(views@, path@),
        },
{
    let mut i: usize = 0;
    while i < views.len()
        invariant
            i <= views@.len(),
            forall|k: int| 0 <= k < i ==> #[trigger] views@[k].path@ != path@,
        decreases views@.len() - i,
    {
        if text_eq(views[i].path.as_str(), path) {
            return Some(i);
        }
        i = i + 1;
    }
    None
}

/// The session aggregate: the catalog, the override store, and the views
/// and orphans resolved from them.
#[derive(Debug, Clone)]
pub struct DomainState {
    pub catalog: Catalog,
    pub enablement: EnablementFile,
    pub prompts: Vec<AssetView>,
    pub instructions: Vec<AssetView>,
    pub chat_modes: Vec<AssetView>,
    pub collections: Vec<AssetView>,
    pub orphans: Vec<OrphanEntry>,
}

impl DomainState {
    /// The resolved views of `kind`, in display order.
    pub open spec fn views(&self, kind: AssetKind) -> Seq<AssetView> {
        match kind {
            AssetKind::Prompt => self.prompts@,
            AssetKind::Instruction => self.instructions@,
            AssetKind::ChatMode => self.chat_modes@,
            AssetKind::Collection => self.collections@,
        }
    }

    /// The resolved orphan list.
    pub open spec fn orphan_list(&self) -> Seq<OrphanEntry> {
        self.orphans@
    }

    /// The catalog index and the store are well formed, and the views and
    /// orphans are those that the catalog and the store determine.
    pub open spec fn resolved(&self) -> bool {
        &&& self.catalog.index_wf()
        &&& self.enablement.wf()
        &&& forall|k: AssetKind| views_ok(self.catalog, self.enablement, k, #[trigger] self.views(k))
        &&& orphans_ok(self.catalog, self.enablement, self.orphan_list())
    }

    /// Indexes `catalog` and resolves every asset against `enablement`.
    pub fn new(catalog: Catalog, enablement: EnablementFile) -> (r: Self)
        requires
            enablement.wf(),
        ensures
            r.resolved(),
            r.catalog.prompts == catalog.prompts,
            r.catalog.instructions == catalog.instructions,
            r.catalog.chat_modes == catalog.chat_modes,
            r.catalog.collections == catalog.collections,
            r.enablement == enablement,
    {
        let catalog = catalog.finalize();
        let mut state = DomainState {
            catalog,
            enablement,
            prompts: Vec::new(),
            instructions: Vec::new(),
            chat_modes: Vec::new(),
            collections: Vec::new(),
            orphans: Vec::new(),
        };
        state.recompute();
        state
    }

    /// The resolved views of `kind`, sorted by display name.
    pub fn assets(&self, kind: AssetKind) -> (r: &[AssetView])
        ensures
            r@ == self.views(kind),
    {
        match kind {
            AssetKind::Prompt => self.prompts.as_slice(),
            AssetKind::Instruction => self.instructions.as_slice(),
            AssetKind::ChatMode => self.chat_modes.as_slice(),
            AssetKind::Collection => self.collections.as_slice(),
        }
    }

    /// The overrides that match no catalog asset, sorted by path.
    pub fn orphans(&self) -> (r: &[OrphanEntry])
        ensures
            r@ == self.orphan_list(),
    {
        self.orphans.as_slice()
    }

    /// Resolves every view and the orphan list afresh.
    pub fn recompute(&mut self)
        requires
            old(self).catalog.index_wf(),
            old(self).enablement.wf(),
        ensures
            final(self).resolved(),
            final(self).catalog == old(self).catalog,
            final(self).enablement == old(self).enablement,
    {
        self.prompts = resolve_views(&self.catalog, &self.enablement, AssetKind::Prompt);
        self.instructions = resolve_views(&self.catalog, &self.enablement, AssetKind::Instruction);
        self.chat_modes = resolve_views(&self.catalog, &self.enablement, AssetKind::ChatMode);
        self.collections = resolve_views(&self.catalog, &self.enablement, AssetKind::Collection);
        self.orphans = collect_orphans(&self.catalog, &self.enablement);
        assert forall|k: AssetKind| views_ok(self.catalog, self.enablement, k, #[trigger] self.views(k)) by {
            match k {
                AssetKind::Prompt => {},
                AssetKind::Instruction => {},
                AssetKind::ChatMode => {},
                AssetKind::Collection => {},
            }
        }
    }

    /// `s1` is `s0` with every override that matches no catalog asset
    /// removed, resolved again.
    pub open spec fn cleanup_step(s0: DomainState, s1: DomainState) -> bool {
        &&& s1.resolved()
        &&& s1.catalog == s0.catalog
        &&& s1.enablement.version == s0.enablement.version
        &&& s1.enablement.updated_at == s0.enablement.updated_at
        &&& forall|k: AssetKind| #[trigger] s1.enablement.spec_map(k)@
            == s0.enablement.spec_map(k)@.restrict(
                s0.enablement.spec_map(k)@.dom().filter(|p: Seq<char>| s0.catalog.has(k, p)),
            )
    }

    /// Removes every orphaned override and resolves again; returns how many
    /// were removed.
    pub fn cleanup_orphans(&mut self) -> (r: usize)
        requires
            old(self).resolved(),
        ensures
            Self::cleanup_step(*old(self), *final(self)),
            r == old(self).orphan_list().len(),
    {
        let ghost s0 = *self;
        let ghost en0 = self.enablement;
        let ghost cat0 = self.catalog;
        let ghost orphans0 = self.orphans@;
        let removed = self.orphans.len();
        let mut i: usize = 0;
        while i < removed
            invariant
                removed == orphans0.len(),
                self.orphans@ == orphans0,
                self.catalog == cat0,
                orphans_ok(self.catalog, en0, orphans0),
                i <= removed,
                self.catalog.index_wf(),
                self.enablement.wf(),
                self.enablement.version == en0.version,
                self.enablement.updated_at == en0.updated_at,
                forall|k: AssetKind, p: Seq<char>|
                    #[trigger] self.enablement.spec_map(k)@.contains_key(p) <==> (en0.spec_map(k)@.contains_key(p)
                        && !(exists|q: int| 0 <= q < i && orphans0[q].kind == k && orphans0[q].path@ == p)),
                forall|k: AssetKind, p: Seq<char>|
                    #[trigger] self.enablement.spec_map(k)@.contains_key(p) ==> self.enablement.spec_map(k)@[p]
                        == en0.spec_map(k)@[p],
            decreases removed - i,
        {
            let ghost before = self.enablement;
            self.enablement.remove(self.orphans[i].kind, self.orphans[i].path.as_str());
            proof {
                assert forall|k: AssetKind, p: Seq<char>|
                    #[trigger] self.enablement.spec_map(k)@.contains_key(p) <==> (en0.spec_map(k)@.contains_key(p)
                        && !(exists|q: int| 0 <= q < i + 1 && orphans0[q].kind == k && orphans0[q].path@ == p)) by {
                    if exists|q: int| 0 <= q < i + 1 && orphans0[q].kind == k && orphans0[q].path@ == p {
                        let q = choose|q: int| 0 <= q < i + 1 && orphans0[q].kind == k && orphans0[q].path@ == p;
                        if q < i {
                            assert(exists|q2: int| 0 <= q2 < i && orphans0[q2].kind == k && orphans0[q2].path@ == p);
                        }
                    }
                    if k != orphans0[i as int].kind {
                        assert(self.enablement.spec_map(k) == before.spec_map(k));
                    }
                }
                assert forall|k: AssetKind, p: Seq<char>|
                    #[trigger] self.enablement.spec_map(k)@.contains_key(p) implies self.enablement.spec_map(k)@[p]
                        == en0.spec_map(k)@[p] by {
                    if k != orphans0[i as int].kind {
                        assert(self.enablement.spec_map(k) == before.spec_map(k));
                    }
                }
            }
            i = i + 1;
        }
        proof {
            assert forall|k: AssetKind| #[trigger] self.enablement.spec_map(k)@
                == en0.spec_map(k)@.restrict(en0.spec_map(k)@.dom().filter(|p: Seq<char>| self.catalog.has(k, p))) by {
                assert forall|p: Seq<char>| self.enablement.spec_map(k)@.contains_key(p) <==> (en0.spec_map(k)@.contains_key(p) && self.catalog.has(k, p)) by {
                    if exists|q: int| 0 <= q < removed && orphans0[q].kind == k && orphans0[q].path@ == p {
                        let q = choose|q: int| 0 <= q < removed && orphans0[q].kind == k && orphans0[q].path@ == p;
                        assert(is_orphan(self.catalog, en0, orphans0[q].kind, orphans0[q].path@, orphans0[q].value));
                    }
                    if en0.spec_map(k)@.contains_key(p) && !self.catalog.has(k, p) {
                        let q = choose|q: int| 0 <= q < orphans0.len() && #[trigger] orphans0[q].kind == k && orphans0[q].path@ == p;
                    }
                }
                assert(self.enablement.spec_map(k)@ =~= en0.spec_map(k)@.restrict(en0.spec_map(k)@.dom().filter(|p: Seq<char>| self.catalog.has(k, p))));
            }
        }
        self.recompute();
        assert(Self::cleanup_step(s0, *self));
        removed
    }

    /// Clears every override and the save time, and resolves again: every
    /// asset falls back to the disabled default.
    pub fn reset_all(&mut self)
        requires
            old(self).catalog.index_wf(),
        ensures
            final(self).resolved(),
            final(self).catalog == old(self).catalog,
            final(self).enablement.is_empty_spec(),
            final(self).enablement.version == old(self).enablement.version,
            final(self).enablement.updated_at is None,
    {
        self.enablement.clear_all();
        self.recompute();
    }
}

} // verus!
