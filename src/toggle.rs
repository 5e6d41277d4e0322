//! Toggling one asset with a minimal override change, and previewing what
//! toggling a collection would do to its members.
use vstd::prelude::*;
use crate::model::{AssetKind, Collection, CollectionItem, texts, copy_texts};
use crate::overrides::copy_str;
use crate::state::{
    AssetView, CollectionRef, DomainState, InheritedState, find_view, first_view, has_view,
    lemma_has_view_iff,
};

verus! {

/// What can go wrong: the given path is not in the current catalog.
#[derive(Debug, Clone)]
pub enum DomainError {
    AssetNotFound(String),
    CollectionNotFound(String),
}

/// The view of the toggled asset after the toggle.
#[derive(Debug, Clone)]
pub struct ToggleResult {
    pub asset: AssetView,
}

/// Summary of what toggling a collection would change.
#[derive(Debug, Clone)]
pub struct CollectionToggleImpact {
    pub collection_name: String,
    pub collection_will_enable: bool,
    pub total_members: usize,
    pub enable_count: usize,
    pub disable_count: usize,
    pub unchanged_count: usize,
    pub affected_members: Vec<MemberImpact>,
}

/// One member's current and projected state.
#[derive(Debug, Clone)]
pub struct MemberImpact {
    pub path: String,
    pub name: String,
    pub kind: AssetKind,
    pub current_effective: bool,
    pub new_effective: bool,
    pub impact: MemberToggleImpact,
}

#[derive(Debug, Clone, Copy, PartialEq, Eq, Structural)]
pub enum MemberToggleImpact {
    WillEnable,
    WillDisable,
    Unchanged,
}

/// The state an asset falls back to when its override is dropped, as the
/// toggle sees it: the inherited value, or enabled when nothing is inherited.
pub open spec fn toggle_baseline(v: AssetView) -> bool {
    match v.inherited {
        Some(st) => st.value,
        None => true,
    }
}

/// `s1` is `s0` after toggling the asset of `kind` at `p`: the override of
/// that kind changes as `toggled_map` says, nothing else in the store or
/// the catalog changes, and everything is resolved again.
pub open spec fn toggle_step(s0: DomainState, s1: DomainState, kind: AssetKind, p: Seq<char>) -> bool {
    &&& s1.resolved()
    &&& s1.catalog == s0.catalog
    &&& exists|i: int|
        first_view(s0.views(kind), p, i) && #[trigger] s1.enablement.spec_map(kind)@ == toggled_map(
            s0.enablement.spec_map(kind)@,
            s0.views(kind)[i],
            p,
        )
    &&& forall|k: AssetKind| k != kind ==> #[trigger] s1.enablement.spec_map(k) == s0.enablement.spec_map(k)
    &&& s1.enablement.version == s0.enablement.version
    &&& s1.enablement.updated_at == s0.enablement.updated_at
}

/// The override map of the toggled kind after toggling the asset whose
/// current view is `v` at path `p`: the override is dropped when the
/// flipped state equals the baseline, and set to the flipped state otherwise.
pub open spec fn toggled_map(m: Map<Seq<char>, bool>, v: AssetView, p: Seq<char>) -> Map<Seq<char>, bool> {
    if !v.effective == toggle_baseline(v) {
        m.remove(p)
    } else {
        m.insert(p, !v.effective)
    }
}

pub open spec fn same_ref(a: CollectionRef, b: CollectionRef) -> bool {
    a.id@ == b.id@ && a.name@ == b.name@ && a.path@ == b.path@
}

pub open spec fn same_text_opt(a: Option<String>, b: Option<String>) -> bool {
    match (a, b) {
        (Some(x), Some(y)) => x@ == y@,
        (None, None) => true,
        _ => false,
    }
}

pub open spec fn same_inherited(a: Option<InheritedState>, b: Option<InheritedState>) -> bool {
    match (a, b) {
        (Some(x), Some(y)) => same_ref(x.collection, y.collection) && x.value == y.value,
        (None, None) => true,
        _ => false,
    }
}

/// `a` and `b` carry the same content.
pub open spec fn same_view(a: AssetView, b: AssetView) -> bool {
    &&& a.kind == b.kind
    &&& a.path@ == b.path@
    &&& same_text_opt(a.slug, b.slug)
    &&& a.name@ == b.name@
    &&& a.description@ == b.description@
    &&& texts(a.tags@) == texts(b.tags@)
    &&& texts(a.apply_to@) == texts(b.apply_to@)
    &&& same_text_opt(a.mode, b.mode)
    &&& texts(a.tools@) == texts(b.tools@)
    &&& a.collections.len() == b.collections.len()
    &&& forall|i: int| 0 <= i < a.collections.len() ==> same_ref(#[trigger] a.collections@[i], b.collections@[i])
    &&& a.member_count == b.member_count
    &&& a.explicit == b.explicit
    &&& same_inherited(a.inherited, b.inherited)
    &&& a.effective == b.effective
    &&& a.local == b.local
}

fn copy_text_opt(o: &Option<String>) -> (r: Option<String>)
    ensures
        same_text_opt(r, *o),
{
    match o {
        Some(s) => Some(s.clone()),
        None => None,
    }
}

fn copy_ref(c: &CollectionRef) -> (r: CollectionRef)
    ensures
        same_ref(r, *c),
{
    CollectionRef { id: c.id.clone(), name: c.name.clone(), path: c.path.clone() }
}

/// A copy of `v`, field by field.
pub fn copy_view(v: &AssetView) -> (r: AssetView)
    ensures
        same_view(r, *v),
{
    let mut refs: Vec<CollectionRef> = Vec::new();
    let mut i: usize = 0;
    while i < v.collections.len()
        invariant
            i <= v.collections.len(),
            refs.len() == i,
            forall|k: int| 0 <= k < i ==> same_ref(#[trigger] refs@[k], v.collections@[k]),
        decreases v.collections.len() - i,
    {
        refs.push(copy_ref(&v.collections[i]));
        i = i + 1;
    }
    let inherited = match &v.inherited {
        Some(st) => Some(InheritedState { collection: copy_ref(&st.collection), value: st.value }),
        None => None,
    };
    AssetView {
        kind: v.kind,
        path: v.path.clone(),
        slug: copy_text_opt(&v.slug),
        name: v.name.clone(),
        description: v.description.clone(),
        tags: copy_texts(&v.tags),
        apply_to: copy_texts(&v.apply_to),
        mode: copy_text_opt(&v.mode),
        tools: copy_texts(&v.tools),
        collections: refs,
        member_count: v.member_count,
        explicit: v.explicit,
        inherited,
        effective: v.effective,
        local: v.local,
    }
}

/// Flips the effective state of the asset of `kind` at `path` with the
/// smallest override change, then resolves again.
///
/// Fails with `AssetNotFound` exactly when the catalog has no such asset;
/// the state is then unchanged. Otherwise the override of `kind` at `path`
/// is dropped when the flipped state equals the toggle baseline (the
/// inherited value, or enabled when nothing is inherited) and set to the
/// flipped state otherwise; nothing else in the store changes.
pub fn toggle_asset(state: &mut DomainState, kind: AssetKind, path: &str) -> (r: Result<ToggleResult, DomainError>)
    requires
        old(state).resolved(),
    ensures
        final(state).resolved(),
        final(state).catalog == old(state).catalog,
        r is Err <==> !old(state).catalog.has(kind, path@),
        match r {
            Err(e) => {
                &&& *final(state) == *old(state)
                &&& e matches DomainError::AssetNotFound(p) && p@ == path@
            },
            Ok(res) => {
                &&& toggle_step(*old(state), *final(state), kind, path@)
                &&& exists|j: int|
                    first_view(final(state).views(kind), path@, j) && same_view(
                        res.asset,
                        #[trigger] final(state).views(kind)[j],
                    )
            },
        },
        forall|k: AssetKind| k != kind ==> #[trigger] final(state).enablement.spec_map(k) == old(state).enablement.spec_map(k),
        final(state).enablement.version == old(state).enablement.version,
        final(state).enablement.updated_at == old(state).enablement.updated_at,
{
    proof {
        lemma_has_view_iff(state.catalog, state.enablement, kind, state.views(kind), path@);
    }
    let ghost old_state = *state;
    let found = find_view(state.assets(kind), path);
    let i = match found {
        Some(i) => i,
        None => {
            return Err(DomainError::AssetNotFound(copy_str(path)));
        },
    };
    let current = state.assets(kind)[i].effective;
    let inherited_value = match &state.assets(kind)[i].inherited {
        Some(st) => Some(st.value),
        None => None,
    };
    let desired = !current;
    let baseline = match inherited_value {
        Some(b) => b,
        None => true,
    };
    if desired == baseline {
        state.enablement.remove(kind, path);
    } else {
        state.enablement.set(kind, path, desired);
    }
    state.recompute();
    proof {
        lemma_has_view_iff(state.catalog, state.enablement, kind, state.views(kind), path@);
    }
    match find_view(state.assets(kind), path) {
        Some(j) => {
            let asset = copy_view(&state.assets(kind)[j]);
            proof {
                assert(first_view(old_state.views(kind), path@, i as int));
                assert(state.enablement.spec_map(kind)@ == toggled_map(
                    old_state.enablement.spec_map(kind)@,
                    old_state.views(kind)[i as int],
                    path@,
                ));
                assert(toggle_step(old_state, *state, kind, path@));
                assert(first_view(state.views(kind), path@, j as int));
            }
            Ok(ToggleResult { asset })
        },
        None => {
            proof {
                assert(false);
            }
            Err(DomainError::AssetNotFound(copy_str(path)))
        },
    }
}

/// How a member's effective state moves from `current` to `projected`.
pub open spec fn classify(current: bool, projected: bool) -> MemberToggleImpact {
    if current == projected {
        MemberToggleImpact::Unchanged
    } else if projected {
        MemberToggleImpact::WillEnable
    } else {
        MemberToggleImpact::WillDisable
    }
}

/// A member keeps its state when it has an explicit override, and takes
/// the collection's new state otherwise.
pub open spec fn projected_state(v: AssetView, will_enable: bool) -> bool {
    if v.explicit is Some {
        v.effective
    } else {
        will_enable
    }
}

/// `m` describes item `it`, whose current view is `v`.
pub open spec fn member_ok(m: MemberImpact, it: CollectionItem, v: AssetView, will_enable: bool) -> bool {
    &&& m.path@ == it.path@
    &&& m.name@ == v.name@
    &&& m.kind == it.kind
    &&& m.current_effective == v.effective
    &&& m.new_effective == projected_state(v, will_enable)
    &&& m.impact == classify(v.effective, projected_state(v, will_enable))
}

/// Member `t` describes item `src[t]`, with the first view of its path.
pub open spec fn member_at(st: DomainState, items: Seq<CollectionItem>, will_enable: bool, members: Seq<MemberImpact>, src: Seq<int>, t: int) -> bool {
    exists|i: int|
        first_view(st.views(items[src[t]].kind), items[src[t]].path@, i) && member_ok(
            members[t],
            items[src[t]],
            #[trigger] st.views(items[src[t]].kind)[i],
            will_enable,
        )
}

/// `imp` previews toggling the collection at path `p`: the first catalog
/// collection at `p`, with the first view at `p`.
pub open spec fn previews(st: DomainState, p: Seq<char>, imp: CollectionToggleImpact) -> bool {
    exists|j: int, i: int|
        {
            &&& st.catalog.first_with_path(j, p)
            &&& first_view(st.views(AssetKind::Collection), p, i)
            &&& #[trigger] impact_ok(st, j, st.views(AssetKind::Collection)[i], imp)
        }
}

/// `members` describes, in item order, each item of `items` that has a
/// view; `src` gives the item of each member.
pub open spec fn impacts_match(st: DomainState, items: Seq<CollectionItem>, will_enable: bool, members: Seq<MemberImpact>, src: Seq<int>) -> bool {
    &&& src.len() == members.len()
    &&& forall|t: int| 0 <= t < src.len() ==> 0 <= #[trigger] src[t] < items.len()
    &&& forall|t: int, u: int| 0 <= t < u < src.len() ==> #[trigger] src[t] < #[trigger] src[u]
    &&& forall|t: int| 0 <= t < src.len() ==> #[trigger] member_at(st, items, will_enable, members, src, t)
    &&& forall|x: int|
        0 <= x < items.len() ==> (has_view(st.views(#[trigger] items[x].kind), items[x].path@) <==> src.contains(x))
}

/// How many of `members` have impact `imp`.
pub open spec fn count_of(members: Seq<MemberImpact>, imp: MemberToggleImpact) -> nat
    decreases members.len(),
{
    if members.len() == 0 {
        0
    } else {
        count_of(members.drop_last(), imp) + if members.last().impact == imp {
            1nat
        } else {
            0nat
        }
    }
}

/// `imp` is the preview of toggling the collection at catalog position `j`,
/// whose view is `cv`.
pub open spec fn impact_ok(st: DomainState, j: int, cv: AssetView, imp: CollectionToggleImpact) -> bool {
    &&& imp.collection_name@ == st.catalog.collections[j].name@
    &&& imp.collection_will_enable == !cv.effective
    &&& imp.total_members == st.catalog.collections[j].items.len()
    &&& members_match(st, st.catalog.collections[j].items@, !cv.effective, imp.affected_members@)
    &&& imp.enable_count == count_of(imp.affected_members@, MemberToggleImpact::WillEnable)
    &&& imp.disable_count == count_of(imp.affected_members@, MemberToggleImpact::WillDisable)
    &&& imp.unchanged_count == count_of(imp.affected_members@, MemberToggleImpact::Unchanged)
}

/// `members` describes, in item order, each item of `items` that has a view.
pub open spec fn members_match(st: DomainState, items: Seq<CollectionItem>, will_enable: bool, members: Seq<MemberImpact>) -> bool {
    exists|src: Seq<int>| impacts_match(st, items, will_enable, members, src)
}

/// What toggling would do to each of the first `limit` items of `items`
/// that has a view, with the count of each kind of change.
pub fn member_impacts(state: &DomainState, items: &Vec<CollectionItem>, will_enable: bool, limit: usize) -> (r: (
    Vec<MemberImpact>,
    usize,
    usize,
    usize,
))
    ensures
        members_match(*state, items@.take(min_len(limit, items.len()) as int), will_enable, r.0@),
        r.1 == count_of(r.0@, MemberToggleImpact::WillEnable),
        r.2 == count_of(r.0@, MemberToggleImpact::WillDisable),
        r.3 == count_of(r.0@, MemberToggleImpact::Unchanged),
{
    let n = if limit < items.len() {
        limit
    } else {
        items.len()
    };
    let ghost all = items@;
    let ghost its = all.take(n as int);
    let mut enable_count: usize = 0;
    let mut disable_count: usize = 0;
    let mut unchanged_count: usize = 0;
    let mut members: Vec<MemberImpact> = Vec::new();
    let ghost mut src: Seq<int> = Seq::empty();
    let mut x: usize = 0;
    while x < n
        invariant
            all == items@,
            n <= all.len(),
            its == all.take(n as int),
            x <= n,
            enable_count + disable_count + unchanged_count == members.len(),
            members.len() <= x,
            enable_count == count_of(members@, MemberToggleImpact::WillEnable),
            disable_count == count_of(members@, MemberToggleImpact::WillDisable),
            unchanged_count == count_of(members@, MemberToggleImpact::Unchanged),
            src.len() == members.len(),
            forall|t: int| 0 <= t < src.len() ==> 0 <= #[trigger] src[t] < x,
            forall|t: int, u: int| 0 <= t < u < src.len() ==> #[trigger] src[t] < #[trigger] src[u],
            forall|t: int| 0 <= t < src.len() ==> #[trigger] member_at(*state, its, will_enable, members@, src, t),
            forall|y: int|
                0 <= y < x ==> (has_view(state.views(#[trigger] its[y].kind), its[y].path@) <==> src.contains(y)),
        decreases n - x,
    {
        let item = &items[x];
        assert(its[x as int] == *item);
        let views = state.assets(item.kind);
        match find_view(views, item.path.as_str()) {
            Some(k) => {
                let member = &views[k];
                let current = member.effective;
                let projected = if member.explicit.is_some() {
                    current
                } else {
                    will_enable
                };
                let impact = if current == projected {
                    unchanged_count = unchanged_count + 1;
                    MemberToggleImpact::Unchanged
                } else if projected {
                    enable_count = enable_count + 1;
                    MemberToggleImpact::WillEnable
                } else {
                    disable_count = disable_count + 1;
                    MemberToggleImpact::WillDisable
                };
                let m = MemberImpact {
                    path: item.path.clone(),
                    name: member.name.clone(),
                    kind: item.kind,
                    current_effective: current,
                    new_effective: projected,
                    impact,
                };
                let ghost before = members@;
                let ghost src0 = src;
                members.push(m);
                proof {
                    src = src.push(x as int);
                    assert(members@.drop_last() =~= before);
                    assert(member_ok(m, its[x as int], state.views(its[x as int].kind)[k as int], will_enable));
                    assert forall|t: int| 0 <= t < src.len() implies #[trigger] member_at(*state, its, will_enable, members@, src, t) by {
                        if t < src0.len() {
                            assert(member_at(*state, its, will_enable, before, src0, t));
                            assert(members@[t] == before[t]);
                            assert(src[t] == src0[t]);
                        } else {
                            assert(first_view(state.views(its[src[t]].kind), its[src[t]].path@, k as int));
                        }
                    }
                    assert forall|y: int| 0 <= y < x + 1 implies (has_view(state.views(#[trigger] its[y].kind), its[y].path@) <==> src.contains(y)) by {
                        if y < x {
                            if src0.contains(y) {
                                let t = choose|t: int| 0 <= t < src0.len() && src0[t] == y;
                                assert(src[t] == y);
                            }
                            if src.contains(y) {
                                let t = choose|t: int| 0 <= t < src.len() && src[t] == y;
                                assert(t < src0.len());
                                assert(src0[t] == y);
                            }
                        } else {
                            assert(src[src0.len() as int] == y);
                            assert(views@[k as int].path@ == its[y].path@);
                        }
                    }
                }
            },
            None => {
                proof {
                    assert forall|y: int| 0 <= y < x + 1 implies (has_view(state.views(#[trigger] its[y].kind), its[y].path@) <==> src.contains(y)) by {
                        if y == x && src.contains(y) {
                            let t = choose|t: int| 0 <= t < src.len() && src[t] == y;
                        }
                    }
                }
            },
        }
        x = x + 1;
    }
    proof {
        assert(impacts_match(*state, its, will_enable, members@, src));
    }
    (members, enable_count, disable_count, unchanged_count)
}

/// The smaller of `a` and `b`.
pub open spec fn min_len(a: usize, b: usize) -> usize {
    if a < b {
        a
    } else {
        b
    }
}

/// Previews toggling the collection at `collection_path` without changing
/// anything: the collection would flip, each member with an explicit
/// override would keep its state, and every other member would take the
/// collection's new state.
///
/// Fails with `CollectionNotFound` exactly when the catalog has no
/// collection at that path.
pub fn analyze_collection_toggle_impact(state: &DomainState, collection_path: &str) -> (r: Result<CollectionToggleImpact, DomainError>)
    requires
        state.resolved(),
    ensures
        r is Err <==> !state.catalog.has(AssetKind::Collection, collection_path@),
        match r {
            Err(e) => {
                &&& e matches DomainError::CollectionNotFound(p) && p@ == collection_path@
            },
            Ok(imp) => previews(*state, collection_path@, imp),
        },
{
    proof {
        lemma_has_view_iff(state.catalog, state.enablement, AssetKind::Collection, state.views(AssetKind::Collection), collection_path@);
        let ps = state.catalog.paths_of(AssetKind::Collection);
        if state.catalog.has(AssetKind::Collection, collection_path@) {
            let k = choose|k: int| 0 <= k < ps.len() && ps[k] == collection_path@;
            assert(state.catalog.collections[k].path@ == collection_path@);
        }
    }
    let j = match state.catalog.collection_index_by_path(collection_path) {
        Some(j) => j,
        None => {
            proof {
                let ps = state.catalog.paths_of(AssetKind::Collection);
                if ps.contains(collection_path@) {
                    let k = choose|k: int| 0 <= k < ps.len() && ps[k] == collection_path@;
                    assert(state.catalog.collections[k].path@ == collection_path@);
                }
            }
            return Err(DomainError::CollectionNotFound(copy_str(collection_path)));
        },
    };
    proof {
        assert(state.catalog.paths_of(AssetKind::Collection)[j as int] == collection_path@);
    }
    let i = match find_view(state.assets(AssetKind::Collection), collection_path) {
        Some(i) => i,
        None => {
            proof {
                assert(false);
            }
            return Err(DomainError::CollectionNotFound(copy_str(collection_path)));
        },
    };
    let collection = &state.catalog.collections[j];
    let will_enable = !state.assets(AssetKind::Collection)[i].effective;
    let (members, enable_count, disable_count, unchanged_count) = member_impacts(
        state,
        &collection.items,
        will_enable,
        collection.items.len(),
    );
    proof {
        assert(collection.items@.take(collection.items.len() as int) =~= collection.items@);
    }
    let imp = CollectionToggleImpact {
        collection_name: collection.name.clone(),
        collection_will_enable: will_enable,
        total_members: collection.items.len(),
        enable_count,
        disable_count,
        unchanged_count,
        affected_members: members,
    };
    proof {
        assert(impact_ok(*state, j as int, state.views(AssetKind::Collection)[i as int], imp));
        assert(state.catalog.first_with_path(j as int, collection_path@));
        assert(first_view(state.views(AssetKind::Collection), collection_path@, i as int));
        assert(previews(*state, collection_path@, imp));
    }
    Ok(imp)
}

} // verus!
