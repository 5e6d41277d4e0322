//! Properties of the engine that relate several calls or hold of every
//! resolved state, proved from the contracts of the functions involved.
use vstd::prelude::*;
use crate::model::{AssetKind, Catalog, lists};
use crate::overrides::EnablementFile;
use crate::state::{
    AssetView, DomainState, InheritedState, explicit_of, first_view, inherited_ok, qualifies,
    state_ok, view_of, views_in_order, views_ok, is_orphan, orphan_before,
};
use crate::toggle::{
    CollectionToggleImpact, MemberToggleImpact, impact_ok, impacts_match, member_at, members_match, previews,
    toggle_baseline, toggle_step, toggled_map,
};
use crate::text::{seq_lt, seq_le, lemma_seq_lt_asymmetric, lemma_seq_lt_irreflexive};

verus! {

/// Every resolved view carries the state that the catalog and the store
/// determine for its kind and path.
pub proof fn lemma_view_state(st: DomainState, k: AssetKind, i: int)
    requires
        st.resolved(),
        0 <= i < st.views(k).len(),
    ensures
        state_ok(st.catalog, st.enablement, k, st.views(k)[i].path@, st.views(k)[i]),
{
    assert(views_ok(st.catalog, st.enablement, k, st.views(k)));
    let perm = choose|perm: Seq<int>| views_in_order(st.catalog, st.enablement, k, st.views(k), perm);
    assert(view_of(st.catalog, st.enablement, k, perm[i], st.views(k)[i]));
}

/// With an empty override store every asset is disabled, with neither an
/// explicit nor an inherited state.
pub proof fn lemma_default_baseline(st: DomainState, k: AssetKind, i: int)
    requires
        st.resolved(),
        st.enablement.is_empty_spec(),
        0 <= i < st.views(k).len(),
    ensures
        !st.views(k)[i].effective,
        st.views(k)[i].explicit is None,
        st.views(k)[i].inherited is None,
{
    lemma_view_state(st, k, i);
    let v = st.views(k)[i];
    assert(st.enablement.spec_map(k)@ == Map::<Seq<char>, bool>::empty());
    assert(st.enablement.spec_map(AssetKind::Collection)@ == Map::<Seq<char>, bool>::empty());
    if k != AssetKind::Collection {
        if let Some(s) = v.inherited {
            assert(qualifies(st.catalog, st.enablement, v.path@, s.collection.id@));
            let j = choose|j: int| st.catalog.first_with_id(j, s.collection.id@)
                && st.enablement.collections@.contains_key(#[trigger] st.catalog.collections[j].path@);
        }
    }
}

/// An explicit override decides the effective state, whatever the asset
/// inherits.
pub proof fn lemma_explicit_wins(st: DomainState, k: AssetKind, i: int)
    requires
        st.resolved(),
        0 <= i < st.views(k).len(),
    ensures
        st.views(k)[i].explicit == explicit_of(st.enablement, k, st.views(k)[i].path@),
        st.views(k)[i].explicit matches Some(b) ==> st.views(k)[i].effective == b,
{
    lemma_view_state(st, k, i);
}

/// Collection ids are pairwise distinct.
pub open spec fn distinct_ids(cat: Catalog) -> bool {
    forall|a: int, b: int|
        0 <= a < b < cat.collections.len() ==> #[trigger] cat.collections[a].id@ != #[trigger] cat.collections[b].id@
}

/// Collection `j` lists `p` and has an explicit override.
pub open spec fn overridden_parent(cat: Catalog, en: EnablementFile, p: Seq<char>, j: int) -> bool {
    &&& 0 <= j < cat.collections.len()
    &&& lists(cat.collections[j], p)
    &&& en.collections@.contains_key(cat.collections[j].path@)
}

/// With distinct collection ids, an asset inherits from the collection
/// with the smallest id among those that list it and have an override.
pub proof fn lemma_inherits_from_smallest(st: DomainState, k: AssetKind, i: int, ja: int)
    requires
        st.resolved(),
        k != AssetKind::Collection,
        0 <= i < st.views(k).len(),
        distinct_ids(st.catalog),
        overridden_parent(st.catalog, st.enablement, st.views(k)[i].path@, ja),
        forall|j: int|
            #[trigger] overridden_parent(st.catalog, st.enablement, st.views(k)[i].path@, j) ==> seq_le(
                st.catalog.collections[ja].id@,
                st.catalog.collections[j].id@,
            ),
    ensures
        st.views(k)[i].inherited matches Some(s) && s.collection.id@ == st.catalog.collections[ja].id@
            && s.collection.path@ == st.catalog.collections[ja].path@
            && s.value == st.enablement.collections@[st.catalog.collections[ja].path@],
{
    let cat = st.catalog;
    let en = st.enablement;
    let v = st.views(k)[i];
    let p = v.path@;
    let ida = cat.collections[ja].id@;
    lemma_view_state(st, k, i);
    assert(inherited_ok(cat, en, p, v.inherited));
    assert(cat.first_with_id(ja, ida));
    assert(cat.member_ids(p).contains(ida));
    assert(qualifies(cat, en, p, ida));
    match v.inherited {
        None => {},
        Some(s) => {
            let ids = s.collection.id@;
            assert(qualifies(cat, en, p, ids));
            let j1 = choose|j1: int| cat.first_with_id(j1, ids) && en.collections@.contains_key(#[trigger] cat.collections[j1].path@);
            assert(cat.member_ids(p).contains(ids));
            let j3 = choose|j3: int| 0 <= j3 < cat.collections.len() && cat.collections[j3].id@ == ids && lists(cat.collections[j3], p);
            if j3 != j1 {
                if j3 < j1 {
                    assert(cat.collections[j3].id@ != cat.collections[j1].id@);
                } else {
                    assert(cat.collections[j1].id@ != cat.collections[j3].id@);
                }
            }
            assert(overridden_parent(cat, en, p, j1));
            assert(seq_le(ida, ids));
            assert(seq_le(ids, ida));
            if ids != ida {
                lemma_seq_lt_asymmetric(ida, ids);
            }
            let jj = choose|jj: int| cat.first_with_id(jj, ids) && crate::state::describes(s.collection, #[trigger] cat.collections[jj])
                && s.value == en.collections@[cat.collections[jj].path@];
            if jj != ja {
                if jj < ja {
                    assert(cat.collections[jj].id@ != cat.collections[ja].id@);
                } else {
                    assert(cat.collections[ja].id@ != cat.collections[jj].id@);
                }
            }
        },
    }
}

/// A collection enabled by an explicit override passes its state on to an
/// asset it lists that has no override of its own, when no other collection
/// listing the asset with an override has a smaller id.
pub proof fn lemma_inheritance_cascade(st: DomainState, k: AssetKind, i: int, ja: int)
    requires
        st.resolved(),
        k != AssetKind::Collection,
        0 <= i < st.views(k).len(),
        distinct_ids(st.catalog),
        overridden_parent(st.catalog, st.enablement, st.views(k)[i].path@, ja),
        st.enablement.collections@[st.catalog.collections[ja].path@] == true,
        !st.enablement.spec_map(k)@.contains_key(st.views(k)[i].path@),
        forall|j: int|
            #[trigger] overridden_parent(st.catalog, st.enablement, st.views(k)[i].path@, j) ==> seq_le(
                st.catalog.collections[ja].id@,
                st.catalog.collections[j].id@,
            ),
    ensures
        st.views(k)[i].effective,
        st.views(k)[i].inherited matches Some(s) && s.value && s.collection.id@ == st.catalog.collections[ja].id@,
{
    lemma_inherits_from_smallest(st, k, i, ja);
    lemma_view_state(st, k, i);
}

/// Of two collections that list an asset and have overrides, the one with
/// the smaller id decides what the asset inherits, whatever their order in
/// the catalog.
pub proof fn lemma_tie_break(st: DomainState, k: AssetKind, i: int, ja: int, jb: int)
    requires
        st.resolved(),
        k != AssetKind::Collection,
        0 <= i < st.views(k).len(),
        distinct_ids(st.catalog),
        overridden_parent(st.catalog, st.enablement, st.views(k)[i].path@, ja),
        overridden_parent(st.catalog, st.enablement, st.views(k)[i].path@, jb),
        seq_lt(st.catalog.collections[ja].id@, st.catalog.collections[jb].id@),
        forall|j: int| #[trigger] overridden_parent(st.catalog, st.enablement, st.views(k)[i].path@, j) ==> j == ja || j == jb,
    ensures
        st.views(k)[i].inherited matches Some(s) && s.collection.id@ == st.catalog.collections[ja].id@
            && s.value == st.enablement.collections@[st.catalog.collections[ja].path@],
{
    lemma_inherits_from_smallest(st, k, i, ja);
}

proof fn lemma_first_view_unique(views: Seq<AssetView>, p: Seq<char>, a: int, b: int)
    requires
        first_view(views, p, a),
        first_view(views, p, b),
    ensures
        a == b,
{
    if a < b {
        assert(views[a].path@ == p);
    } else if b < a {
        assert(views[b].path@ == p);
    }
}

/// Inherited state depends on the collection overrides alone.
proof fn lemma_inherited_same(cat: Catalog, en1: EnablementFile, en2: EnablementFile, p: Seq<char>, a: Option<InheritedState>, b: Option<InheritedState>)
    requires
        en1.collections@ == en2.collections@,
        inherited_ok(cat, en1, p, a),
        inherited_ok(cat, en2, p, b),
    ensures
        a is None <==> b is None,
        a matches Some(x) ==> b matches Some(y) && x.value == y.value,
{
    assert forall|id: Seq<char>| qualifies(cat, en1, p, id) == #[trigger] qualifies(cat, en2, p, id) by {}
    match (a, b) {
        (Some(x), None) => {
            assert(qualifies(cat, en2, p, x.collection.id@));
        },
        (None, Some(y)) => {
            assert(qualifies(cat, en1, p, y.collection.id@));
        },
        (Some(x), Some(y)) => {
            let ix = x.collection.id@;
            let iy = y.collection.id@;
            assert(qualifies(cat, en2, p, ix));
            assert(qualifies(cat, en1, p, iy));
            if ix != iy {
                lemma_seq_lt_asymmetric(ix, iy);
            }
            let jx = choose|jj: int| cat.first_with_id(jj, ix) && crate::state::describes(x.collection, #[trigger] cat.collections[jj])
                && x.value == en1.collections@[cat.collections[jj].path@];
            let jy = choose|jj: int| cat.first_with_id(jj, iy) && crate::state::describes(y.collection, #[trigger] cat.collections[jj])
                && y.value == en2.collections@[cat.collections[jj].path@];
            if jx < jy {
                assert(cat.collections[jx].id@ == iy);
            } else if jy < jx {
                assert(cat.collections[jy].id@ == ix);
            }
        },
        (None, None) => {},
    }
}

/// Toggling an asset twice gives it back its effective state, unless it is
/// enabled with nothing inherited: then the first toggle writes an explicit
/// `false` and the second drops it, which leaves the disabled default.
pub proof fn lemma_toggle_twice(s0: DomainState, s1: DomainState, s2: DomainState, k: AssetKind, p: Seq<char>, i0: int, i2: int)
    requires
        s0.resolved(),
        toggle_step(s0, s1, k, p),
        toggle_step(s1, s2, k, p),
        first_view(s0.views(k), p, i0),
        first_view(s2.views(k), p, i2),
        !(s0.views(k)[i0].inherited is None && s0.views(k)[i0].effective),
    ensures
        s2.views(k)[i2].effective == s0.views(k)[i0].effective,
{
    let a = choose|a: int| first_view(s0.views(k), p, a) && #[trigger] s1.enablement.spec_map(k)@ == toggled_map(
        s0.enablement.spec_map(k)@, s0.views(k)[a], p);
    lemma_first_view_unique(s0.views(k), p, a, i0);
    let i1 = choose|b: int| first_view(s1.views(k), p, b) && #[trigger] s2.enablement.spec_map(k)@ == toggled_map(
        s1.enablement.spec_map(k)@, s1.views(k)[b], p);
    let v0 = s0.views(k)[i0];
    let v1 = s1.views(k)[i1];
    let v2 = s2.views(k)[i2];
    lemma_view_state(s0, k, i0);
    lemma_view_state(s1, k, i1);
    lemma_view_state(s2, k, i2);
    if k != AssetKind::Collection {
        assert(s1.enablement.spec_map(AssetKind::Collection) == s0.enablement.spec_map(AssetKind::Collection));
        assert(s2.enablement.spec_map(AssetKind::Collection) == s1.enablement.spec_map(AssetKind::Collection));
        lemma_inherited_same(s0.catalog, s0.enablement, s1.enablement, p, v0.inherited, v1.inherited);
        lemma_inherited_same(s0.catalog, s1.enablement, s2.enablement, p, v1.inherited, v2.inherited);
    }
    assert(toggle_baseline(v1) == toggle_baseline(v0));
    assert(toggle_baseline(v2) == toggle_baseline(v0));
}

/// Adding one override for a path that the catalog lacks, to a store with
/// no orphans, gives exactly one orphan: that override.
pub proof fn lemma_single_orphan(s0: DomainState, s1: DomainState, k: AssetKind, p: Seq<char>, v: bool)
    requires
        s0.resolved(),
        s0.orphan_list().len() == 0,
        s1.resolved(),
        s1.catalog == s0.catalog,
        s1.enablement.spec_map(k)@ == s0.enablement.spec_map(k)@.insert(p, v),
        forall|k2: AssetKind| k2 != k ==> #[trigger] s1.enablement.spec_map(k2) == s0.enablement.spec_map(k2),
        !s1.catalog.has(k, p),
    ensures
        s1.orphan_list().len() == 1,
        s1.orphan_list()[0].kind == k,
        s1.orphan_list()[0].path@ == p,
        s1.orphan_list()[0].value == v,
{
    let o = s1.orphan_list();
    assert(s1.enablement.spec_map(k)@.contains_key(p));
    let x = choose|x: int| 0 <= x < o.len() && #[trigger] o[x].kind == k && o[x].path@ == p;
    assert forall|q: int| 0 <= q < o.len() implies #[trigger] o[q].kind == k && o[q].path@ == p by {
        assert(is_orphan(s1.catalog, s1.enablement, o[q].kind, o[q].path@, o[q].value));
        let k2 = o[q].kind;
        let p2 = o[q].path@;
        if !(k2 == k && p2 == p) {
            assert(s0.enablement.spec_map(k2)@.contains_key(p2));
            let y = choose|y: int| 0 <= y < s0.orphan_list().len() && #[trigger] s0.orphan_list()[y].kind == k2
                && s0.orphan_list()[y].path@ == p2;
        }
    }
    if o.len() > 1 {
        assert(orphan_before(o[0], o[1]));
        lemma_seq_lt_irreflexive(p);
    }
    assert(is_orphan(s1.catalog, s1.enablement, o[0].kind, o[0].path@, o[0].value));
}

/// After a cleanup no orphan is left, so a second cleanup removes nothing.
pub proof fn lemma_cleanup_leaves_none(s0: DomainState, s1: DomainState)
    requires
        s0.resolved(),
        DomainState::cleanup_step(s0, s1),
    ensures
        s1.orphan_list().len() == 0,
{
    let o = s1.orphan_list();
    if o.len() > 0 {
        assert(is_orphan(s1.catalog, s1.enablement, o[0].kind, o[0].path@, o[0].value));
        let k = o[0].kind;
        assert(s1.enablement.spec_map(k)@.dom().contains(o[0].path@));
    }
}

/// The preview classifies each member from its current view: a member with
/// an explicit override is unchanged, and when the collection would be
/// enabled a disabled member without one will be enabled.
pub proof fn lemma_impact_classification(st: DomainState, p: Seq<char>, imp: CollectionToggleImpact, t: int)
    requires
        st.resolved(),
        previews(st, p, imp),
        0 <= t < imp.affected_members.len(),
    ensures
        exists|i: int|
            first_view(st.views(imp.affected_members@[t].kind), imp.affected_members@[t].path@, i) && {
                let v = #[trigger] st.views(imp.affected_members@[t].kind)[i];
                &&& v.explicit is Some ==> imp.affected_members@[t].impact == MemberToggleImpact::Unchanged
                &&& (v.explicit is None && imp.collection_will_enable && !v.effective)
                    ==> imp.affected_members@[t].impact == MemberToggleImpact::WillEnable
            },
{
    let (j, ci) = choose|j: int, i: int|
        {
            &&& st.catalog.first_with_path(j, p)
            &&& first_view(st.views(AssetKind::Collection), p, i)
            &&& #[trigger] impact_ok(st, j, st.views(AssetKind::Collection)[i], imp)
        };
    let items = st.catalog.collections[j].items@;
    let will = !st.views(AssetKind::Collection)[ci].effective;
    assert(members_match(st, items, will, imp.affected_members@));
    let src = choose|src: Seq<int>| impacts_match(st, items, will, imp.affected_members@, src);
    assert(member_at(st, items, will, imp.affected_members@, src, t));
    let i = choose|i: int|
        first_view(st.views(items[src[t]].kind), items[src[t]].path@, i) && crate::toggle::member_ok(
            imp.affected_members@[t],
            items[src[t]],
            #[trigger] st.views(items[src[t]].kind)[i],
            will,
        );
    assert(first_view(st.views(imp.affected_members@[t].kind), imp.affected_members@[t].path@, i));
}

} // verus!
