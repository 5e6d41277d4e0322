use copilot_assets::components::{
    collection_toggle_impact, collections_list, local_status, source_label, state_badge, status_line,
    tags_field, toggle_preview,
};
use copilot_assets::model::{AssetKind, Catalog, ChatMode, Collection, CollectionItem, Instruction, Prompt};
use copilot_assets::overrides::EnablementFile;
use copilot_assets::state::DomainState;
use copilot_assets::toggle::{analyze_collection_toggle_impact, toggle_asset, DomainError, MemberToggleImpact};

fn instruction(path: &str, name: &str) -> Instruction {
    Instruction {
        path: path.into(),
        slug: path.into(),
        name: name.into(),
        description: String::new(),
        apply_to: vec![],
        tags: vec![],
        sha256: String::new(),
    }
}

fn prompt(path: &str, name: &str) -> Prompt {
    Prompt {
        path: path.into(),
        slug: path.into(),
        name: name.into(),
        description: String::new(),
        mode: String::new(),
        tags: vec![],
        sha256: String::new(),
    }
}

fn collection(path: &str, id: &str, items: &[(&str, AssetKind)]) -> Collection {
    Collection {
        path: path.into(),
        id: id.into(),
        slug: id.into(),
        name: id.into(),
        description: String::new(),
        tags: vec![],
        items: items
            .iter()
            .map(|(p, k)| CollectionItem { path: p.to_string(), kind: *k })
            .collect(),
        sha256: String::new(),
    }
}

fn catalog(prompts: Vec<Prompt>, instructions: Vec<Instruction>, collections: Vec<Collection>) -> Catalog {
    Catalog {
        prompts,
        instructions,
        chat_modes: vec![],
        collections,
        ..Catalog::default()
    }
    .finalize()
}

fn scenario_catalog() -> Catalog {
    catalog(
        vec![],
        vec![instruction("i1", "I1")],
        vec![collection("c1", "c1", &[("i1", AssetKind::Instruction)])],
    )
}

#[test]
fn fresh_store_leaves_everything_disabled() {
    let cat = catalog(
        vec![prompt("p1", "P1")],
        vec![instruction("i1", "I1")],
        vec![collection("c1", "c1", &[("i1", AssetKind::Instruction), ("p1", AssetKind::Prompt)])],
    );
    let state = DomainState::new(cat, EnablementFile::default());
    for kind in [AssetKind::Prompt, AssetKind::Instruction, AssetKind::ChatMode, AssetKind::Collection] {
        for view in state.assets(kind) {
            assert!(!view.effective);
            assert!(view.explicit.is_none());
            assert!(view.inherited.is_none());
        }
    }
    assert!(state.orphans().is_empty());
}

#[test]
fn explicit_override_beats_inherited_state() {
    let mut en = EnablementFile::default();
    en.collections.insert("c1".into(), true);
    en.instructions.insert("i1".into(), false);
    let state = DomainState::new(scenario_catalog(), en);
    let view = &state.assets(AssetKind::Instruction)[0];
    assert_eq!(view.explicit, Some(false));
    assert!(!view.effective);
    assert_eq!(view.inherited.as_ref().unwrap().value, true);
}

#[test]
fn enabled_collection_cascades_to_member() {
    let mut en = EnablementFile::default();
    en.collections.insert("c1".into(), true);
    let state = DomainState::new(scenario_catalog(), en);
    let view = &state.assets(AssetKind::Instruction)[0];
    assert!(view.effective);
    let inherited = view.inherited.as_ref().unwrap();
    assert!(inherited.value);
    assert_eq!(inherited.collection.id, "c1");
    assert_eq!(inherited.collection.path, "c1");
}

#[test]
fn smaller_collection_id_wins_the_tie() {
    // "zeta" is listed first in the catalog but "alpha" has the smaller id.
    let build = |first_zeta: bool| {
        let zeta = collection("collections/z.yml", "zeta", &[("i1", AssetKind::Instruction)]);
        let alpha = collection("collections/a.yml", "alpha", &[("i1", AssetKind::Instruction)]);
        let cols = if first_zeta { vec![zeta, alpha] } else { vec![alpha, zeta] };
        let mut en = EnablementFile::default();
        en.collections.insert("collections/z.yml".into(), true);
        en.collections.insert("collections/a.yml".into(), false);
        DomainState::new(catalog(vec![], vec![instruction("i1", "I1")], cols), en)
    };
    for order in [true, false] {
        let state = build(order);
        let view = &state.assets(AssetKind::Instruction)[0];
        let inherited = view.inherited.as_ref().unwrap();
        assert_eq!(inherited.collection.id, "alpha");
        assert!(!inherited.value);
        assert!(!view.effective);
        let ids: Vec<&str> = view.collections.iter().map(|c| c.id.as_str()).collect();
        assert_eq!(ids, vec!["alpha", "zeta"]);
    }
}

#[test]
fn toggling_twice_restores_effective_state() {
    let mut en = EnablementFile::default();
    en.collections.insert("c1".into(), false);
    let mut state = DomainState::new(scenario_catalog(), en);
    let before = state.assets(AssetKind::Instruction)[0].effective;
    let first = toggle_asset(&mut state, AssetKind::Instruction, "i1").unwrap();
    assert_eq!(first.asset.effective, !before);
    assert_eq!(state.enablement.instructions.get("i1"), Some(true));
    let second = toggle_asset(&mut state, AssetKind::Instruction, "i1").unwrap();
    assert_eq!(second.asset.effective, before);
    // The second toggle matches the inherited value, so the override goes.
    assert_eq!(state.enablement.instructions.get("i1"), None);
}

#[test]
fn toggling_explicit_on_without_inheritance_ends_disabled() {
    let mut en = EnablementFile::default();
    en.prompts.insert("p1".into(), true);
    let mut state = DomainState::new(catalog(vec![prompt("p1", "P1")], vec![], vec![]), en);
    assert!(state.assets(AssetKind::Prompt)[0].effective);
    let first = toggle_asset(&mut state, AssetKind::Prompt, "p1").unwrap();
    assert!(!first.asset.effective);
    assert_eq!(state.enablement.prompts.get("p1"), Some(false));
    let second = toggle_asset(&mut state, AssetKind::Prompt, "p1").unwrap();
    assert!(!second.asset.effective);
    assert_eq!(state.enablement.prompts.get("p1"), None);
}

#[test]
fn toggling_default_disabled_asset_clears_instead_of_setting() {
    let mut state = DomainState::new(catalog(vec![prompt("p1", "P1")], vec![], vec![]), EnablementFile::default());
    let result = toggle_asset(&mut state, AssetKind::Prompt, "p1").unwrap();
    assert!(!result.asset.effective);
    assert!(state.enablement.prompts.is_empty());
}

#[test]
fn toggle_unknown_asset_is_not_found() {
    let mut state = DomainState::new(scenario_catalog(), EnablementFile::default());
    match toggle_asset(&mut state, AssetKind::Prompt, "i1") {
        Err(DomainError::AssetNotFound(path)) => assert_eq!(path, "i1"),
        _ => panic!("expected AssetNotFound"),
    }
    assert!(state.enablement.prompts.is_empty());
}

#[test]
fn orphan_round_trip() {
    let mut state = DomainState::new(scenario_catalog(), EnablementFile::default());
    assert!(state.orphans().is_empty());
    state.enablement.chat_modes.insert("chatmodes/gone.chatmode.md".into(), true);
    state.recompute();
    assert_eq!(state.orphans().len(), 1);
    let orphan = &state.orphans()[0];
    assert_eq!(orphan.kind, AssetKind::ChatMode);
    assert_eq!(orphan.path, "chatmodes/gone.chatmode.md");
    assert!(orphan.value);
    assert_eq!(state.cleanup_orphans(), 1);
    assert_eq!(state.cleanup_orphans(), 0);
    assert!(state.orphans().is_empty());
}

#[test]
fn orphans_sorted_by_path_then_kind() {
    let mut en = EnablementFile::default();
    en.collections.insert("b".into(), true);
    en.prompts.insert("c".into(), false);
    en.instructions.insert("b".into(), false);
    en.prompts.insert("a".into(), true);
    en.instructions.insert("i1".into(), true);
    let state = DomainState::new(scenario_catalog(), en);
    let got: Vec<(AssetKind, &str)> = state.orphans().iter().map(|o| (o.kind, o.path.as_str())).collect();
    assert_eq!(
        got,
        vec![
            (AssetKind::Prompt, "a"),
            (AssetKind::Instruction, "b"),
            (AssetKind::Collection, "b"),
            (AssetKind::Prompt, "c"),
        ]
    );
}

#[test]
fn reset_all_returns_to_defaults() {
    let mut en = EnablementFile::default();
    en.collections.insert("c1".into(), true);
    en.instructions.insert("i1".into(), true);
    en.updated_at = Some("2024-01-01T00:00:00Z".into());
    let mut state = DomainState::new(scenario_catalog(), en);
    state.reset_all();
    assert!(state.enablement.instructions.is_empty());
    assert!(state.enablement.collections.is_empty());
    assert!(state.enablement.updated_at.is_none());
    assert_eq!(state.enablement.version, 1);
    assert!(!state.assets(AssetKind::Instruction)[0].effective);
}

#[test]
fn impact_matches_resolver_classification() {
    let cat = catalog(
        vec![prompt("p1", "P1"), prompt("p2", "P2")],
        vec![instruction("i1", "I1")],
        vec![collection(
            "c1",
            "c1",
            &[("p1", AssetKind::Prompt), ("p2", AssetKind::Prompt), ("i1", AssetKind::Instruction), ("missing", AssetKind::Prompt)],
        )],
    );
    let mut en = EnablementFile::default();
    en.instructions.insert("i1".into(), true);
    let state = DomainState::new(cat, en);
    let impact = analyze_collection_toggle_impact(&state, "c1").unwrap();
    assert!(impact.collection_will_enable);
    assert_eq!(impact.total_members, 4);
    assert_eq!(impact.affected_members.len(), 3);
    assert_eq!(impact.affected_members[0].impact, MemberToggleImpact::WillEnable);
    assert_eq!(impact.affected_members[1].impact, MemberToggleImpact::WillEnable);
    assert_eq!(impact.affected_members[2].impact, MemberToggleImpact::Unchanged);
    assert_eq!((impact.enable_count, impact.disable_count, impact.unchanged_count), (2, 0, 1));
}

#[test]
fn impact_on_unknown_collection_is_not_found() {
    let state = DomainState::new(scenario_catalog(), EnablementFile::default());
    match analyze_collection_toggle_impact(&state, "i1") {
        Err(DomainError::CollectionNotFound(path)) => assert_eq!(path, "i1"),
        _ => panic!("expected CollectionNotFound"),
    }
}

#[test]
fn scenario_single_member_collection() {
    let mut en = EnablementFile::default();
    en.collections.insert("c1".into(), false);
    let mut state = DomainState::new(scenario_catalog(), en);
    let view = &state.assets(AssetKind::Instruction)[0];
    assert!(!view.effective);
    let inherited = view.inherited.as_ref().unwrap();
    assert_eq!(inherited.collection.id, "c1");
    assert!(!inherited.value);

    // Toggling c1 flips it to on, which is a collection's baseline, so the
    // override is dropped and the member falls back to the default.
    toggle_asset(&mut state, AssetKind::Collection, "c1").unwrap();
    assert_eq!(state.enablement.collections.get("c1"), None);
    assert!(!state.assets(AssetKind::Instruction)[0].effective);

    // The collection is off again with nothing inherited: toggling it once
    // more drops nothing and leaves it off.
    toggle_asset(&mut state, AssetKind::Collection, "c1").unwrap();
    assert_eq!(state.enablement.collections.get("c1"), None);
    assert!(!state.assets(AssetKind::Collection)[0].effective);
    assert!(!state.assets(AssetKind::Instruction)[0].effective);
}

#[test]
fn views_sorted_by_name_ignoring_case() {
    let state = DomainState::new(
        catalog(vec![prompt("p1", "beta"), prompt("p2", "Alpha"), prompt("p3", "alpha"), prompt("p4", "Gamma")], vec![], vec![]),
        EnablementFile::default(),
    );
    let names: Vec<&str> = state.assets(AssetKind::Prompt).iter().map(|v| v.name.as_str()).collect();
    assert_eq!(names, vec!["Alpha", "alpha", "beta", "Gamma"]);
}

#[test]
fn memberships_are_sorted_and_distinct() {
    let cat = catalog(
        vec![],
        vec![instruction("i1", "I1")],
        vec![
            collection("x", "zz", &[("i1", AssetKind::Instruction), ("i1", AssetKind::Instruction)]),
            collection("y", "aa", &[("i1", AssetKind::Instruction)]),
        ],
    );
    assert_eq!(cat.memberships("i1"), vec!["aa".to_string(), "zz".to_string()]);
    assert!(cat.memberships("nothing").is_empty());
    assert!(cat.contains(AssetKind::Instruction, "i1"));
    assert!(!cat.contains(AssetKind::Prompt, "i1"));
    assert_eq!(cat.collection_by_id("aa").unwrap().path, "y");
    assert_eq!(cat.collection_by_path("x").unwrap().id, "zz");
    assert!(cat.collection_by_id("x").is_none());
}

#[test]
fn chat_mode_view_copies_tools() {
    let cat = Catalog {
        chat_modes: vec![ChatMode {
            path: "chatmodes/a.chatmode.md".into(),
            slug: "a".into(),
            name: "A".into(),
            description: "d".into(),
            tools: vec!["search".into()],
            tags: vec!["t".into()],
            sha256: String::new(),
        }],
        ..Catalog::default()
    }
    .finalize();
    let state = DomainState::new(cat, EnablementFile::default());
    let view = &state.assets(AssetKind::ChatMode)[0];
    assert_eq!(view.tools, vec!["search".to_string()]);
    assert_eq!(view.slug.as_deref(), Some("a"));
    assert_eq!(tags_field(view), "t");
}

#[test]
fn text_helpers() {
    let mut en = EnablementFile::default();
    en.collections.insert("c1".into(), true);
    let state = DomainState::new(scenario_catalog(), en);
    let inst = &state.assets(AssetKind::Instruction)[0];
    assert_eq!(state_badge(inst), "↳ On");
    assert_eq!(source_label(inst), "c1:on");
    assert_eq!(status_line(inst), "Effective: on | Inherited: true from c1");
    assert_eq!(collections_list(inst), "c1");
    assert_eq!(toggle_preview(inst), "Currently: enabled (inherited state)\nToggle will: disabled this asset");
    assert_eq!(local_status(inst), "N/A");
    assert_eq!(tags_field(inst), "");
    assert!(collection_toggle_impact(inst, &state).is_none());

    let col = &state.assets(AssetKind::Collection)[0];
    assert_eq!(state_badge(col), "✓ On");
    assert_eq!(source_label(col), "explicit:on");
    assert_eq!(tags_field(col), "1 items");
    assert_eq!(collections_list(col), "(none)");
    assert_eq!(
        toggle_preview(col),
        "Currently: enabled (explicit state)\nToggle will: disabled this collection and affect 1 members"
    );
    assert_eq!(
        collection_toggle_impact(col, &state).unwrap(),
        "Impact on 1 member:\n  • I1 (will disable)\nSummary: 0 enable, 1 disable, 0 unchanged"
    );
}

#[test]
fn impact_text_lists_first_five() {
    let names = ["a", "b", "c", "d", "e", "f", "g"];
    let prompts: Vec<Prompt> = names.iter().map(|n| prompt(n, n)).collect();
    let items: Vec<(&str, AssetKind)> = names.iter().map(|n| (*n, AssetKind::Prompt)).collect();
    let state = DomainState::new(catalog(prompts, vec![], vec![collection("c", "c", &items)]), EnablementFile::default());
    let col = &state.assets(AssetKind::Collection)[0];
    let text = collection_toggle_impact(col, &state).unwrap();
    assert!(text.starts_with("Impact on 7 members: (showing first 5)\n  • a (will enable)"));
    assert!(text.ends_with("  • e (will enable)\nSummary: 5 enable, 0 disable, 0 unchanged"));
}

#[test]
fn instruction_tags_prefer_patterns() {
    let mut inst = instruction("i1", "I1");
    inst.apply_to = vec!["**/*.rs".into(), "**/*.toml".into()];
    inst.tags = vec!["x".into(), "y".into()];
    let state = DomainState::new(catalog(vec![], vec![inst], vec![]), EnablementFile::default());
    let view = &state.assets(AssetKind::Instruction)[0];
    assert_eq!(tags_field(view), "**/*.rs | **/*.toml");
    assert_eq!(state_badge(view), "• Off");
    assert_eq!(source_label(view), "default");
    assert_eq!(status_line(view), "Effective: off");
}
