use copilot_assets::model::{AssetKind, Catalog, Collection, CollectionItem, Instruction, Prompt};
use copilot_assets::overrides::EnablementFile;
use copilot_assets::state::DomainState;
use copilot_assets::toggle;
use copilot_assets::toggle::{analyze_collection_toggle_impact, MemberToggleImpact};

fn sample_catalog() -> Catalog {
    let instruction_path = "instructions/sample.instructions.md".to_string();
    let collection_path = "collections/sample.collection.yml".to_string();
    let instruction = Instruction {
        path: instruction_path.clone(),
        slug: "sample".into(),
        name: "Sample Instruction".into(),
        description: "Helps with testing".into(),
        apply_to: vec!["**/*.rs".into()],
        tags: vec!["test".into()],
        sha256: "test-sha256".into(),
    };
    let collection = Collection {
        path: collection_path,
        id: "sample".into(),
        slug: "sample".into(),
        name: "Sample Collection".into(),
        description: "Bundle for testing".into(),
        tags: vec![],
        items: vec![CollectionItem {
            path: instruction_path,
            kind: AssetKind::Instruction,
        }],
        sha256: "test-sha256".into(),
    };

    Catalog {
        prompts: vec![],
        instructions: vec![instruction],
        chat_modes: vec![],
        collections: vec![collection],
        ..Catalog::default()
    }
    .finalize()
}

fn multi_catalog() -> Catalog {
    let instruction_path = "instructions/sample.instructions.md".to_string();
    let prompt_path = "prompts/sample.prompt.md".to_string();
    let collection_path = "collections/sample.collection.yml".to_string();

    let instruction = Instruction {
        path: instruction_path.clone(),
        slug: "sample".into(),
        name: "Sample Instruction".into(),
        description: "Helps with testing".into(),
        apply_to: vec!["**/*.rs".into()],
        tags: vec!["test".into()],
        sha256: "test-sha256".into(),
    };
    let prompt = Prompt {
        path: prompt_path.clone(),
        slug: "sample-prompt".into(),
        name: "Sample Prompt".into(),
        description: "Prompt for testing".into(),
        mode: String::new(),
        tags: vec!["test".into()],
        sha256: "test-sha256".into(),
    };
    let collection = Collection {
        path: collection_path,
        id: "bundle".into(),
        slug: "bundle".into(),
        name: "Bundle".into(),
        description: "Bundle for testing".into(),
        tags: vec![],
        items: vec![
            CollectionItem {
                path: instruction_path,
                kind: AssetKind::Instruction,
            },
            CollectionItem {
                path: prompt_path,
                kind: AssetKind::Prompt,
            },
        ],
        sha256: "test-sha256".into(),
    };

    Catalog {
        prompts: vec![prompt],
        instructions: vec![instruction],
        chat_modes: vec![],
        collections: vec![collection],
        ..Catalog::default()
    }
    .finalize()
}

fn impact_catalog() -> Catalog {
    let instruction = Instruction {
        path: "instructions/test.instruction.md".into(),
        slug: "test-instruction".into(),
        name: "Test Instruction".into(),
        description: "A test instruction".into(),
        apply_to: vec!["language:rust".into()],
        tags: vec!["test".into()],
        sha256: "test-sha256".into(),
    };

    let prompt = Prompt {
        path: "prompts/test.prompt.md".into(),
        slug: "test-prompt".into(),
        name: "Test Prompt".into(),
        description: "A test prompt".into(),
        mode: "chat".into(),
        tags: vec!["test".into()],
        sha256: "test-sha256".into(),
    };

    let collection = Collection {
        path: "collections/test.collection.md".into(),
        id: "test-collection".into(),
        slug: "test-collection".into(),
        name: "Test Collection".into(),
        description: "A test collection".into(),
        tags: vec!["test".into()],
        items: vec![
            CollectionItem {
                path: instruction.path.clone(),
                kind: AssetKind::Instruction,
            },
            CollectionItem {
                path: prompt.path.clone(),
                kind: AssetKind::Prompt,
            },
        ],
        sha256: "test-sha256".into(),
    };

    Catalog {
        prompts: vec![prompt],
        instructions: vec![instruction],
        chat_modes: vec![],
        collections: vec![collection],
        ..Catalog::default()
    }
    .finalize()
}

#[test]
fn toggle_collection_off_disables_members() {
    let catalog = multi_catalog();
    let collection_path = catalog.collections[0].path.clone();
    let mut enablement = EnablementFile::default();
    // Start with collection enabled
    enablement.collections.insert(collection_path.clone(), true);
    let mut state = DomainState::new(catalog, enablement);

    // Toggle the collection off: the flipped state (off) differs from a
    // collection's baseline (on), so an explicit `false` is written.
    let _ = toggle::toggle_asset(&mut state, AssetKind::Collection, &collection_path)
        .expect("toggle collection off succeeds");
    assert_eq!(state.enablement.collections.get(&collection_path), Some(false));

    // Both instruction and prompt inherit the disabled state
    let inst = state.assets(AssetKind::Instruction).first().unwrap();
    assert!(!inst.effective);
    assert!(inst.explicit.is_none());
    assert_eq!(inst.inherited.as_ref().unwrap().value, false);

    let prm = state.assets(AssetKind::Prompt).first().unwrap();
    assert!(!prm.effective);
    assert!(prm.explicit.is_none());
    assert_eq!(prm.inherited.as_ref().unwrap().value, false);
}

#[test]
fn toggle_collection_on_enables_members() {
    let catalog = multi_catalog();
    let collection_path = catalog.collections[0].path.clone();
    let mut enablement = EnablementFile::default();
    // Start with collection disabled
    enablement
        .collections
        .insert(collection_path.clone(), false);
    let mut state = DomainState::new(catalog, enablement);

    // Toggle the collection: the flipped state (on) equals a collection's
    // baseline (on), so its override is dropped rather than set.
    let _ = toggle::toggle_asset(&mut state, AssetKind::Collection, &collection_path)
        .expect("toggle collection on succeeds");
    assert_eq!(state.enablement.collections.get(&collection_path), None);

    // With no collection override left, members fall back to the default.
    let inst = state.assets(AssetKind::Instruction).first().unwrap();
    assert!(!inst.effective);
    assert!(inst.explicit.is_none());
    assert!(inst.inherited.is_none());

    let prm = state.assets(AssetKind::Prompt).first().unwrap();
    assert!(!prm.effective);
    assert!(prm.explicit.is_none());
    assert!(prm.inherited.is_none());
}

#[test]
fn clean_project_assets_disabled_by_default() {
    let catalog = multi_catalog();
    let state = DomainState::new(catalog, EnablementFile::default());

    // In a clean project, all assets should be disabled by default
    let inst = state.assets(AssetKind::Instruction).first().unwrap();
    assert!(!inst.effective);
    assert!(inst.explicit.is_none());
    assert!(inst.inherited.is_none());

    let prm = state.assets(AssetKind::Prompt).first().unwrap();
    assert!(!prm.effective);
    assert!(prm.explicit.is_none());
    assert!(prm.inherited.is_none());

    let collection = state.assets(AssetKind::Collection).first().unwrap();
    assert!(!collection.effective);
    assert!(collection.explicit.is_none());
    assert!(collection.inherited.is_none());
}

#[test]
fn explicit_collection_true_cascades_enabled() {
    let catalog = multi_catalog();
    let collection_path = catalog.collections[0].path.clone();
    let mut enablement = EnablementFile::default();
    enablement.collections.insert(collection_path, true);
    let state = DomainState::new(catalog, enablement);

    let inst = state.assets(AssetKind::Instruction).first().unwrap();
    assert!(inst.effective);
    assert!(inst.explicit.is_none());
    assert_eq!(inst.inherited.as_ref().unwrap().value, true);

    let prm = state.assets(AssetKind::Prompt).first().unwrap();
    assert!(prm.effective);
    assert!(prm.explicit.is_none());
    assert_eq!(prm.inherited.as_ref().unwrap().value, true);
}

#[test]
fn instruction_inherits_collection_disable() {
    let catalog = sample_catalog();
    let collection_path = &catalog.collections[0].path;
    let mut enablement = EnablementFile::default();
    enablement
        .collections
        .insert(collection_path.clone(), false);
    let state = DomainState::new(catalog, enablement);
    let instruction = state
        .assets(AssetKind::Instruction)
        .first()
        .expect("instruction present");
    assert!(!instruction.effective);
    assert!(instruction.explicit.is_none());
    assert!(instruction.inherited.as_ref().is_some());
}

#[test]
fn toggle_overrides_inherited_state() {
    let catalog = sample_catalog();
    let instruction_path = catalog.instructions[0].path.clone();
    let collection_path = catalog.collections[0].path.clone();
    let mut enablement = EnablementFile::default();
    enablement
        .collections
        .insert(collection_path.clone(), false);
    let mut state = DomainState::new(catalog, enablement);

    let result = toggle::toggle_asset(&mut state, AssetKind::Instruction, &instruction_path)
        .expect("toggle succeeds");
    assert!(result.asset.effective);
    assert_eq!(
        state.enablement.instructions.get(&instruction_path),
        Some(true)
    );
    // Collection entry remains unchanged.
    assert_eq!(
        state.enablement.collections.get(&collection_path),
        Some(false)
    );
}

#[test]
fn cleanup_removes_orphans() {
    let catalog = sample_catalog();
    let mut enablement = EnablementFile::default();
    enablement
        .prompts
        .insert("prompts/orphan.prompt.md".into(), true);
    let mut state = DomainState::new(catalog, enablement);
    assert_eq!(state.orphans().len(), 1);
    let removed = state.cleanup_orphans();
    assert_eq!(removed, 1);
    assert!(state.orphans().is_empty());
    assert!(state
        .enablement
        .prompts
        .get("prompts/orphan.prompt.md")
        .is_none());
}

#[test]
fn collection_disable_preserves_explicit_true_on_item() {
    let catalog = sample_catalog();
    let instruction_path = catalog.instructions[0].path.clone();
    let collection_path = catalog.collections[0].path.clone();

    let mut enablement = EnablementFile::default();
    // Explicitly enable the instruction
    enablement
        .instructions
        .insert(instruction_path.clone(), true);
    // Disable the collection
    enablement.collections.insert(collection_path, false);

    let state = DomainState::new(catalog, enablement);
    let view = state
        .assets(AssetKind::Instruction)
        .iter()
        .find(|a| a.path == instruction_path)
        .expect("instruction present");
    // Effective remains true because explicit overrides inherited false
    assert!(view.effective);
    assert_eq!(view.explicit, Some(true));
    assert!(view.inherited.as_ref().is_some());
    assert_eq!(view.inherited.as_ref().unwrap().value, false);
}

#[test]
fn collection_enable_preserves_explicit_false_on_item() {
    let catalog = sample_catalog();
    let instruction_path = catalog.instructions[0].path.clone();
    let collection_path = catalog.collections[0].path.clone();

    let mut enablement = EnablementFile::default();
    // Explicitly disable the instruction
    enablement
        .instructions
        .insert(instruction_path.clone(), false);
    // Enable the collection
    enablement.collections.insert(collection_path, true);

    let state = DomainState::new(catalog, enablement);
    let view = state
        .assets(AssetKind::Instruction)
        .iter()
        .find(|a| a.path == instruction_path)
        .expect("instruction present");
    // Effective remains false because explicit overrides inherited true
    assert!(!view.effective);
    assert_eq!(view.explicit, Some(false));
    assert!(view.inherited.as_ref().is_some());
    assert_eq!(view.inherited.as_ref().unwrap().value, true);
}

#[test]
fn analyze_collection_toggle_impact_enable() {
    let catalog = impact_catalog();
    let collection_path = catalog.collections[0].path.clone();
    let mut enablement = EnablementFile::default();
    // Start with collection disabled
    enablement.collections.insert(collection_path.clone(), false);
    let state = DomainState::new(catalog, enablement);

    let impact = analyze_collection_toggle_impact(&state, &collection_path)
        .expect("analyze impact succeeds");

    assert_eq!(impact.collection_name, "Test Collection");
    assert!(impact.collection_will_enable);
    assert_eq!(impact.total_members, 2);
    assert_eq!(impact.enable_count, 2);
    assert_eq!(impact.disable_count, 0);
    assert_eq!(impact.unchanged_count, 0);
    assert_eq!(impact.affected_members.len(), 2);

    for member in &impact.affected_members {
        assert!(!member.current_effective);
        assert!(member.new_effective);
        assert_eq!(member.impact, MemberToggleImpact::WillEnable);
    }
}

#[test]
fn analyze_collection_toggle_impact_disable() {
    let catalog = impact_catalog();
    let collection_path = catalog.collections[0].path.clone();
    let state = DomainState::new(catalog, EnablementFile::default());

    let impact = analyze_collection_toggle_impact(&state, &collection_path)
        .expect("analyze impact succeeds");

    // With no overrides the collection and its members are disabled, so a
    // toggle would enable the collection and both members with it.
    assert_eq!(impact.collection_name, "Test Collection");
    assert!(impact.collection_will_enable);
    assert_eq!(impact.total_members, 2);
    assert_eq!(impact.enable_count, 2);
    assert_eq!(impact.disable_count, 0);
    assert_eq!(impact.unchanged_count, 0);
    assert_eq!(impact.affected_members.len(), 2);

    for member in &impact.affected_members {
        assert!(!member.current_effective);
        assert!(member.new_effective);
        assert_eq!(member.impact, MemberToggleImpact::WillEnable);
    }
}

#[test]
fn analyze_enabled_collection_toggle_disables_members() {
    let catalog = impact_catalog();
    let collection_path = catalog.collections[0].path.clone();
    let mut enablement = EnablementFile::default();
    enablement.collections.insert(collection_path.clone(), true);
    let state = DomainState::new(catalog, enablement);

    let impact = analyze_collection_toggle_impact(&state, &collection_path)
        .expect("analyze impact succeeds");

    assert!(!impact.collection_will_enable);
    assert_eq!(impact.enable_count, 0);
    assert_eq!(impact.disable_count, 2);
    assert_eq!(impact.unchanged_count, 0);
    for member in &impact.affected_members {
        assert!(member.current_effective);
        assert!(!member.new_effective);
        assert_eq!(member.impact, MemberToggleImpact::WillDisable);
    }
}

#[test]
fn analyze_collection_toggle_impact_with_explicit_members() {
    let catalog = impact_catalog();
    let collection_path = catalog.collections[0].path.clone();
    let instruction_path = catalog.instructions[0].path.clone();
    let mut enablement = EnablementFile::default();

    // Collection is disabled by default; explicitly disable the instruction
    enablement.instructions.insert(instruction_path, false);
    let state = DomainState::new(catalog, enablement);

    let impact = analyze_collection_toggle_impact(&state, &collection_path)
        .expect("analyze impact succeeds");

    assert!(impact.collection_will_enable);
    assert_eq!(impact.total_members, 2);
    assert_eq!(impact.enable_count, 1); // Only the prompt will be enabled
    assert_eq!(impact.disable_count, 0);
    assert_eq!(impact.unchanged_count, 1); // The instruction remains explicitly disabled

    let instruction_impact = impact
        .affected_members
        .iter()
        .find(|m| m.kind == AssetKind::Instruction)
        .unwrap();
    assert!(!instruction_impact.current_effective);
    assert!(!instruction_impact.new_effective);
    assert_eq!(instruction_impact.impact, MemberToggleImpact::Unchanged);

    let prompt_impact = impact
        .affected_members
        .iter()
        .find(|m| m.kind == AssetKind::Prompt)
        .unwrap();
    assert!(!prompt_impact.current_effective);
    assert!(prompt_impact.new_effective);
    assert_eq!(prompt_impact.impact, MemberToggleImpact::WillEnable);
}
