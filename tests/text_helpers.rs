use copilot_assets::catalog::{
    collection_from_file, compute_sha256, extract_title, front_matter_block, instruction_from_file, item_kind,
    prompt_from_file, slug_to_title,
};
use copilot_assets::model::AssetKind;
use copilot_assets::overrides::{EnablementFile, OverrideMap};
use copilot_assets::search::{asset_matches, SearchState};
use copilot_assets::state::{AssetView, CollectionRef};
use copilot_assets::sync::{compute_local_status, relative_path_for_kind, LocalStatus};

#[test]
fn sha256_of_known_text() {
    assert_eq!(
        compute_sha256("abc"),
        "ba7816bf8f01cfea414140de5dae2223b00361a396177a9cb410ff61f20015ad"
    );
    assert_eq!(compute_sha256("").len(), 64);
}

#[test]
fn title_from_first_heading_line() {
    assert_eq!(extract_title("intro\n#  Hello World  \r\n# Second"), Some("Hello World".to_string()));
    assert_eq!(extract_title("no heading\n#not a title"), None);
    assert_eq!(extract_title(""), None);
    assert_eq!(extract_title("# Top"), Some("Top".to_string()));
}

#[test]
fn slug_titles_capitalize_each_word() {
    assert_eq!(slug_to_title("my-great-tool"), "My Great Tool");
    assert_eq!(slug_to_title("single"), "Single");
    assert_eq!(slug_to_title("a--b"), "A  B");
    assert_eq!(slug_to_title(""), "");
    assert_eq!(slug_to_title("ßtraße"), "SStraße");
}

#[test]
fn front_matter_framing() {
    assert_eq!(front_matter_block("---\ndescription: x\n---\n# T"), Some("description: x".to_string()));
    assert_eq!(front_matter_block("---\nmode: y"), Some("mode: y".to_string()));
    assert_eq!(front_matter_block("# no front matter"), None);
    assert_eq!(front_matter_block("---"), None);
}

#[test]
fn entries_from_files() {
    let p = prompt_from_file(
        "prompts/write-docs.prompt.md".into(),
        "write-docs.prompt",
        "---\nmode: agent\n---\nno title here",
        "Docs".into(),
        "agent".into(),
        vec!["docs".into()],
    );
    assert_eq!(p.slug, "write-docs");
    assert_eq!(p.name, "Write Docs");
    assert_eq!(p.sha256, compute_sha256("---\nmode: agent\n---\nno title here"));

    let i = instruction_from_file("instructions/rust.instructions.md".into(), "rust.instructions", "# Rust Rules", String::new(), String::new(), vec![]);
    assert_eq!(i.slug, "rust");
    assert_eq!(i.name, "Rust Rules");
    assert_eq!(i.apply_to, vec!["**".to_string()]);

    let c = collection_from_file(
        "collections/web-dev.collection.yml".into(),
        "web-dev.collection",
        "id: ''",
        String::new(),
        String::new(),
        String::new(),
        vec![],
        vec![
            ("prompts/a.prompt.md".into(), "prompt".into()),
            ("x".into(), "unknown".into()),
            ("chatmodes/b.chatmode.md".into(), "chat_mode".into()),
        ],
    );
    assert_eq!(c.slug, "web-dev");
    assert_eq!(c.id, "web-dev");
    assert_eq!(c.name, "Web Dev");
    assert_eq!(c.items.len(), 2);
    assert_eq!(c.items[1].kind, AssetKind::ChatMode);
    assert_eq!(item_kind("chatmode"), Some(AssetKind::ChatMode));
    assert_eq!(item_kind("Prompt"), None);
}

#[test]
fn local_paths_and_status() {
    assert_eq!(relative_path_for_kind(AssetKind::Prompt, "prompts/sub/x.prompt.md"), "sub/x.prompt.md");
    assert_eq!(relative_path_for_kind(AssetKind::Prompt, "flat.md"), "");
    assert_eq!(compute_local_status(AssetKind::Collection, true, "a", "a"), LocalStatus::NA);
    assert_eq!(compute_local_status(AssetKind::Prompt, false, "a", "a"), LocalStatus::Missing);
    assert_eq!(compute_local_status(AssetKind::Prompt, true, "a", "a"), LocalStatus::Same);
    assert_eq!(compute_local_status(AssetKind::Prompt, true, "a", "b"), LocalStatus::Diff);
}

fn view(name: &str) -> AssetView {
    AssetView {
        kind: AssetKind::Instruction,
        path: "instructions/x.instructions.md".into(),
        slug: Some("x".into()),
        name: name.into(),
        description: "Helps With Rust".into(),
        tags: vec!["Backend".into()],
        apply_to: vec!["**/*.RS".into()],
        mode: None,
        tools: vec![],
        collections: vec![CollectionRef { id: "Web-Kit".into(), name: "Web Kit".into(), path: "c".into() }],
        member_count: 0,
        explicit: None,
        inherited: None,
        effective: false,
        local: LocalStatus::NA,
    }
}

#[test]
fn search_matches_lowercased_fields() {
    let v = view("Rust Guide");
    assert!(asset_matches(&v, "rust guide"));
    assert!(asset_matches(&v, "backend"));
    assert!(asset_matches(&v, "*.rs"));
    assert!(asset_matches(&v, "web-kit"));
    assert!(asset_matches(&v, "helps with"));
    assert!(!asset_matches(&v, "python"));
    assert!(asset_matches(&v, ""));
}

#[test]
fn store_helpers() {
    let mut en = EnablementFile::default();
    assert_eq!(en.version, 1);
    en.version = 0;
    en.normalize_version();
    assert_eq!(en.version, 1);
    en.set(AssetKind::ChatMode, "m", true);
    assert_eq!(en.map_for(AssetKind::ChatMode).get("m"), Some(true));
    assert!(en.map_for(AssetKind::Prompt).is_empty());
    en.map_for_mut(AssetKind::ChatMode).insert("m".into(), false);
    assert_eq!(en.chat_modes.get("m"), Some(false));
    assert_eq!(en.chat_modes.len(), 1);
    en.remove(AssetKind::ChatMode, "m");
    assert!(!en.chat_modes.contains_key("m"));
    let mut m = OverrideMap::new();
    m.insert("a".into(), true);
    m.insert("b".into(), false);
    m.insert("a".into(), false);
    assert_eq!(m.len(), 2);
    assert_eq!(m.get("a"), Some(false));
    m.clear();
    assert!(m.is_empty());
}

#[test]
fn search_state_getters() {
    let state = SearchState { active: true, query: "rust".into(), draft: "ru".into() };
    assert!(state.is_active());
    assert_eq!(state.query(), "rust");
    assert_eq!(state.draft(), "ru");
}
