use syntaxis::language_service::{language_server_by_id, WorkspaceTechnology};
use syntaxis::project_tools::{
    badge_visibility_class, bootstrap_plan, first_mise_probe, format_recent, project_badges,
    recent_label, total_language_bytes, has_root_mise_config, inferred_bootstrap_command,
    inferred_mise_command, infer_tools, is_text_less, language_represented_by_technology,
    mise_step_path, next_mise_probe, BootstrapPlan, MiseProbe, MiseStep, WorkspaceLanguage,
    WorkspaceProfile, CONFIGURED_BOOTSTRAP_COMMAND, UPDATE_TOOLS_COMMAND,
};
use syntaxis::tree::{EntryKind, FileEntry};

fn entry(name: &str, kind: EntryKind) -> FileEntry {
    FileEntry {
        path: name.into(),
        name: name.into(),
        kind,
        size: 0,
        version: None,
    }
}

fn files(names: &[&str]) -> Vec<FileEntry> {
    names.iter().map(|name| entry(name, EntryKind::File)).collect()
}

fn empty_profile() -> WorkspaceProfile {
    WorkspaceProfile {
        technologies: Vec::new(),
        languages: Vec::new(),
    }
}

#[test]
fn project_update_is_scoped_to_local_configuration() {
    assert!(UPDATE_TOOLS_COMMAND.contains("mise upgrade --local"));
    assert!(UPDATE_TOOLS_COMMAND.contains("mise trust --yes"));
}

#[test]
fn configured_bootstrap_trusts_and_installs_project_config() {
    assert!(CONFIGURED_BOOTSTRAP_COMMAND.contains("mise trust --yes"));
    assert!(CONFIGURED_BOOTSTRAP_COMMAND.contains("mise install --yes"));
}

#[test]
fn manifests_and_profile_infer_runtime_and_language_server_tools() {
    let profile = WorkspaceProfile {
        technologies: vec![WorkspaceTechnology::Vue],
        languages: vec![
            WorkspaceLanguage {
                name: "Rust".into(),
                bytes: 100,
            },
            WorkspaceLanguage {
                name: "TypeScript".into(),
                bytes: 80,
            },
        ],
    };
    let tools = infer_tools(
        &files(&["Cargo.toml", "package.json", "pnpm-lock.yaml"]),
        &profile,
    );
    for expected in [
        "rust@stable",
        "node@lts",
        "pnpm@latest",
        "rust-analyzer@latest",
        "npm:typescript@latest",
        "npm:@vue/language-server@latest",
    ] {
        assert!(
            tools.contains(&expected),
            "missing inferred tool {expected}"
        );
    }
    assert!(inferred_mise_command(&tools).starts_with("mise use --yes --env local "));
}

#[test]
fn inferred_command_stays_checkout_local() {
    let command = inferred_bootstrap_command("mise use --env local node@22");
    assert!(command.contains("mise use --env local node@22"));
    assert!(command.contains("mise.local.toml mise.local.lock"));
}

#[test]
fn inferred_tools_keep_discovery_order_without_repeats() {
    let profile = WorkspaceProfile {
        technologies: Vec::new(),
        languages: vec![WorkspaceLanguage {
            name: "Rust".into(),
            bytes: 10,
        }],
    };
    let tools = infer_tools(&files(&["Cargo.toml", "Cargo.lock"]), &profile);
    assert_eq!(tools, vec!["rust@stable", "rust-analyzer@latest", "taplo@latest"]);
}

#[test]
fn no_manifest_infers_no_runtime() {
    let tools = infer_tools(&files(&["README.md"]), &empty_profile());
    assert!(tools.is_empty());
    assert_eq!(inferred_mise_command(&tools), "");
}

#[test]
fn inferred_mise_command_lists_tools_in_order() {
    let tools = vec!["node@lts", "pnpm@latest"];
    assert_eq!(
        inferred_mise_command(&tools),
        "mise use --yes --env local node@lts pnpm@latest"
    );
}

#[test]
fn root_mise_configuration_is_recognised() {
    assert!(has_root_mise_config(&files(&["mise.toml"])));
    assert!(has_root_mise_config(&files(&[".mise.toml"])));
    assert!(!has_root_mise_config(&files(&["package.json"])));
    assert!(!has_root_mise_config(&vec![entry("mise.toml", EntryKind::Directory)]));
}

#[test]
fn configured_projects_are_not_inferred() {
    let plan = bootstrap_plan(&files(&["mise.toml", "Cargo.toml"]), false, &empty_profile());
    assert_eq!(plan, BootstrapPlan::Configured);
    let plan = bootstrap_plan(&files(&["Cargo.toml"]), true, &empty_profile());
    assert_eq!(plan, BootstrapPlan::Configured);
    let plan = bootstrap_plan(&files(&["Cargo.toml"]), false, &empty_profile());
    match plan {
        BootstrapPlan::Inferred(tools) => assert!(tools.contains(&"rust@stable")),
        BootstrapPlan::Configured => panic!("expected an inferred plan"),
    }
}

#[test]
fn nested_mise_search_walks_the_known_directories() {
    let root = vec![
        entry("mise", EntryKind::Directory),
        entry(".config", EntryKind::Directory),
    ];
    assert_eq!(first_mise_probe(&root), MiseProbe::List(MiseStep::Mise));
    assert_eq!(mise_step_path(MiseStep::Mise), "mise");
    let probe = next_mise_probe(&root, MiseStep::Mise, &files(&["other.toml"]));
    assert_eq!(probe, MiseProbe::List(MiseStep::Config));
    let probe = next_mise_probe(&root, MiseStep::Config, &vec![entry("mise", EntryKind::Directory)]);
    assert_eq!(probe, MiseProbe::List(MiseStep::ConfigMise));
    assert_eq!(mise_step_path(MiseStep::ConfigMise), ".config/mise");
    let probe = next_mise_probe(&root, MiseStep::ConfigMise, &vec![entry("conf.d", EntryKind::Directory)]);
    assert_eq!(probe, MiseProbe::List(MiseStep::ConfD));
    let probe = next_mise_probe(&root, MiseStep::ConfD, &files(&["tools.toml"]));
    assert_eq!(probe, MiseProbe::Done(true));
    let probe = next_mise_probe(&root, MiseStep::ConfD, &files(&["notes.txt"]));
    assert_eq!(probe, MiseProbe::Done(false));
}

#[test]
fn nested_mise_search_stops_without_candidates() {
    assert_eq!(first_mise_probe(&files(&["Cargo.toml"])), MiseProbe::Done(false));
    let root = vec![entry(".mise", EntryKind::Directory)];
    assert_eq!(first_mise_probe(&root), MiseProbe::List(MiseStep::DotMise));
    assert_eq!(
        next_mise_probe(&root, MiseStep::DotMise, &files(&["config.toml"])),
        MiseProbe::Done(true)
    );
}

#[test]
fn technologies_stand_for_their_languages() {
    assert!(language_represented_by_technology("Vue", &[WorkspaceTechnology::Vue]));
    assert!(!language_represented_by_technology("Vue", &[]));
    assert!(!language_represented_by_technology("Rust", &[WorkspaceTechnology::Vue]));
}

#[test]
fn text_order_is_lexicographic() {
    let a: Vec<char> = "node@lts".chars().collect();
    let b: Vec<char> = "pnpm@latest".chars().collect();
    assert!(is_text_less(&a, &b));
    assert!(!is_text_less(&b, &a));
    assert!(!is_text_less(&a, &a));
}

#[test]
fn vue_server_brings_its_tools() {
    let server = language_server_by_id("vue").expect("vue server");
    assert_eq!(server.id, "vue");
    assert!(server.mise_tools.contains(&"npm:@vue/language-server@latest"));
}

#[test]
fn last_opened_labels_count_minutes_hours_and_days() {
    let now = 10_000_000_000_i64;
    assert_eq!(format_recent(now, now), "Just now");
    assert_eq!(format_recent(now, now - 59_999), "Just now");
    assert_eq!(format_recent(now, now - 5 * 60_000), "5m ago");
    assert_eq!(format_recent(now, now - 3 * 3_600_000), "3h ago");
    assert_eq!(format_recent(now, now - 2 * 86_400_000), "2d ago");
    assert_eq!(format_recent(now, now + 30 * 60_000), "0d ago");
    assert_eq!(format_recent(now, now + 3 * 86_400_000), "-3d ago");
    assert_eq!(format_recent(i64::MIN, i64::MAX), format!("{}d ago", (i64::MIN / 60_000) / 1_440));
    assert!(recent_label(0).ends_with("ago") || recent_label(0) == "Just now");
}

#[test]
fn badges_skip_small_and_represented_languages() {
    let profile = WorkspaceProfile {
        technologies: vec![WorkspaceTechnology::Vue],
        languages: vec![
            WorkspaceLanguage { name: "Vue".into(), bytes: 500 },
            WorkspaceLanguage { name: "Rust".into(), bytes: 480 },
            WorkspaceLanguage { name: "Shell".into(), bytes: 19 },
            WorkspaceLanguage { name: "TOML".into(), bytes: 21 },
        ],
    };
    assert_eq!(total_language_bytes(&profile), 1020);
    let (technologies, languages) = project_badges(&profile);
    assert_eq!(technologies, vec![WorkspaceTechnology::Vue]);
    let names: Vec<&str> = languages.iter().map(|l| l.name.as_str()).collect();
    assert_eq!(names, vec!["Rust", "TOML"]);
    assert_eq!(project_badges(&empty_profile()).1.len(), 0);
    assert_eq!(badge_visibility_class(1), "");
    assert_eq!(badge_visibility_class(3), "max-[479px]:hidden");
    assert_eq!(badge_visibility_class(6), "max-md:hidden");
    assert_eq!(badge_visibility_class(7), "max-lg:hidden");
}
