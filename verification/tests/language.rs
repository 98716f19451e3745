use syntaxis::language::{language_label_for_path, language_slug_for_path};
use syntaxis::language_service::{
    language_server_by_id, language_servers_for_language, profile_language_id,
    ProjectLocalLanguageServer, WorkspaceTechnology,
};

#[test]
fn maps_special_names_and_broad_language_extensions() {
    assert_eq!(language_slug_for_path("Dockerfile"), "dockerfile");
    assert_eq!(language_slug_for_path(".git/hooks/pre-commit"), "bash");
    assert_eq!(language_slug_for_path("src/view.tsx"), "tsx");
    assert_eq!(language_slug_for_path("config/app.yaml"), "yaml");
}

#[test]
fn unknown_extensions_fall_back_and_labels_follow_slugs() {
    assert_eq!(language_slug_for_path("notes.unknown"), "rust");
    assert_eq!(language_slug_for_path("etc/nginx.conf"), "nginx");
    assert_eq!(language_slug_for_path("build.Dockerfile"), "dockerfile");
    assert_eq!(language_label_for_path("script.SH"), "Shell");
    assert_eq!(language_label_for_path("main.cpp"), "C++");
    assert_eq!(language_label_for_path("etc/nginx.conf"), "nginx");
}

fn ids(language: &str, technologies: &[WorkspaceTechnology]) -> Vec<&'static str> {
    language_servers_for_language(language, technologies)
        .iter()
        .map(|server| server.id)
        .collect::<Vec<_>>()
}

#[test]
fn deno_projects_prefer_the_builtin_language_server() {
    assert_eq!(ids("typescript", &[WorkspaceTechnology::Deno]), vec!["deno"]);
    assert_eq!(ids("typescript", &[]), vec!["typescript"]);
}

#[test]
fn unsupported_languages_do_not_fall_back_to_an_arbitrary_server() {
    assert!(language_servers_for_language("plaintext", &[]).is_empty());
    assert!(language_server_by_id("client-supplied-command").is_none());
}

#[test]
fn tailwind_augments_the_primary_language_server() {
    assert_eq!(
        ids("tsx", &[WorkspaceTechnology::Tailwind]),
        vec!["typescript", "tailwindcss"]
    );
    assert_eq!(
        ids(
            "typescript",
            &[WorkspaceTechnology::Deno, WorkspaceTechnology::Tailwind]
        ),
        vec!["deno", "tailwindcss"]
    );
}

#[test]
fn web_framework_files_use_their_framework_server() {
    assert_eq!(ids("vue", &[]), vec!["vue"]);
    assert_eq!(
        ids("astro", &[WorkspaceTechnology::Tailwind]),
        vec!["astro", "tailwindcss"]
    );
}

#[test]
fn node_servers_declare_their_project_local_packages() {
    let typescript = language_server_by_id("typescript").unwrap();
    assert_eq!(
        typescript.project_local,
        Some(ProjectLocalLanguageServer {
            package: "typescript",
            minimum_major: Some(7),
        })
    );
    assert_eq!(typescript.mise_tools, ["npm:typescript@latest"]);
    for server_id in ["vue", "svelte", "astro", "tailwindcss"] {
        assert!(
            language_server_by_id(server_id)
                .unwrap()
                .project_local
                .is_some(),
            "{server_id} should support a project-local package"
        );
    }
    assert!(language_server_by_id("rust-analyzer")
        .unwrap()
        .project_local
        .is_none());
}

#[test]
fn profile_names_map_to_language_ids() {
    assert_eq!(profile_language_id("Sass"), Some("scss"));
    assert_eq!(profile_language_id("Terraform"), Some("terraform"));
    assert_eq!(profile_language_id("Kotlin"), None);
}

#[test]
fn languages_ignore_letter_case_and_directories() {
    assert_eq!(language_slug_for_path("SRC/Main.RS"), language_slug_for_path("main.rs"));
    assert_eq!(language_slug_for_path("deep/nested/dir/Dockerfile"), "dockerfile");
    assert_eq!(language_slug_for_path("a.dockerfile.d/notes.md"), "markdown");
    assert_eq!(language_slug_for_path("scripts/INSTALL.SH"), language_slug_for_path("install.sh"));
}

#[test]
fn every_profile_language_has_a_language_server() {
    let names = [
        "Rust", "JavaScript", "TypeScript", "Python", "Go", "HTML", "CSS", "SCSS", "Sass", "JSON",
        "YAML", "TOML", "Shell", "HCL", "Terraform", "PHP", "Ruby", "Vue", "Svelte", "Astro",
    ];
    for name in names {
        let id = profile_language_id(name).expect("profile language");
        assert!(!language_servers_for_language(id, &[]).is_empty(), "{name}");
        assert!(!language_servers_for_language(id, &[WorkspaceTechnology::Deno]).is_empty(), "{name}");
    }
    assert_eq!(profile_language_id("Brainfuck"), None);
}

#[test]
fn unrecognised_names_fall_back_to_rust() {
    assert_eq!(language_slug_for_path("notes.txt"), "rust");
    assert_eq!(language_slug_for_path("README"), "rust");
}
