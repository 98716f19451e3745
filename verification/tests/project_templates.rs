use std::collections::HashSet;
use syntaxis::project_templates::{
    categories, category_has_matches, definition, templates, ProjectTemplate,
    TemplateCategory,
};

#[test]
fn catalog_is_unique_and_retains_interactive_starters() {
    let catalog = templates();
    assert_eq!(catalog.len(), 30);
    assert_eq!(
        catalog
            .iter()
            .map(|template| template.label)
            .collect::<HashSet<_>>()
            .len(),
        catalog.len(),
    );
    assert!(definition(ProjectTemplate::Dioxus)
        .command
        .unwrap()
        .contains("0.7.10"));
    assert!(definition(ProjectTemplate::VitePlus)
        .command
        .unwrap()
        .contains("vp create"));
}

#[test]
fn every_starter_has_its_own_definition() {
    for template in templates() {
        assert_eq!(definition(template.template), template);
    }
    assert_eq!(definition(ProjectTemplate::default()).label, "Empty");
    assert_eq!(definition(ProjectTemplate::Empty).command, None);
}

#[test]
fn search_looks_at_label_description_and_category() {
    let rust = definition(ProjectTemplate::Rust);
    assert!(syntaxis::project_templates::matches(&rust, ""));
    assert!(syntaxis::project_templates::matches(&rust, "  RUST "));
    assert!(syntaxis::project_templates::matches(&rust, "cargo"));
    assert!(syntaxis::project_templates::matches(&rust, "basics"));
    assert!(!syntaxis::project_templates::matches(&rust, "python"));
    assert!(category_has_matches(TemplateCategory::Native, "expo"));
    assert!(!category_has_matches(TemplateCategory::Backend, "expo"));
    assert_eq!(categories().len(), 4);
    assert_eq!(TemplateCategory::Web.label(), "Web");
}
