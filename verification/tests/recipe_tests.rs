use mitos_packages_toolkit::metadata::Dependency;
use mitos_packages_toolkit::recipe::{default_rev, TemplateLoad};
use mitos_packages_toolkit::version::Version;
use mitos_packages_toolkit::{BuildSpec, Channel, Recipe, Source, Template, ToolkitError};

fn v(major: u64, minor: u64, patch: u64) -> Version {
    Version { major, minor, patch, pre: String::new(), build: String::new() }
}

fn fixture_recipe(name: &str, category: &str, steps: Vec<String>) -> Recipe {
    Recipe {
        name: name.to_string(),
        version: v(0, 1, 0),
        description: "A fixture package.".to_string(),
        category: category.to_string(),
        channel: Channel::default(),
        inherits: Some("cargo".to_string()),
        source: Source { git: "https://example.invalid/tests-fixture-pkg".to_string(), rev: default_rev() },
        build: BuildSpec { system: None, steps },
        dependencies: vec![Dependency { name: "mitos-utils".to_string(), version: ">=0.1.0".to_string() }],
        provides: vec![],
        conflicts: vec![],
        signer: None,
    }
}

fn cargo_template() -> Template {
    Template {
        system: "cargo".to_string(),
        steps: vec!["cargo install --path . --root \"$MITOS_PAYLOAD_DIR/usr\" --locked".to_string()],
    }
}

fn recipe_message(e: ToolkitError) -> String {
    match e {
        ToolkitError::Recipe(m) => m,
        other => panic!("expected a recipe error, got {:?}", other),
    }
}

#[test]
fn loads_a_minimal_recipe() {
    let recipe = fixture_recipe("tests-fixture-pkg", "core", vec![])
        .validate_location("tests/packages/minimal-valid.recipe.toml", "core", "tests-fixture-pkg")
        .expect("minimal recipe should load");
    assert_eq!(recipe.name, "tests-fixture-pkg");
    assert_eq!(recipe.channel, Channel::Testing);
    assert!(
        recipe.build.steps.is_empty(),
        "build.steps should still be empty before resolve() runs"
    );
}

#[test]
fn rejects_a_category_mismatch() {
    let result = fixture_recipe("tests-fixture-pkg", "system", vec![]).validate_location(
        "tests/packages/category-mismatch.recipe.toml",
        "core",
        "tests-fixture-pkg",
    );
    assert!(
        result.is_err(),
        "a recipe whose category field disagrees with its directory must be rejected"
    );
}

#[test]
fn category_mismatch_message_names_both() {
    let err = fixture_recipe("tests-fixture-pkg", "system", vec![])
        .validate_location("r.toml", "core", "tests-fixture-pkg")
        .unwrap_err();
    assert_eq!(
        recipe_message(err),
        "r.toml: category 'system' doesn't match its directory (packages/core/tests-fixture-pkg/)"
    );
}

#[test]
fn name_mismatch_is_rejected() {
    let err = fixture_recipe("other-name", "core", vec![])
        .validate_location("r.toml", "core", "tests-fixture-pkg")
        .unwrap_err();
    assert_eq!(
        recipe_message(err),
        "r.toml: name 'other-name' doesn't match its directory (packages/core/tests-fixture-pkg/)"
    );
}

#[test]
fn category_is_checked_before_name() {
    let err = fixture_recipe("other-name", "system", vec![])
        .validate_location("r.toml", "core", "tests-fixture-pkg")
        .unwrap_err();
    assert!(recipe_message(err).contains("category 'system'"));
}

#[test]
fn resolve_pulls_in_the_cargo_template() {
    let recipe = fixture_recipe("tests-fixture-pkg", "core", vec![])
        .validate_location("minimal-valid.recipe.toml", "core", "tests-fixture-pkg")
        .unwrap();
    let request = recipe.template_request("recipes").expect("a template is needed");
    assert_eq!(request.name, "cargo");
    assert_eq!(request.path, "recipes/core/cargo.toml");
    let recipe = recipe
        .resolve("recipes", TemplateLoad::Loaded(cargo_template()))
        .expect("resolving against the real recipes/core/cargo.toml should succeed");
    assert!(
        !recipe.build.steps.is_empty(),
        "inherits should have populated build.steps from recipes/core/cargo.toml"
    );
    assert_eq!(recipe.build.system.as_deref(), Some("cargo"));
    assert!(recipe.template_request("recipes").is_none());
}

#[test]
fn explicit_steps_win_over_inherits() {
    let recipe = fixture_recipe(
        "tests-fixture-pkg-explicit",
        "core",
        vec!["echo this-is-the-explicit-step".to_string()],
    )
    .validate_location("explicit-steps.recipe.toml", "core", "tests-fixture-pkg-explicit")
    .unwrap();
    assert!(recipe.template_request("recipes").is_none());
    let recipe = recipe
        .resolve("recipes", TemplateLoad::Unreadable("not consulted".to_string()))
        .expect("resolve should be a no-op once build.steps is already set");
    assert_eq!(recipe.build.steps, vec!["echo this-is-the-explicit-step".to_string()]);
    assert_eq!(recipe.build.system, None);
}

#[test]
fn resolve_keeps_the_recipes_own_system() {
    let mut recipe = fixture_recipe("p", "core", vec![]);
    recipe.build.system = Some("meson".to_string());
    let recipe = recipe.resolve("recipes", TemplateLoad::Loaded(cargo_template())).unwrap();
    assert_eq!(recipe.build.system.as_deref(), Some("meson"));
    assert_eq!(recipe.build.steps, cargo_template().steps);
}

#[test]
fn resolve_without_inherits_changes_nothing() {
    let mut recipe = fixture_recipe("p", "core", vec![]);
    recipe.inherits = None;
    assert!(recipe.template_request("recipes").is_none());
    let recipe = recipe
        .resolve("recipes", TemplateLoad::Unreadable("not consulted".to_string()))
        .expect("resolve should be a no-op without inherits");
    assert!(recipe.build.steps.is_empty());
    assert_eq!(recipe.build.system, None);
}

#[test]
fn resolving_twice_is_resolving_once() {
    let load = || TemplateLoad::Loaded(cargo_template());
    let once = fixture_recipe("p", "core", vec![]).resolve("r", load()).unwrap();
    let twice = fixture_recipe("p", "core", vec![]).resolve("r", load()).unwrap().resolve("r", load()).unwrap();
    assert_eq!(once.build.steps, twice.build.steps);
    assert_eq!(once.build.system, twice.build.system);
}

#[test]
fn template_path_follows_the_category() {
    let recipe = fixture_recipe("p", "core", vec![]);
    assert_eq!(recipe.template_request("recipes").unwrap().path, "recipes/core/cargo.toml");
    assert_eq!(recipe.template_request("recipes/").unwrap().path, "recipes/core/cargo.toml");
    let recipe = fixture_recipe("p", "system", vec![]);
    assert_eq!(recipe.template_request("/r").unwrap().path, "/r/system/cargo.toml");
}

#[test]
fn template_read_error_message() {
    let recipe = fixture_recipe("p", "core", vec![]);
    let e = recipe.resolve("recipes", TemplateLoad::Unreadable("No such file".to_string())).unwrap_err();
    assert_eq!(
        recipe_message(e),
        "p: inherits 'cargo' but recipes/core/cargo.toml could not be read: No such file"
    );
}

#[test]
fn invalid_template_is_a_toml_error() {
    let recipe = fixture_recipe("p", "core", vec![]);
    match recipe.resolve("recipes", TemplateLoad::Invalid("missing field `steps`".to_string())) {
        Err(ToolkitError::TomlParse(m)) => assert_eq!(m, "missing field `steps`"),
        other => panic!("expected a TOML error, got {:?}", other.map(|r| r.name)),
    }
}

#[test]
fn package_spec_copies_the_package_fields() {
    let mut recipe = fixture_recipe("tests-fixture-pkg", "core", vec![]);
    recipe.provides = vec!["a".to_string()];
    recipe.conflicts = vec!["b".to_string(), "c".to_string()];
    recipe.signer = Some("mitos-release".to_string());
    let spec = recipe.to_package_spec();
    assert_eq!(spec.name, "tests-fixture-pkg");
    assert_eq!(spec.version.to_text(), "0.1.0");
    assert_eq!(spec.description, "A fixture package.");
    assert_eq!(spec.dependencies.len(), 1);
    assert_eq!(spec.dependencies[0].name, "mitos-utils");
    assert_eq!(spec.dependencies[0].version, ">=0.1.0");
    assert_eq!(spec.provides, vec!["a".to_string()]);
    assert_eq!(spec.conflicts, vec!["b".to_string(), "c".to_string()]);
    assert_eq!(spec.signer.as_deref(), Some("mitos-release"));
}

#[test]
fn channel_names() {
    assert_eq!(Channel::Stable.as_str(), "stable");
    assert_eq!(Channel::Testing.as_str(), "testing");
    assert_eq!(Channel::Community.as_str(), "community");
    assert_eq!(Channel::default(), Channel::Testing);
}

#[test]
fn default_revision_is_main() {
    assert_eq!(default_rev(), "main");
    let b = BuildSpec::default();
    assert!(b.system.is_none() && b.steps.is_empty());
}

#[test]
fn build_steps_are_required() {
    let recipe = fixture_recipe("p", "core", vec![]);
    let e = recipe.check_build_steps().unwrap_err();
    assert_eq!(
        recipe_message(e),
        "p: no build steps — set build.steps directly or inherits = \"<template>\""
    );
    let recipe = fixture_recipe("p", "core", vec!["make".to_string()]);
    assert!(recipe.check_build_steps().is_ok());
    assert_eq!(
        recipe_message(recipe.step_failed("exit status: 2", "make")),
        "p: build step failed (exit status: 2): make"
    );
}
