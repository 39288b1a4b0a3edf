use mitos_packages_toolkit::index::RepositoryIndex;
use mitos_packages_toolkit::metadata::{build_metadata, Dependency, Manifest, PackageMetadata};
use mitos_packages_toolkit::text::decimal_text;
use mitos_packages_toolkit::version::Version;

fn version(major: u64, minor: u64, patch: u64, pre: &str) -> Version {
    Version { major, minor, patch, pre: pre.to_string(), build: String::new() }
}

fn manifest(name: &str, v: Version) -> Manifest {
    Manifest {
        name: name.to_string(),
        version: v,
        description: "fixture".to_string(),
        dependencies: vec![Dependency { name: "mitos-utils".to_string(), version: ">=0.1.0".to_string() }],
        provides: vec!["p".to_string()],
        conflicts: vec![],
        payload_sha256: "ab".repeat(32),
        signer: None,
    }
}

fn meta(name: &str, v: Version) -> PackageMetadata {
    let text = v.to_text();
    build_metadata(
        &manifest(name, v),
        format!("https://example.invalid/packages/{name}-{text}.mpkg"),
        "00".repeat(32),
        None,
        1024,
    )
}

fn versions_of(index: &RepositoryIndex, name: &str) -> Vec<String> {
    index.get(name).map(|v| v.iter().map(|m| m.version.to_text()).collect()).unwrap_or_default()
}

#[test]
fn folds_multiple_versions_of_one_package() {
    let index = RepositoryIndex::from_metadata(vec![
        meta("tests-fixture-pkg", version(0, 2, 0, "")),
        meta("tests-fixture-pkg", version(0, 1, 0, "")),
    ]);
    let versions = index.get("tests-fixture-pkg").expect("fixture package should be present");
    assert_eq!(versions.len(), 2);
    let a = semver::Version::parse(&versions[0].version.to_text()).unwrap();
    let b = semver::Version::parse(&versions[1].version.to_text()).unwrap();
    assert!(a < b, "versions should be sorted ascending");
}

#[test]
fn missing_metadata_dir_yields_an_empty_index() {
    let index = RepositoryIndex::from_metadata(vec![]);
    assert_eq!(index.package_count(), 0);
    assert!(index.packages.is_empty());
    assert!(RepositoryIndex::new().packages.is_empty());
}

#[test]
fn versions_sort_by_semver_precedence() {
    let index = RepositoryIndex::from_metadata(vec![
        meta("a", version(1, 0, 0, "")),
        meta("a", version(1, 0, 0, "beta.11")),
        meta("a", version(0, 10, 0, "")),
        meta("a", version(1, 0, 0, "beta.2")),
        meta("a", version(0, 9, 7, "")),
        meta("a", version(1, 0, 0, "alpha")),
    ]);
    assert_eq!(
        versions_of(&index, "a"),
        vec!["0.9.7", "0.10.0", "1.0.0-alpha", "1.0.0-beta.2", "1.0.0-beta.11", "1.0.0"]
    );
}

#[test]
fn each_package_gets_its_own_group() {
    let index = RepositoryIndex::from_metadata(vec![
        meta("b", version(2, 0, 0, "")),
        meta("a", version(1, 0, 0, "")),
        meta("b", version(1, 0, 0, "")),
    ]);
    assert_eq!(index.package_count(), 2);
    assert_eq!(index.version_count(), 3);
    assert_eq!(versions_of(&index, "b"), vec!["1.0.0", "2.0.0"]);
    assert_eq!(versions_of(&index, "a"), vec!["1.0.0"]);
    assert!(index.get("c").is_none());
    for group in &index.packages {
        assert!(group.versions.iter().all(|m| m.name == group.name));
    }
}

#[test]
fn order_of_the_metadata_files_does_not_matter() {
    let one = RepositoryIndex::from_metadata(vec![
        meta("x", version(0, 3, 0, "")),
        meta("y", version(1, 0, 0, "")),
        meta("x", version(0, 1, 0, "")),
    ]);
    let two = RepositoryIndex::from_metadata(vec![
        meta("x", version(0, 1, 0, "")),
        meta("x", version(0, 3, 0, "")),
        meta("y", version(1, 0, 0, "")),
    ]);
    for name in ["x", "y", "z"] {
        assert_eq!(versions_of(&one, name), versions_of(&two, name));
    }
}

#[test]
fn rebuilding_in_another_order_gives_the_same_list() {
    let with_build = |build: &str| {
        let mut v = version(1, 0, 0, "rc.1");
        v.build = build.to_string();
        meta("x", v)
    };
    let one = RepositoryIndex::from_metadata(vec![
        with_build("b"),
        meta("x", version(1, 0, 0, "")),
        with_build("a"),
        with_build(""),
    ]);
    let two = RepositoryIndex::from_metadata(vec![
        with_build(""),
        with_build("a"),
        meta("x", version(1, 0, 0, "")),
        with_build("b"),
    ]);
    let expected = vec!["1.0.0-rc.1", "1.0.0-rc.1+a", "1.0.0-rc.1+b", "1.0.0"];
    assert_eq!(versions_of(&one, "x"), expected);
    assert_eq!(versions_of(&two, "x"), expected);
}

#[test]
fn groups_come_in_name_order() {
    let index = RepositoryIndex::from_metadata(vec![
        meta("mitos-utils", version(1, 0, 0, "")),
        meta("émile", version(1, 0, 0, "")),
        meta("alpha", version(1, 0, 0, "")),
        meta("Zed", version(1, 0, 0, "")),
        meta("mitos", version(1, 0, 0, "")),
        meta("alpha", version(2, 0, 0, "")),
    ]);
    let names: Vec<&str> = index.packages.iter().map(|g| g.name.as_str()).collect();
    assert_eq!(names, vec!["Zed", "alpha", "mitos", "mitos-utils", "émile"]);
    let mut sorted = names.clone();
    sorted.sort();
    assert_eq!(names, sorted);
}

#[test]
fn equal_versions_keep_the_order_they_were_read_in() {
    let described = |d: &str| {
        let mut m = meta("x", version(1, 0, 0, ""));
        m.description = d.to_string();
        m
    };
    let index = RepositoryIndex::from_metadata(vec![
        described("first"),
        meta("x", version(2, 0, 0, "")),
        described("second"),
        meta("x", version(0, 5, 0, "")),
        described("third"),
    ]);
    let got: Vec<(String, String)> = index
        .get("x")
        .unwrap()
        .iter()
        .map(|m| (m.version.to_text(), m.description.clone()))
        .collect();
    assert_eq!(
        got,
        vec![
            ("0.5.0".to_string(), "fixture".to_string()),
            ("1.0.0".to_string(), "first".to_string()),
            ("1.0.0".to_string(), "second".to_string()),
            ("1.0.0".to_string(), "third".to_string()),
            ("2.0.0".to_string(), "fixture".to_string()),
        ]
    );
}

#[test]
fn equal_versions_are_both_kept() {
    let index = RepositoryIndex::from_metadata(vec![
        meta("x", version(1, 0, 0, "")),
        meta("x", version(1, 0, 0, "")),
    ]);
    assert_eq!(versions_of(&index, "x"), vec!["1.0.0", "1.0.0"]);
}

#[test]
fn insert_keeps_groups_sorted() {
    let mut index = RepositoryIndex::new();
    index.insert(meta("x", version(3, 0, 0, "")));
    index.insert(meta("x", version(1, 0, 0, "")));
    index.insert(meta("x", version(2, 0, 0, "")));
    assert_eq!(versions_of(&index, "x"), vec!["1.0.0", "2.0.0", "3.0.0"]);
}

#[test]
fn metadata_entry_from_a_manifest() {
    let m = build_metadata(
        &manifest("mitos-init", version(0, 1, 0, "")),
        "https://packages.mitos-os.org/stable/packages/mitos-init-0.1.0.mpkg".to_string(),
        "cd".repeat(32),
        Some("ef".repeat(64)),
        4096,
    );
    assert_eq!(m.name, "mitos-init");
    assert_eq!(m.version.to_text(), "0.1.0");
    assert_eq!(m.description, "fixture");
    assert_eq!(m.dependencies.len(), 1);
    assert_eq!(m.provides, vec!["p".to_string()]);
    assert!(m.conflicts.is_empty());
    assert_eq!(m.url, "https://packages.mitos-os.org/stable/packages/mitos-init-0.1.0.mpkg");
    assert_eq!(m.sha256.len(), 64);
    assert_eq!(m.signature.as_deref().map(str::len), Some(128));
    assert_eq!(m.size_bytes, 4096);
    assert_eq!(m.arch, vec!["any".to_string()]);
    assert!(!m.essential);
    assert_eq!(m.installed_size_bytes, 0);
    assert_eq!(m.priority, "0");
}

#[test]
fn version_text_matches_semver() {
    for text in ["0.0.0", "1.2.3", "10.200.3000", "1.0.0-alpha.1", "1.0.0+build.5", "1.0.0-rc.1+exp.sha.5114f85", "18446744073709551615.0.1"] {
        let s = semver::Version::parse(text).unwrap();
        let v = Version {
            major: s.major,
            minor: s.minor,
            patch: s.patch,
            pre: s.pre.as_str().to_string(),
            build: s.build.as_str().to_string(),
        };
        assert_eq!(v.to_text(), s.to_string());
        assert_eq!(v.to_text(), text);
    }
}

#[test]
fn decimal_rendering() {
    for n in [0u64, 7, 10, 99, 100, 12345, u64::MAX] {
        assert_eq!(decimal_text(n), n.to_string());
    }
}
