use mitos_packages_toolkit::builder::{build_dirs, clone_failed, default_out_dir, default_workdir, must_fetch};
use mitos_packages_toolkit::metadata::metadata_path;
use mitos_packages_toolkit::paths::{
    archive_file_name, archive_url, category_and_name, channel_layout, components, has_json_extension,
    join_path, signature_path, url_file_name,
};
use mitos_packages_toolkit::version::Version;
use mitos_packages_toolkit::{Channel, ToolkitError};

fn message(e: ToolkitError) -> String {
    match e {
        ToolkitError::Recipe(m) => m,
        other => panic!("expected a recipe error, got {:?}", other),
    }
}

#[test]
fn category_and_name_from_a_recipe_path() {
    let (c, n) = category_and_name("packages/core/mitos-init/recipe.toml").unwrap();
    assert_eq!((c.as_str(), n.as_str()), ("core", "mitos-init"));
    let (c, n) = category_and_name("/abs/packages/system//mitos-shell/./recipe.toml").unwrap();
    assert_eq!((c.as_str(), n.as_str()), ("system", "mitos-shell"));
    let (c, n) = category_and_name("./core/pkg/recipe.toml").unwrap();
    assert_eq!((c.as_str(), n.as_str()), ("core", "pkg"));
}

#[test]
fn category_and_name_errors() {
    assert_eq!(
        message(category_and_name("").unwrap_err()),
        ": expected packages/<category>/<name>/recipe.toml"
    );
    assert_eq!(
        message(category_and_name("/").unwrap_err()),
        "/: expected packages/<category>/<name>/recipe.toml"
    );
    assert_eq!(
        message(category_and_name("recipe.toml").unwrap_err()),
        "recipe.toml: cannot determine package name from path"
    );
    assert_eq!(
        message(category_and_name("./recipe.toml").unwrap_err()),
        "./recipe.toml: cannot determine package name from path"
    );
    assert_eq!(
        message(category_and_name("a/../recipe.toml").unwrap_err()),
        "a/../recipe.toml: cannot determine package name from path"
    );
    assert_eq!(
        message(category_and_name("pkg/recipe.toml").unwrap_err()),
        "pkg/recipe.toml: cannot determine category from path"
    );
    assert_eq!(
        message(category_and_name("/pkg/recipe.toml").unwrap_err()),
        "/pkg/recipe.toml: cannot determine category from path"
    );
}

#[test]
fn components_follow_std_path() {
    for p in ["", "/", "a", "/a/b", "a//b/", "./a/./b", ".", "..", "a/..", "./", "x/./", ".//x"] {
        let std: Vec<String> = std::path::Path::new(p)
            .components()
            .filter_map(|c| match c {
                std::path::Component::Normal(s) => Some(s.to_string_lossy().into_owned()),
                std::path::Component::CurDir => Some(".".to_string()),
                std::path::Component::ParentDir => Some("..".to_string()),
                _ => None,
            })
            .collect();
        assert_eq!(components(p), std, "components of {:?}", p);
    }
}

#[test]
fn json_files_are_recognised() {
    assert!(has_json_extension("metadata/pkg/0.1.0.json"));
    assert!(has_json_extension("x/.a.json"));
    assert!(!has_json_extension("metadata/pkg/.json"));
    assert!(!has_json_extension("metadata/pkg/README.md"));
    assert!(!has_json_extension("metadata/pkg"));
    assert!(!has_json_extension("a.json/.."));
    assert!(!has_json_extension("a.jsonx"));
    for p in ["a/b.json", "x/.json", "c.json/", "d", "e.", "f.JSON", ".g.json"] {
        let std = std::path::Path::new(p).extension().and_then(|e| e.to_str()) == Some("json");
        assert_eq!(has_json_extension(p), std, "extension of {:?}", p);
    }
}

#[test]
fn paths_join_like_std() {
    assert_eq!(join_path("a", "b"), "a/b");
    assert_eq!(join_path("a/", "b"), "a/b");
    assert_eq!(join_path("", "b"), "b");
    assert_eq!(join_path("a", "/b"), "/b");
    for (a, b) in [("x/y", "z"), ("x/", "z"), ("", "z"), ("x", "/z"), ("x", "")] {
        let std = std::path::Path::new(a).join(b);
        assert_eq!(join_path(a, b), std.to_string_lossy(), "{:?} joined with {:?}", a, b);
    }
}

#[test]
fn metadata_lives_under_name_and_version() {
    let version = Version { major: 1, minor: 20, patch: 3, pre: "rc.1".to_string(), build: String::new() };
    assert_eq!(
        metadata_path("repositories/stable/metadata", "mitos-init", &version),
        "repositories/stable/metadata/mitos-init/1.20.3-rc.1.json"
    );
}

#[test]
fn download_url_of_an_archive() {
    assert_eq!(
        archive_url("https://packages.mitos-os.org/stable", "mitos-init-0.1.0.mpkg"),
        "https://packages.mitos-os.org/stable/packages/mitos-init-0.1.0.mpkg"
    );
    assert_eq!(
        archive_url("https://packages.mitos-os.org/stable//", "a.mpkg"),
        "https://packages.mitos-os.org/stable/packages/a.mpkg"
    );
    assert_eq!(url_file_name("https://x.org/stable/packages/a-1.0.0.mpkg"), "a-1.0.0.mpkg");
    assert_eq!(url_file_name("plain.mpkg"), "plain.mpkg");
    assert_eq!(url_file_name("https://x.org/"), "");
}

#[test]
fn archive_file_names() {
    assert_eq!(archive_file_name("repositories/stable/packages/a-1.0.0.mpkg").unwrap(), "a-1.0.0.mpkg");
    assert_eq!(message(archive_file_name("x/..").unwrap_err()), "x/..: not a valid archive filename");
}

#[test]
fn channel_layout_matches_the_repository_format() {
    let l = channel_layout("repositories", "stable");
    assert_eq!(l.metadata_dir, "repositories/stable/metadata");
    assert_eq!(l.packages_dir, "repositories/stable/packages");
    assert_eq!(l.signatures_dir, "repositories/stable/signatures");
    assert_eq!(l.index_path, "repositories/stable/index/index.json");
    assert_eq!(signature_path(&l.index_path), "repositories/stable/index/index.json.sig");
}

#[test]
fn build_directories() {
    assert_eq!(default_workdir("mitos-init"), "target/mitos-packages-build/mitos-init");
    let d = build_dirs("w");
    assert_eq!((d.src_dir.as_str(), d.stage_dir.as_str(), d.payload_dir.as_str()), ("w/src", "w/stage", "w/stage/payload"));
    assert_eq!(default_out_dir("repositories", Channel::Community), "repositories/community/packages");
    assert!(must_fetch(false, true));
    assert!(must_fetch(true, false));
    assert!(!must_fetch(true, true));
    assert_eq!(
        message(clone_failed("https://example.invalid/x", "exit status: 128")),
        "git clone of https://example.invalid/x failed (exit status: 128)"
    );
}

#[test]
fn publish_recovers_the_file_name_of_a_download_url() {
    for base in ["https://packages.mitos-os.org/stable", "https://x.org/", "", "a//"] {
        let f = "mitos-init-0.1.0.mpkg";
        assert_eq!(url_file_name(&archive_url(base, f)), f);
    }
}

#[test]
fn written_metadata_files_are_indexed() {
    for (dir, name) in [("repositories/stable/metadata", "mitos-init"), ("", "x"), ("m/", "y"), ("/", "z")] {
        let version = Version { major: 2, minor: 0, patch: 11, pre: "beta.1".to_string(), build: "7".to_string() };
        let p = metadata_path(dir, name, &version);
        assert!(has_json_extension(&p), "{p}");
        assert_eq!(
            std::path::Path::new(&p).file_name().and_then(|f| f.to_str()),
            Some("2.0.11-beta.1+7.json")
        );
    }
}
