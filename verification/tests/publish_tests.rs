use mitos_packages_toolkit::metadata::{Manifest, PackageMetadata};
use mitos_packages_toolkit::publish::{archive_missing, archive_unreadable, problem, ArchiveCheck, PublishCheck};
use mitos_packages_toolkit::text::same_text;
use mitos_packages_toolkit::version::Version;
use mitos_packages_toolkit::ToolkitError;

fn message(e: ToolkitError) -> String {
    match e {
        ToolkitError::Recipe(m) => m,
        other => panic!("expected a recipe error, got {:?}", other),
    }
}

fn entry() -> PackageMetadata {
    PackageMetadata {
        name: "mitos-init".to_string(),
        version: Version { major: 0, minor: 1, patch: 0, pre: String::new(), build: String::new() },
        description: String::new(),
        dependencies: vec![],
        provides: vec![],
        conflicts: vec![],
        url: "https://x/packages/mitos-init-0.1.0.mpkg".to_string(),
        sha256: "00".repeat(32),
        signature: None,
        size_bytes: 1,
        arch: vec!["any".to_string()],
        essential: false,
        installed_size_bytes: 0,
        priority: "0".to_string(),
    }
}

#[test]
fn a_clean_channel_passes() {
    let check = PublishCheck::new(false);
    assert!(check.outcome("stable").is_ok());
}

#[test]
fn any_problem_fails_the_channel() {
    let mut check = PublishCheck::new(false);
    let stop = check.record(archive_missing(&entry(), "repositories/stable/packages/mitos-init-0.1.0.mpkg"));
    assert!(!stop);
    assert_eq!(
        check.problems,
        vec!["mitos-init 0.1.0: archive not found at repositories/stable/packages/mitos-init-0.1.0.mpkg".to_string()]
    );
    assert_eq!(message(check.outcome("stable").unwrap_err()), "channel 'stable' failed pre-publish validation");
}

#[test]
fn fail_fast_stops_at_the_first_problem() {
    let mut check = PublishCheck::new(true);
    assert!(check.record(problem(&entry(), "checksum mismatch")));
    assert_eq!(check.problems, vec!["mitos-init 0.1.0: checksum mismatch".to_string()]);
}

#[test]
fn unreadable_archive_problem() {
    assert_eq!(
        archive_unreadable(&entry(), "p.mpkg", "permission denied"),
        "mitos-init 0.1.0: could not read p.mpkg: permission denied"
    );
}

#[test]
fn signing_needs_a_signer() {
    let mut m = Manifest {
        name: "a".to_string(),
        version: Version { major: 1, minor: 0, patch: 0, pre: String::new(), build: String::new() },
        description: String::new(),
        dependencies: vec![],
        provides: vec![],
        conflicts: vec![],
        payload_sha256: "00".repeat(32),
        signer: None,
    };
    assert_eq!(
        message(m.require_signer("a-1.0.0.mpkg").unwrap_err()),
        "a-1.0.0.mpkg: manifest has no \"signer\" set — nothing names who this signature should be attributed to"
    );
    m.signer = Some("mitos-release".to_string());
    assert_eq!(m.require_signer("a-1.0.0.mpkg").unwrap(), "mitos-release");
}

#[test]
fn text_equality() {
    assert!(same_text("abc", "abc"));
    assert!(!same_text("abc", "abd"));
    assert!(!same_text("ab", "abc"));
}

#[test]
fn each_archive_finding_records_its_problem() {
    let mut check = PublishCheck::new(false);
    assert!(!check.check_entry(&entry(), "p.mpkg", ArchiveCheck::Matches));
    assert!(check.problems.is_empty());
    assert!(!check.check_entry(&entry(), "p.mpkg", ArchiveCheck::Missing));
    assert!(!check.check_entry(&entry(), "p.mpkg", ArchiveCheck::Unreadable("denied".to_string())));
    assert!(!check.check_entry(&entry(), "p.mpkg", ArchiveCheck::Mismatch("checksum mismatch".to_string())));
    assert_eq!(
        check.problems,
        vec![
            "mitos-init 0.1.0: archive not found at p.mpkg".to_string(),
            "mitos-init 0.1.0: could not read p.mpkg: denied".to_string(),
            "mitos-init 0.1.0: checksum mismatch".to_string(),
        ]
    );
    let mut fast = PublishCheck::new(true);
    assert!(!fast.check_entry(&entry(), "p.mpkg", ArchiveCheck::Matches));
    assert!(fast.check_entry(&entry(), "p.mpkg", ArchiveCheck::Missing));
    assert_eq!(fast.problems.len(), 1);
    assert!(fast.outcome("testing").is_err() && check.outcome("testing").is_err());
}

#[test]
fn signature_copy_note() {
    let mut signed = entry();
    signed.signature = Some("ab".repeat(64));
    assert!(PublishCheck::signature_note_needed(&signed, &ArchiveCheck::Matches, false));
    assert!(!PublishCheck::signature_note_needed(&signed, &ArchiveCheck::Matches, true));
    assert!(!PublishCheck::signature_note_needed(&signed, &ArchiveCheck::Missing, false));
    assert!(PublishCheck::signature_note_needed(&signed, &ArchiveCheck::Unreadable("x".to_string()), false));
    assert!(!PublishCheck::signature_note_needed(&entry(), &ArchiveCheck::Matches, false));
}
