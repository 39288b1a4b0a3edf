//! Package versions: a semantic version held as plain values, its text
//! form, and its precedence, which the `semver` crate decides.

use vstd::prelude::*;
use crate::text::{decimal, decimal_text, push_char};
use crate::precedence::version_precedence;

verus! {

/// A semantic version `MAJOR.MINOR.PATCH[-PRE][+BUILD]`; `pre` and
/// `build` are empty when absent.
#[derive(Debug)]
pub struct Version {
    pub major: u64,
    pub minor: u64,
    pub patch: u64,
    pub pre: String,
    pub build: String,
}

/// The plain values a `Version` stands for.
pub type VersionView = (u64, u64, u64, Seq<char>, Seq<char>);

impl View for Version {
    type V = VersionView;

    open spec fn view(&self) -> VersionView {
        (self.major, self.minor, self.patch, self.pre@, self.build@)
    }
}

impl Clone for Version {
    fn clone(&self) -> (r: Self)
        ensures
            r == *self,
    {
        Version {
            major: self.major,
            minor: self.minor,
            patch: self.patch,
            pre: self.pre.clone(),
            build: self.build.clone(),
        }
    }
}

/// A character allowed in a pre-release or build identifier.
pub open spec fn ident_char(c: char) -> bool {
    ('0' <= c && c <= '9') || ('a' <= c && c <= 'z') || ('A' <= c && c <= 'Z') || c == '-'
}

pub open spec fn non_digit_ident_char(c: char) -> bool {
    ident_char(c) && !('0' <= c && c <= '9')
}

/// Empty, or non-empty identifiers of allowed characters joined by dots.
pub open spec fn dotted_identifiers(s: Seq<char>) -> bool {
    s.len() == 0 || {
        &&& forall|i: int| 0 <= i < s.len() ==> ident_char(#[trigger] s[i]) || s[i] == '.'
        &&& s[0] != '.'
        &&& s.last() != '.'
        &&& forall|i: int| 0 <= i < s.len() - 1 ==> !(#[trigger] s[i] == '.' && s[i + 1] == '.')
    }
}

/// No all-digit identifier of two or more digits starts with `0`.
pub open spec fn no_leading_zero(s: Seq<char>) -> bool {
    forall|i: int|
        0 <= i < s.len() - 1 && #[trigger] s[i] == '0' && (i == 0 || s[i - 1] == '.') && s[i + 1]
            != '.' ==> exists|j: int|
            i < j < s.len() && non_digit_ident_char(#[trigger] s[j]) && forall|k: int|
                i <= k <= j ==> s[k] != '.'
}

/// A valid pre-release text.
pub open spec fn valid_prerelease(s: Seq<char>) -> bool {
    dotted_identifiers(s) && no_leading_zero(s)
}

/// A valid build-metadata text.
pub open spec fn valid_build(s: Seq<char>) -> bool {
    dotted_identifiers(s)
}

/// The text form `MAJOR.MINOR.PATCH`, then `-PRE` and `+BUILD` when present.
pub open spec fn version_text(v: VersionView) -> Seq<char> {
    let core = decimal(v.0 as nat) + seq!['.'] + decimal(v.1 as nat) + seq!['.'] + decimal(
        v.2 as nat,
    );
    let with_pre = if v.3.len() == 0 {
        core
    } else {
        core + seq!['-'] + v.3
    };
    if v.4.len() == 0 {
        with_pre
    } else {
        with_pre + seq!['+'] + v.4
    }
}

/// Order of two versions by their numeric parts alone: -1, 0 or 1.
pub open spec fn numeric_order(a: VersionView, b: VersionView) -> int {
    if a.0 != b.0 {
        if a.0 < b.0 { -1 } else { 1 }
    } else if a.1 != b.1 {
        if a.1 < b.1 { -1 } else { 1 }
    } else if a.2 != b.2 {
        if a.2 < b.2 { -1 } else { 1 }
    } else {
        0
    }
}

/// SemVer precedence as the `semver` crate orders versions: -1 when `a`
/// comes first, 0 when equal, 1 when `b` comes first.
pub uninterp spec fn semver_order(a: VersionView, b: VersionView) -> int;

/// Pre-release and build texts are ones `semver` accepts.
pub open spec fn valid_version(v: VersionView) -> bool {
    valid_prerelease(v.3) && valid_build(v.4)
}

impl Version {
    /// Pre-release and build texts are ones `semver` accepts.
    pub open spec fn wf(&self) -> bool {
        valid_version(self@)
    }

    /// The version's text form (as `semver::Version` displays it).
    pub fn to_text(&self) -> (s: String)
        ensures
            s@ == version_text(self@),
    {
        let mut s = decimal_text(self.major);
        push_char(&mut s, '.');
        let minor = decimal_text(self.minor);
        s.append(minor.as_str());
        push_char(&mut s, '.');
        let patch = decimal_text(self.patch);
        s.append(patch.as_str());
        if self.pre.as_str().unicode_len() > 0 {
            push_char(&mut s, '-');
            s.append(self.pre.as_str());
        }
        if self.build.as_str().unicode_len() > 0 {
            push_char(&mut s, '+');
            s.append(self.build.as_str());
        }
        s
    }
}

/// Compares two versions with `semver::Version`'s `Ord`: fields compared
/// in order (major, minor, patch, pre-release, build metadata), so the
/// numeric parts decide whenever they differ. `Ord` is a total order that
/// agrees with equality: antisymmetric, and transitive with any third
/// valid version, strictly so where one step is strict (the last three
/// clauses). The result is SemVer precedence as `version_precedence`
/// spells it out: pre-release identifiers compared in turn (numeric ones
/// numerically and below alphanumeric ones, alphanumeric ones in ASCII
/// order, a longer list after a shorter one with an equal prefix), a
/// release after its pre-releases, then build metadata.
#[verifier::external_body]
pub(crate) fn compare_versions(a: &Version, b: &Version) -> (r: i8)
    requires
        a.wf(),
        b.wf(),
    ensures
        r == semver_order(a@, b@),
        r == version_precedence(a@, b@),
        r == -semver_order(b@, a@),
        -1 <= r <= 1,
        numeric_order(a@, b@) != 0 ==> r == numeric_order(a@, b@),
        (r == 0) == (a@ == b@),
        forall|c: VersionView|
            valid_version(c) && r <= 0 && #[trigger] semver_order(b@, c) <= 0 ==> semver_order(a@, c)
                <= 0,
        forall|c: VersionView|
            valid_version(c) && r <= 0 && #[trigger] semver_order(c, a@) <= 0 ==> semver_order(c, b@)
                <= 0,
        forall|c: VersionView|
            valid_version(c) && r < 0 && #[trigger] semver_order(c, a@) <= 0 ==> semver_order(b@, c)
                > 0,
{
    let x = semver::Version { major: a.major, minor: a.minor, patch: a.patch,
        pre: semver::Prerelease::new(&a.pre).unwrap(), build: semver::BuildMetadata::new(&a.build).unwrap() };
    let y = semver::Version { major: b.major, minor: b.minor, patch: b.patch,
        pre: semver::Prerelease::new(&b.pre).unwrap(), build: semver::BuildMetadata::new(&b.build).unwrap() };
    match x.cmp(&y) {
        std::cmp::Ordering::Less => -1,
        std::cmp::Ordering::Equal => 0,
        std::cmp::Ordering::Greater => 1,
    }
}

} // verus!
