//! The metadata entry one built archive contributes to a channel's
//! index, and where that entry's file lives.

use vstd::prelude::*;
use crate::error::ToolkitError;
use crate::paths::{
    dot, dot_dot, extension_of, file_name_of, is_relative, join_path, last_index_of, lemma_last_index_append,
    lemma_scan_segment, path_components, path_join, scan,
};
use crate::text::clone_strings;
use crate::text::lemma_decimal_digits;
use crate::version::{ident_char, version_text, Version};

verus! {

/// One declared dependency: a package name and a version requirement
/// in semver `VersionReq` syntax (e.g. `>=0.1.0`).
#[derive(Debug)]
pub struct Dependency {
    pub name: String,
    pub version: String,
}

impl Clone for Dependency {
    fn clone(&self) -> (r: Self)
        ensures
            r == *self,
    {
        Dependency { name: self.name.clone(), version: self.version.clone() }
    }
}

/// Copies a list of dependencies.
pub fn clone_dependencies(v: &Vec<Dependency>) -> (r: Vec<Dependency>)
    ensures
        r@ == v@,
{
    let mut r: Vec<Dependency> = Vec::new();
    let mut i: usize = 0;
    while i < v.len()
        invariant
            i <= v@.len(),
            r@ == v@.take(i as int),
        decreases v@.len() - i,
    {
        r.push(v[i].clone());
        assert(v@.take(i + 1) == v@.take(i as int).push(v@[i as int]));
        i = i + 1;
    }
    assert(v@.take(v@.len() as int) == v@);
    r
}

/// What a built archive's embedded manifest says about its package.
#[derive(Debug)]
pub struct Manifest {
    pub name: String,
    pub version: Version,
    pub description: String,
    pub dependencies: Vec<Dependency>,
    pub provides: Vec<String>,
    pub conflicts: Vec<String>,
    /// Checksum of the payload files: the value a package signature covers.
    pub payload_sha256: String,
    pub signer: Option<String>,
}

/// One package version's entry in a channel's index.
#[derive(Debug)]
pub struct PackageMetadata {
    pub name: String,
    pub version: Version,
    pub description: String,
    pub dependencies: Vec<Dependency>,
    pub provides: Vec<String>,
    pub conflicts: Vec<String>,
    /// Where the archive is served from.
    pub url: String,
    /// Hex SHA-256 of the whole archive file.
    pub sha256: String,
    /// Hex signature over the manifest's `payload_sha256`, when signed.
    pub signature: Option<String>,
    pub size_bytes: u64,
    pub arch: Vec<String>,
    pub essential: bool,
    pub installed_size_bytes: u64,
    pub priority: String,
}

/// Builds the metadata entry for one archive already on disk, given the
/// archive's manifest, the URL it will be served from, the hex SHA-256
/// and size of the archive file, and its signature if it is signed.
/// The architecture list is `["any"]`, the package is not essential,
/// its installed size is 0 and its priority is `"0"`.
pub fn build_metadata(
    manifest: &Manifest,
    url: String,
    sha256: String,
    signature_hex: Option<String>,
    size_bytes: u64,
) -> (m: PackageMetadata)
    ensures
        m.name == manifest.name,
        m.version == manifest.version,
        m.description == manifest.description,
        m.dependencies@ == manifest.dependencies@,
        m.provides@ == manifest.provides@,
        m.conflicts@ == manifest.conflicts@,
        m.url == url,
        m.sha256 == sha256,
        m.signature == signature_hex,
        m.size_bytes == size_bytes,
        m.arch@.len() == 1,
        m.arch@[0]@ == "any"@,
        !m.essential,
        m.installed_size_bytes == 0,
        m.priority@ == "0"@,
{
    let mut arch: Vec<String> = Vec::new();
    arch.push(String::from_str("any"));
    PackageMetadata {
        name: manifest.name.clone(),
        version: manifest.version.clone(),
        description: manifest.description.clone(),
        dependencies: clone_dependencies(&manifest.dependencies),
        provides: clone_strings(&manifest.provides),
        conflicts: clone_strings(&manifest.conflicts),
        url,
        sha256,
        signature: signature_hex,
        size_bytes,
        arch,
        essential: false,
        installed_size_bytes: 0,
        priority: String::from_str("0"),
    }
}

/// Where one package version's metadata file lives under a channel's
/// `metadata/` directory: `<metadata_dir>/<name>/<version>.json`.
pub open spec fn spec_metadata_path(metadata_dir: Seq<char>, name: Seq<char>, version: Seq<char>) -> Seq<char> {
    path_join(path_join(metadata_dir, name), version + ".json"@)
}

/// The canonical path of one package version's metadata file, kept in
/// one place so every tool that writes or reads it agrees on the layout.
pub fn metadata_path(metadata_dir: &str, name: &str, version: &Version) -> (p: String)
    ensures
        p@ == spec_metadata_path(metadata_dir@, name@, version_text(version@)),
{
    let dir = join_path(metadata_dir, name);
    let mut file = version.to_text();
    file.append(".json");
    join_path(dir.as_str(), file.as_str())
}

impl Manifest {
    /// The signer a package signature is attributed to; an archive whose
    /// manifest names none (at `archive_path`) cannot be signed.
    pub fn require_signer(&self, archive_path: &str) -> (r: Result<String, ToolkitError>)
        ensures
            match self.signer {
                Some(s) => r == Ok::<String, ToolkitError>(s),
                None => r matches Err(ToolkitError::Recipe(m)) && m@ == archive_path@
                    + ": manifest has no \"signer\" set — nothing names who this signature should be attributed to"@,
            },
    {
        match &self.signer {
            Some(s) => Ok(s.clone()),
            None => {
                let mut m = archive_path.to_owned();
                m.append(
                    ": manifest has no \"signer\" set — nothing names who this signature should be attributed to",
                );
                Err(ToolkitError::Recipe(m))
            },
        }
    }
}

proof fn lemma_version_text_has_no_slash(v: Version)
    requires
        v.wf(),
    ensures
        version_text(v@).len() > 0,
        forall|i: int| 0 <= i < version_text(v@).len() ==> #[trigger] version_text(v@)[i] != '/',
{
    lemma_decimal_digits(v.major as nat);
    lemma_decimal_digits(v.minor as nat);
    lemma_decimal_digits(v.patch as nat);
    let t = version_text(v@);
    let pre = v.pre@;
    let build = v.build@;
    assert(forall|i: int| 0 <= i < pre.len() ==> #[trigger] pre[i] != '/') by {
        assert forall|i: int| 0 <= i < pre.len() implies #[trigger] pre[i] != '/' by {
            assert(ident_char(pre[i]) || pre[i] == '.');
        }
    }
    assert(forall|i: int| 0 <= i < build.len() ==> #[trigger] build[i] != '/') by {
        assert forall|i: int| 0 <= i < build.len() implies #[trigger] build[i] != '/' by {
            assert(ident_char(build[i]) || build[i] == '.');
        }
    }
}

/// Every metadata file written for a package version is one the index
/// walk picks up: its path names a file whose extension is `json`.
pub proof fn lemma_metadata_file_is_indexed(metadata_dir: Seq<char>, name: Seq<char>, version: Version)
    requires
        version.wf(),
    ensures
        file_name_of(path_components(spec_metadata_path(metadata_dir, name, version_text(version@))))
            == Some(version_text(version@) + ".json"@),
        extension_of(version_text(version@) + ".json"@) == Some("json"@),
{
    reveal_strlit(".json");
    reveal_strlit("json");
    let vt = version_text(version@);
    lemma_version_text_has_no_slash(version);
    let f = vt + ".json"@;
    assert(".json"@ =~= seq!['.'] + "json"@);
    assert forall|i: int| 0 <= i < f.len() implies #[trigger] f[i] != '/' by {
        if i < vt.len() {
            assert(f[i] == vt[i]);
        }
    }
    assert(f != dot() && f != dot_dot()) by {
        assert(f.len() > 2);
    }
    let x = path_join(metadata_dir, name);
    let q = if x.len() == 0 {
        x
    } else if x.last() == '/' {
        x
    } else {
        x + seq!['/']
    };
    assert(path_join(x, f) =~= q + f);
    let p = q + f;
    let rel = is_relative(p);
    assert(scan(q, rel).1 == Seq::<char>::empty()) by {
        if q.len() > 0 {
            assert(q.last() == '/');
        }
    }
    lemma_scan_segment(q, f, rel);
    assert(path_components(p) == scan(q, rel).0.push(f));
    // the extension
    let g = vt + seq!['.'];
    assert(f =~= g + "json"@);
    assert(last_index_of(g, '.') == vt.len());
    lemma_last_index_append(g, "json"@, '.');
    assert(f.subrange(vt.len() + 1 as int, f.len() as int) =~= "json"@);
}

} // verus!
