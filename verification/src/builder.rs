//! The decisions of building one recipe into an archive: where its
//! working files and output go, and when a build must stop.

use vstd::prelude::*;
use crate::error::ToolkitError;
use crate::paths::{join_path, path_join};
use crate::recipe::{Channel, Recipe};

verus! {

/// The scratch directories of one build.
#[derive(Debug)]
pub struct BuildDirs {
    /// `<workdir>/src`: the git checkout.
    pub src_dir: String,
    /// `<workdir>/stage`: where `pkg.json` and `payload/` are staged.
    pub stage_dir: String,
    /// `<workdir>/stage/payload`: what build steps install into.
    pub payload_dir: String,
}

/// The scratch directory used when none is given:
/// `target/mitos-packages-build/<name>`.
pub fn default_workdir(recipe_name: &str) -> (r: String)
    ensures
        r@ == path_join("target/mitos-packages-build"@, recipe_name@),
{
    join_path("target/mitos-packages-build", recipe_name)
}

/// The scratch directories under `workdir`.
pub fn build_dirs(workdir: &str) -> (d: BuildDirs)
    ensures
        d.src_dir@ == path_join(workdir@, "src"@),
        d.stage_dir@ == path_join(workdir@, "stage"@),
        d.payload_dir@ == path_join(path_join(workdir@, "stage"@), "payload"@),
{
    let stage_dir = join_path(workdir, "stage");
    let payload_dir = join_path(stage_dir.as_str(), "payload");
    BuildDirs { src_dir: join_path(workdir, "src"), stage_dir, payload_dir }
}

/// Where a built archive goes when no output directory is given:
/// `<repo_root>/<channel>/packages`, the channel the recipe names.
pub fn default_out_dir(repo_root: &str, channel: Channel) -> (r: String)
    ensures
        r@ == path_join(path_join(repo_root@, channel.spec_name()), "packages"@),
{
    let dir = join_path(repo_root, channel.as_str());
    join_path(dir.as_str(), "packages")
}

/// Whether the source must be cloned: always, unless reusing an existing
/// checkout was asked for and one exists.
pub fn must_fetch(skip_fetch: bool, checkout_exists: bool) -> (r: bool)
    ensures
        r == !(skip_fetch && checkout_exists),
{
    !(skip_fetch && checkout_exists)
}

/// The error for a failed `git clone` of `git`, with the exit status text.
pub fn clone_failed(git: &str, status: &str) -> (e: ToolkitError)
    ensures
        e matches ToolkitError::Recipe(m) && m@ == "git clone of "@ + git@ + " failed ("@ + status@
            + ")"@,
{
    let mut m = String::from_str("git clone of ");
    m.append(git);
    m.append(" failed (");
    m.append(status);
    m.append(")");
    ToolkitError::Recipe(m)
}

impl Recipe {
    /// A recipe must have build steps by the time it is built.
    pub fn check_build_steps(&self) -> (r: Result<(), ToolkitError>)
        ensures
            self.build.steps@.len() > 0 ==> r is Ok,
            self.build.steps@.len() == 0 ==> (r matches Err(ToolkitError::Recipe(m)) && m@
                == self.name@ + ": no build steps — set build.steps directly or inherits = \"<template>\""@),
    {
        if self.build.steps.len() == 0 {
            let mut m = self.name.clone();
            m.append(": no build steps — set build.steps directly or inherits = \"<template>\"");
            return Err(ToolkitError::Recipe(m));
        }
        Ok(())
    }

    /// The error for build step `step` exiting with status text `status`.
    pub fn step_failed(&self, status: &str, step: &str) -> (e: ToolkitError)
        ensures
            e matches ToolkitError::Recipe(m) && m@ == self.name@ + ": build step failed ("@
                + status@ + "): "@ + step@,
    {
        let mut m = self.name.clone();
        m.append(": build step failed (");
        m.append(status);
        m.append("): ");
        m.append(step);
        ToolkitError::Recipe(m)
    }
}

} // verus!
