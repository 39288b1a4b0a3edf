//! `recipe.toml`'s schema, and the checks and template resolution a
//! recipe goes through before it is built.

use vstd::prelude::*;
use crate::error::ToolkitError;
use crate::metadata::{clone_dependencies, Dependency};
use crate::paths::{join_path, path_join};
use crate::text::{clone_opt_string, clone_strings, same_text};
use crate::version::Version;

verus! {

/// Where a recipe's source comes from: a git URL and the branch, tag or
/// commit to check out.
#[derive(Debug)]
pub struct Source {
    pub git: String,
    pub rev: String,
}

/// The revision checked out when a recipe names none.
pub fn default_rev() -> (r: String)
    ensures
        r@ == "main"@,
{
    String::from_str("main")
}

/// Which repository channel a built package publishes to.
#[derive(Debug, Clone, Copy, PartialEq, Eq, Structural)]
pub enum Channel {
    /// New packages and version bumps land here first.
    Testing,
    /// Promoted from `testing`.
    Stable,
    /// Community-maintained packages with a separate trust root.
    Community,
}

impl Channel {
    /// The channel's directory name under `repositories/`.
    pub open spec fn spec_name(self) -> Seq<char> {
        match self {
            Channel::Stable => "stable"@,
            Channel::Testing => "testing"@,
            Channel::Community => "community"@,
        }
    }

    pub fn as_str(self) -> (s: &'static str)
        ensures
            s@ == self.spec_name(),
    {
        match self {
            Channel::Stable => "stable",
            Channel::Testing => "testing",
            Channel::Community => "community",
        }
    }
}

impl Default for Channel {
    /// A recipe that names no channel builds into `testing`.
    fn default() -> (c: Self)
        ensures
            c == Channel::Testing,
    {
        Channel::Testing
    }
}

/// The commands that turn a checked-out source tree into a payload.
#[derive(Debug)]
pub struct BuildSpec {
    /// Informational build-system identifier (`cargo`, `meson`, ...).
    pub system: Option<String>,
    /// Shell commands, run in order.
    pub steps: Vec<String>,
}

impl Default for BuildSpec {
    fn default() -> (b: Self)
        ensures
            b.system is None,
            b.steps@.len() == 0,
    {
        BuildSpec { system: None, steps: Vec::new() }
    }
}

/// A shared default `BuildSpec` for one build system, which a recipe
/// names with `inherits`.
#[derive(Debug)]
pub struct Template {
    pub system: String,
    pub steps: Vec<String>,
}

/// One package's build recipe.
#[derive(Debug)]
pub struct Recipe {
    pub name: String,
    pub version: Version,
    pub description: String,
    /// Must match the directory the recipe lives under.
    pub category: String,
    pub channel: Channel,
    /// A template to take `build.steps` from when the recipe has none.
    pub inherits: Option<String>,
    pub source: Source,
    pub build: BuildSpec,
    pub dependencies: Vec<Dependency>,
    pub provides: Vec<String>,
    pub conflicts: Vec<String>,
    /// Signer name expected in `keys/`; unset means unsigned.
    pub signer: Option<String>,
}

/// What a built package's `pkg.json` says: the part of a recipe that
/// survives into the package.
#[derive(Debug)]
pub struct PackageSpec {
    pub name: String,
    pub version: Version,
    pub description: String,
    pub dependencies: Vec<Dependency>,
    pub provides: Vec<String>,
    pub conflicts: Vec<String>,
    pub signer: Option<String>,
}

/// The error a recipe at `path` gets when its `category` field is
/// `category` but it lives under `packages/<dir_category>/<dir_name>/`.
pub open spec fn category_mismatch_message(
    path: Seq<char>,
    category: Seq<char>,
    dir_category: Seq<char>,
    dir_name: Seq<char>,
) -> Seq<char> {
    path + ": category '"@ + category + "' doesn't match its directory (packages/"@ + dir_category
        + "/"@ + dir_name + "/)"@
}

/// The error a recipe at `path` gets when its `name` field is `name`
/// but it lives under `packages/<dir_category>/<dir_name>/`.
pub open spec fn name_mismatch_message(
    path: Seq<char>,
    name: Seq<char>,
    dir_category: Seq<char>,
    dir_name: Seq<char>,
) -> Seq<char> {
    path + ": name '"@ + name + "' doesn't match its directory (packages/"@ + dir_category + "/"@
        + dir_name + "/)"@
}

fn mismatch_message(
    path: &str,
    field: &str,
    value: &str,
    dir_category: &str,
    dir_name: &str,
) -> (m: String)
    ensures
        m@ == path@ + field@ + value@ + "' doesn't match its directory (packages/"@ + dir_category@
            + "/"@ + dir_name@ + "/)"@,
{
    let mut m = path.to_owned();
    m.append(field);
    m.append(value);
    m.append("' doesn't match its directory (packages/");
    m.append(dir_category);
    m.append("/");
    m.append(dir_name);
    m.append("/)");
    m
}

/// Where template `name` of category `category` lives under `recipes_root`.
pub open spec fn spec_template_path(recipes_root: Seq<char>, category: Seq<char>, name: Seq<char>) -> Seq<char> {
    path_join(path_join(recipes_root, category), name + ".toml"@)
}

/// The template file a recipe's resolution reads.
#[derive(Debug)]
pub struct TemplateRequest {
    /// The template's name, as `inherits` gives it.
    pub name: String,
    /// Where the template file lives.
    pub path: String,
}

/// What reading a template file gave.
#[derive(Debug)]
pub enum TemplateLoad {
    /// The file was read and holds a valid template.
    Loaded(Template),
    /// The file could not be read, for the reason given.
    Unreadable(String),
    /// The file was read but is not a valid template (the parser's message).
    Invalid(String),
}

/// The recipe with template `t` applied (see `Recipe::resolve`).
pub open spec fn spec_resolve(r: Recipe, t: Template) -> Recipe {
    if r.inherits is None || r.build.steps@.len() > 0 {
        r
    } else {
        Recipe {
            build: BuildSpec {
                system: if r.build.system is Some {
                    r.build.system
                } else {
                    Some(t.system)
                },
                steps: t.steps,
            },
            ..r
        }
    }
}

impl Recipe {
    /// Checks that the recipe read from `path` sits in the directory its
    /// own `category` and `name` fields say, `packages/<expected_category>/<expected_name>/`:
    /// a mismatched category is reported first, then a mismatched name.
    pub fn validate_location(self, path: &str, expected_category: &str, expected_name: &str) -> (r:
        Result<Recipe, ToolkitError>)
        ensures
            self.category@ != expected_category@ ==> (r matches Err(ToolkitError::Recipe(m))
                && m@ == category_mismatch_message(
                path@,
                self.category@,
                expected_category@,
                expected_name@,
            )),
            self.category@ == expected_category@ && self.name@ != expected_name@ ==> (r matches Err(
                ToolkitError::Recipe(m),
            ) && m@ == name_mismatch_message(path@, self.name@, expected_category@, expected_name@)),
            self.category@ == expected_category@ && self.name@ == expected_name@ ==> r == Ok::<
                Recipe,
                ToolkitError,
            >(self),
    {
        if !same_text(self.category.as_str(), expected_category) {
            let m = mismatch_message(
                path,
                ": category '",
                self.category.as_str(),
                expected_category,
                expected_name,
            );
            return Err(ToolkitError::Recipe(m));
        }
        if !same_text(self.name.as_str(), expected_name) {
            let m = mismatch_message(
                path,
                ": name '",
                self.name.as_str(),
                expected_category,
                expected_name,
            );
            return Err(ToolkitError::Recipe(m));
        }
        Ok(self)
    }

    /// Whether resolving needs a template: `inherits` is set and the
    /// recipe has no build steps of its own.
    pub open spec fn needs_template(self) -> bool {
        self.inherits is Some && self.build.steps@.len() == 0
    }

    /// The one template file resolving reads, when it needs one:
    /// template `inherits` of this recipe's own category,
    /// `<recipes_root>/<category>/<inherits>.toml`.
    pub fn template_request(&self, recipes_root: &str) -> (r: Option<TemplateRequest>)
        ensures
            self.needs_template() <==> r is Some,
            r matches Some(req) ==> req.name@ == self.inherits->0@ && req.path@ == spec_template_path(
                recipes_root@,
                self.category@,
                self.inherits->0@,
            ),
    {
        if self.build.steps.len() != 0 {
            return None;
        }
        match &self.inherits {
            None => None,
            Some(name) => {
                let dir = join_path(recipes_root, self.category.as_str());
                let mut file = name.clone();
                file.append(".toml");
                let path = join_path(dir.as_str(), file.as_str());
                Some(TemplateRequest { name: name.clone(), path })
            },
        }
    }

    /// Applies the template `inherits` names, given what reading the file
    /// named by `template_request(recipes_root)` gave. A recipe with its
    /// own non-empty steps, or without `inherits`, is returned unchanged
    /// and no template is used. Otherwise a loaded template supplies the
    /// steps, and the system when the recipe names none; a file that
    /// could not be read, or is not a valid template, is an error.
    pub fn resolve(self, recipes_root: &str, load: TemplateLoad) -> (r: Result<Recipe, ToolkitError>)
        ensures
            !self.needs_template() ==> r == Ok::<Recipe, ToolkitError>(self),
            self.needs_template() ==> match load {
                TemplateLoad::Loaded(t) => r == Ok::<Recipe, ToolkitError>(spec_resolve(self, t)),
                TemplateLoad::Unreadable(reason) => r matches Err(ToolkitError::Recipe(m)) && m@
                    == self.name@ + ": inherits '"@ + self.inherits->0@ + "' but "@
                    + spec_template_path(recipes_root@, self.category@, self.inherits->0@)
                    + " could not be read: "@ + reason@,
                TemplateLoad::Invalid(msg) => r matches Err(ToolkitError::TomlParse(m)) && m == msg,
            },
    {
        let req = match self.template_request(recipes_root) {
            None => return Ok(self),
            Some(req) => req,
        };
        match load {
            TemplateLoad::Loaded(template) => {
                let mut r = self;
                r.build.steps = template.steps;
                if r.build.system.is_none() {
                    r.build.system = Some(template.system);
                }
                Ok(r)
            },
            TemplateLoad::Unreadable(reason) => {
                let mut m = self.name.clone();
                m.append(": inherits '");
                m.append(req.name.as_str());
                m.append("' but ");
                m.append(req.path.as_str());
                m.append(" could not be read: ");
                m.append(reason.as_str());
                Err(ToolkitError::Recipe(m))
            },
            TemplateLoad::Invalid(msg) => Err(ToolkitError::TomlParse(msg)),
        }
    }

    /// The `pkg.json` contents for this recipe: its name, version,
    /// description, dependencies, provides, conflicts and signer.
    pub fn to_package_spec(&self) -> (s: PackageSpec)
        ensures
            s.name == self.name,
            s.version == self.version,
            s.description == self.description,
            s.dependencies@ == self.dependencies@,
            s.provides@ == self.provides@,
            s.conflicts@ == self.conflicts@,
            s.signer == self.signer,
    {
        PackageSpec {
            name: self.name.clone(),
            version: self.version.clone(),
            description: self.description.clone(),
            dependencies: clone_dependencies(&self.dependencies),
            provides: clone_strings(&self.provides),
            conflicts: clone_strings(&self.conflicts),
            signer: clone_opt_string(&self.signer),
        }
    }
}

/// Resolving twice against the same template gives what resolving once
/// gives, and a template with steps leaves nothing more to resolve.
pub proof fn lemma_resolve_idempotent(r: Recipe, t: Template)
    ensures
        spec_resolve(spec_resolve(r, t), t) == spec_resolve(r, t),
        t.steps@.len() > 0 ==> !spec_resolve(r, t).needs_template(),
{
}

} // verus!
