//! The pre-publish check of a channel: problems found while checking each
//! metadata entry against its archive are collected, and the index is
//! published only when there are none.

use vstd::prelude::*;
use crate::error::ToolkitError;
use crate::metadata::PackageMetadata;
use crate::version::version_text;

verus! {

/// Problems found so far, and whether to stop at the first one.
#[derive(Debug)]
pub struct PublishCheck {
    pub problems: Vec<String>,
    pub fail_fast: bool,
}

/// `<name> <version>: <detail>`, the form every problem takes.
pub open spec fn problem_text(m: PackageMetadata, detail: Seq<char>) -> Seq<char> {
    m.name@ + " "@ + version_text(m.version@) + ": "@ + detail
}

/// A problem with the archive of entry `meta`.
pub fn problem(meta: &PackageMetadata, detail: &str) -> (r: String)
    ensures
        r@ == problem_text(*meta, detail@),
{
    let mut r = meta.name.clone();
    r.append(" ");
    let v = meta.version.to_text();
    r.append(v.as_str());
    r.append(": ");
    r.append(detail);
    r
}

/// An archive that is not at `archive_path`.
pub fn archive_missing(meta: &PackageMetadata, archive_path: &str) -> (r: String)
    ensures
        r@ == problem_text(*meta, "archive not found at "@ + archive_path@),
{
    let mut d = String::from_str("archive not found at ");
    d.append(archive_path);
    problem(meta, d.as_str())
}

/// An archive at `archive_path` that could not be read, for `reason`.
pub fn archive_unreadable(meta: &PackageMetadata, archive_path: &str, reason: &str) -> (r: String)
    ensures
        r@ == problem_text(*meta, "could not read "@ + archive_path@ + ": "@ + reason@),
{
    let mut d = String::from_str("could not read ");
    d.append(archive_path);
    d.append(": ");
    d.append(reason);
    problem(meta, d.as_str())
}

impl PublishCheck {
    /// No problems yet.
    pub fn new(fail_fast: bool) -> (c: PublishCheck)
        ensures
            c.problems@.len() == 0,
            c.fail_fast == fail_fast,
    {
        PublishCheck { problems: Vec::new(), fail_fast }
    }

    /// Records a problem; the result says whether checking stops here.
    pub fn record(&mut self, problem: String) -> (stop: bool)
        ensures
            final(self).problems@ == old(self).problems@.push(problem),
            final(self).fail_fast == old(self).fail_fast,
            stop == old(self).fail_fast,
    {
        self.problems.push(problem);
        self.fail_fast
    }

    /// Whether `channel` may be published: yes exactly when no problem
    /// was recorded.
    pub fn outcome(&self, channel: &str) -> (r: Result<(), ToolkitError>)
        ensures
            self.problems@.len() == 0 ==> r is Ok,
            self.problems@.len() > 0 ==> (r matches Err(ToolkitError::Recipe(m)) && m@
                == "channel '"@ + channel@ + "' failed pre-publish validation"@),
    {
        if self.problems.len() == 0 {
            return Ok(());
        }
        let mut m = String::from_str("channel '");
        m.append(channel);
        m.append("' failed pre-publish validation");
        Err(ToolkitError::Recipe(m))
    }
}

/// What checking one metadata entry's archive found.
#[derive(Debug)]
pub enum ArchiveCheck {
    /// No archive at the expected path.
    Missing,
    /// The archive could not be read, for the reason given.
    Unreadable(String),
    /// The archive's checksum differs from the entry's (with the message the checksum verification gave).
    Mismatch(String),
    /// The archive is present and matches.
    Matches,
}

/// The problem, if any, that finding `check` for entry `m` (archive at
/// `path`) records.
pub open spec fn entry_problem(m: PackageMetadata, path: Seq<char>, check: ArchiveCheck) -> Option<Seq<char>> {
    match check {
        ArchiveCheck::Missing => Some(problem_text(m, "archive not found at "@ + path)),
        ArchiveCheck::Unreadable(reason) => Some(
            problem_text(m, "could not read "@ + path + ": "@ + reason@),
        ),
        ArchiveCheck::Mismatch(e) => Some(problem_text(m, e@)),
        ArchiveCheck::Matches => None,
    }
}

impl PublishCheck {
    /// Records what checking one entry's archive found; the result says
    /// whether checking stops here (a problem was found under fail-fast).
    pub fn check_entry(&mut self, meta: &PackageMetadata, archive_path: &str, check: ArchiveCheck) -> (stop:
        bool)
        ensures
            final(self).fail_fast == old(self).fail_fast,
            final(self).problems@.map_values(|p: String| p@) == match entry_problem(
                *meta,
                archive_path@,
                check,
            ) {
                Some(p) => old(self).problems@.map_values(|p: String| p@).push(p),
                None => old(self).problems@.map_values(|p: String| p@),
            },
            stop == (old(self).fail_fast && entry_problem(*meta, archive_path@, check) is Some),
    {
        let ghost before = self.problems@;
        let found = match check {
            ArchiveCheck::Missing => Some(archive_missing(meta, archive_path)),
            ArchiveCheck::Unreadable(reason) => Some(archive_unreadable(meta, archive_path, reason.as_str())),
            ArchiveCheck::Mismatch(e) => Some(problem(meta, e.as_str())),
            ArchiveCheck::Matches => None,
        };
        match found {
            Some(p) => {
                let ghost pv = p@;
                let stop = self.record(p);
                assert(self.problems@.map_values(|p: String| p@) =~= before.map_values(|p: String| p@).push(pv));
                stop
            },
            None => false,
        }
    }

    /// Whether to note a signed entry whose standalone `.sig` copy is
    /// missing: only for an entry whose archive was found, since a missing
    /// archive ends that entry's checks.
    pub fn signature_note_needed(meta: &PackageMetadata, check: &ArchiveCheck, copy_exists: bool) -> (r: bool)
        ensures
            r == (!(check is Missing) && meta.signature is Some && !copy_exists),
    {
        let missing = match check {
            ArchiveCheck::Missing => true,
            _ => false,
        };
        !missing && meta.signature.is_some() && !copy_exists
    }
}

/// The problems recorded for findings `found` (one per entry, in order):
/// under fail-fast, up to and including the first; otherwise all.
pub open spec fn collected(found: Seq<Option<Seq<char>>>, fail_fast: bool) -> Seq<Seq<char>>
    decreases found.len(),
{
    if found.len() == 0 {
        seq![]
    } else {
        match found[0] {
            Some(p) => if fail_fast {
                seq![p]
            } else {
                seq![p] + collected(found.drop_first(), false)
            },
            None => collected(found.drop_first(), fail_fast),
        }
    }
}

/// Fail-fast only shortens the list of problems reported, never the
/// outcome: it reports a prefix of what a full check reports, and reports
/// nothing exactly when a full check reports nothing.
pub proof fn lemma_fail_fast_keeps_the_outcome(found: Seq<Option<Seq<char>>>)
    ensures
        (collected(found, true).len() == 0) == (collected(found, false).len() == 0),
        collected(found, true) =~= collected(found, false).take(collected(found, true).len() as int),
    decreases found.len(),
{
    if found.len() > 0 {
        lemma_fail_fast_keeps_the_outcome(found.drop_first());
        match found[0] {
            Some(p) => {
                assert((seq![p] + collected(found.drop_first(), false)).take(1) =~= seq![p]);
            },
            None => {},
        }
    }
}

/// The problem a finding adds, as a list of at most one.
pub open spec fn found_problems(x: Option<Seq<char>>) -> Seq<Seq<char>> {
    match x {
        Some(p) => seq![p],
        None => seq![],
    }
}

/// Checking entries one at a time with `check_entry`, stopping when it
/// says so, records exactly `collected`: until fail-fast has stopped the
/// check, one more finding appends its problem, if any.
pub proof fn lemma_collected_extend(found: Seq<Option<Seq<char>>>, x: Option<Seq<char>>, fail_fast: bool)
    requires
        !(fail_fast && collected(found, fail_fast).len() > 0),
    ensures
        collected(found.push(x), fail_fast) == collected(found, fail_fast) + found_problems(x),
    decreases found.len(),
{
    if found.len() == 0 {
        let one = found.push(x);
        assert(one.len() == 1 && one[0] == x);
        assert(one.drop_first() =~= Seq::<Option<Seq<char>>>::empty());
        assert(collected(one.drop_first(), false) == Seq::<Seq<char>>::empty());
        assert(collected(one.drop_first(), fail_fast) == Seq::<Seq<char>>::empty());
        assert(collected(one, fail_fast) =~= found_problems(x));
        assert(collected(found, fail_fast) + found_problems(x) =~= found_problems(x));
    } else {
        assert(found.push(x)[0] == found[0]);
        assert(found.push(x).drop_first() =~= found.drop_first().push(x));
        lemma_collected_extend(found.drop_first(), x, fail_fast);
        match found[0] {
            Some(p) => {
                assert(seq![p] + (collected(found.drop_first(), false) + found_problems(x)) =~= (seq![p]
                    + collected(found.drop_first(), false)) + found_problems(x));
            },
            None => {},
        }
    }
}

} // verus!
