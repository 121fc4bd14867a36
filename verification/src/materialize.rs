//! Materializing: a repository URL becomes a clone in its target directory,
//! unless the directory is there already.
//!
//! The driver touches the disk and the network. Here stands what it is to do
//! next, given what came of the step before.

use crate::target::{get_target, target_path, well_formed_url};
use vstd::prelude::*;

verus! {

/// Why a repository was not materialized.
#[derive(Clone, Copy, PartialEq, Eq, Debug, Structural)]
pub enum Failure {
    /// The target directory could not be created.
    Io,
    /// The clone did not go through.
    Clone,
}

/// How materializing one repository ended.
#[derive(Clone, Copy, PartialEq, Eq, Debug, Structural)]
pub enum Outcome {
    /// The target was there already; nothing was done.
    Skipped,
    /// The repository was cloned into the target.
    Cloned,
    /// The repository was not cloned.
    Failed(Failure),
}

/// What the driver is to do for a repository.
#[derive(Clone, Copy, PartialEq, Eq, Debug, Structural)]
pub enum Step {
    /// Look whether the target exists.
    Probe,
    /// Create the target directory and the directories above it.
    CreateDir,
    /// Clone the repository into the target.
    Clone,
    /// Nothing more: this is how it ended.
    Done(Outcome),
}

/// What came of a step.
#[derive(Clone, Copy, PartialEq, Eq, Debug, Structural)]
pub enum Report {
    /// The target exists.
    Exists,
    /// The target does not exist.
    Missing,
    /// The directory was created, or the clone went through.
    Succeeded,
    /// The directory could not be created, or the clone did not go through.
    Failed,
}

/// The step that follows `step` once `report` has come in. A target that
/// exists is skipped. One that is missing is created and then cloned into,
/// and the first of the two that fails ends the work. A report that does
/// not answer the step changes nothing.
pub open spec fn advanced(step: Step, report: Report) -> Step {
    match (step, report) {
        (Step::Probe, Report::Exists) => Step::Done(Outcome::Skipped),
        (Step::Probe, Report::Missing) => Step::CreateDir,
        (Step::CreateDir, Report::Succeeded) => Step::Clone,
        (Step::CreateDir, Report::Failed) => Step::Done(Outcome::Failed(Failure::Io)),
        (Step::Clone, Report::Succeeded) => Step::Done(Outcome::Cloned),
        (Step::Clone, Report::Failed) => Step::Done(Outcome::Failed(Failure::Clone)),
        _ => step,
    }
}

/// The step that follows `step` once `report` has come in.
pub fn advance(step: Step, report: Report) -> (next: Step)
    ensures
        next == advanced(step, report),
{
    match (step, report) {
        (Step::Probe, Report::Exists) => Step::Done(Outcome::Skipped),
        (Step::Probe, Report::Missing) => Step::CreateDir,
        (Step::CreateDir, Report::Succeeded) => Step::Clone,
        (Step::CreateDir, Report::Failed) => Step::Done(Outcome::Failed(Failure::Io)),
        (Step::Clone, Report::Succeeded) => Step::Done(Outcome::Cloned),
        (Step::Clone, Report::Failed) => Step::Done(Outcome::Failed(Failure::Clone)),
        _ => step,
    }
}

/// One repository on its way to disk.
pub struct Download {
    /// The URL to clone from.
    pub url: String,
    /// The directory to clone into.
    pub target: String,
    /// What the driver is to do next.
    pub step: Step,
}

/// Starts on a repository: its target under `output` is named, and the
/// first thing to do is to look whether that target exists.
pub fn download_url(url: &str, output: &str) -> (download: Download)
    requires
        well_formed_url(url@),
    ensures
        download.url@ == url@,
        download.target@ == target_path(url@, output@),
        download.step == Step::Probe,
{
    Download { url: url.to_owned(), target: get_target(url, output), step: Step::Probe }
}

impl Download {
    /// Takes in what came of the step, and says what to do next.
    pub fn report(&mut self, report: Report) -> (next: Step)
        ensures
            final(self).url == old(self).url,
            final(self).target == old(self).target,
            final(self).step == advanced(old(self).step, report),
            next == final(self).step,
    {
        self.step = advance(self.step, report);
        self.step
    }
}

/// What the disk does for a step on `target`, and how it stands afterwards.
/// `disk` holds the paths that exist. A probe tells the truth and changes
/// nothing. A directory that is created exists from then on. A clone fills
/// the directory or fails, and leaves it in place either way.
pub open spec fn performed(
    disk: Set<Seq<char>>,
    target: Seq<char>,
    step: Step,
    works: bool,
) -> (Report, Set<Seq<char>>) {
    match step {
        Step::Probe => (
            if disk.contains(target) {
                Report::Exists
            } else {
                Report::Missing
            },
            disk,
        ),
        Step::CreateDir => if works {
            (Report::Succeeded, disk.insert(target))
        } else {
            (Report::Failed, disk)
        },
        _ => (
            if works {
                Report::Succeeded
            } else {
                Report::Failed
            },
            disk,
        ),
    }
}

/// Step and disk after the driver has done `step` and reported on it.
pub open spec fn driven(
    disk: Set<Seq<char>>,
    target: Seq<char>,
    step: Step,
    works: bool,
) -> (Step, Set<Seq<char>>) {
    let (report, after) = performed(disk, target, step, works);
    (advanced(step, report), after)
}

/// Materializing `target` from the probe onwards: how it ends, and the disk
/// afterwards. `dir_works` and `clone_works` say whether the directory can
/// be created and whether the clone goes through, should it come to that.
pub open spec fn materialized(
    disk: Set<Seq<char>>,
    target: Seq<char>,
    dir_works: bool,
    clone_works: bool,
) -> (Step, Set<Seq<char>>) {
    let probed = driven(disk, target, Step::Probe, true);
    let created = driven(probed.1, target, probed.0, dir_works);
    driven(created.1, target, created.0, clone_works)
}

/// Materializing ends after the probe and at most two steps more, in the way
/// that the three answers decide.
pub proof fn lemma_materialized_ends(
    disk: Set<Seq<char>>,
    target: Seq<char>,
    dir_works: bool,
    clone_works: bool,
)
    ensures
        materialized(disk, target, dir_works, clone_works).0 == Step::Done(
            if disk.contains(target) {
                Outcome::Skipped
            } else if !dir_works {
                Outcome::Failed(Failure::Io)
            } else if clone_works {
                Outcome::Cloned
            } else {
                Outcome::Failed(Failure::Clone)
            },
        ),
{
}

/// Materializing a second time is skipped. Where the target is missing and
/// its directory can be created, the first call ends with a clone or a
/// failed clone; a second call for the same target is then skipped, whatever
/// would have come of its steps, and leaves the disk as it found it.
pub proof fn lemma_second_call_skips(
    disk: Set<Seq<char>>,
    target: Seq<char>,
    clone_works: bool,
    dir_works_again: bool,
    clone_works_again: bool,
)
    requires
        !disk.contains(target),
    ensures
        ({
            let first = materialized(disk, target, true, clone_works);
            let second = materialized(first.1, target, dir_works_again, clone_works_again);
            &&& first.0 == Step::Done(Outcome::Cloned) || first.0 == Step::Done(
                Outcome::Failed(Failure::Clone),
            )
            &&& second.0 == Step::Done(Outcome::Skipped)
            &&& second.1 == first.1
        }),
{
}

} // verus!
