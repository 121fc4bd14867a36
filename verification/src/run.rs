//! The run as a whole: output directory, harvest, listing, downloads, exit.
//!
//! The driver does each step and reports on it. Here stands which step
//! follows.

use crate::options::Options;
use vstd::prelude::*;

verus! {

/// How the process ends.
#[derive(Clone, Copy, PartialEq, Eq, Debug, Structural)]
pub enum Exit {
    Success,
    Failure,
}

/// What the driver is to do.
#[derive(Clone, Copy, PartialEq, Eq, Debug, Structural)]
pub enum RunStep {
    /// Create the output directory and the directories above it.
    CreateOutputDir,
    /// Harvest the URLs.
    Harvest,
    /// Write every harvested URL to standard output, in order.
    Print,
    /// Materialize every harvested URL, and wait for all of them.
    Download,
    /// End the process.
    Exit(Exit),
}

/// What came of a step.
#[derive(Clone, Copy, PartialEq, Eq, Debug, Structural)]
pub enum RunReport {
    /// The step was done. For the downloads: each of them has ended, however
    /// it ended.
    Finished,
    /// The output directory could not be created, or the harvest was aborted.
    Failed,
}

/// The first step of a run: the output directory is created unless nothing
/// is to be downloaded.
pub open spec fn first_step(no_download: bool) -> RunStep {
    if no_download {
        RunStep::Harvest
    } else {
        RunStep::CreateOutputDir
    }
}

/// The step that follows `step` once `report` has come in.
///
/// The run is given up when the output directory cannot be created or the
/// harvest is aborted. What was harvested is always printed. Downloads follow
/// unless they are switched off, and the run ends in success however they
/// went.
pub open spec fn following(no_download: bool, step: RunStep, report: RunReport) -> RunStep {
    match step {
        RunStep::CreateOutputDir => match report {
            RunReport::Finished => RunStep::Harvest,
            RunReport::Failed => RunStep::Exit(Exit::Failure),
        },
        RunStep::Harvest => match report {
            RunReport::Finished => RunStep::Print,
            RunReport::Failed => RunStep::Exit(Exit::Failure),
        },
        RunStep::Print => if no_download {
            RunStep::Exit(Exit::Success)
        } else {
            RunStep::Download
        },
        RunStep::Download => RunStep::Exit(Exit::Success),
        RunStep::Exit(exit) => RunStep::Exit(exit),
    }
}

/// The step at which a run stands after the given reports.
pub open spec fn step_after(no_download: bool, reports: Seq<RunReport>) -> RunStep
    decreases reports.len(),
{
    if reports.len() == 0 {
        first_step(no_download)
    } else {
        following(no_download, step_after(no_download, reports.drop_last()), reports.last())
    }
}

/// The first step of a run.
pub fn start(options: &Options) -> (step: RunStep)
    ensures
        step == first_step(options.no_download),
{
    if options.no_download {
        RunStep::Harvest
    } else {
        RunStep::CreateOutputDir
    }
}

/// The step that follows `step` once `report` has come in.
pub fn next_step(options: &Options, step: RunStep, report: RunReport) -> (next: RunStep)
    ensures
        next == following(options.no_download, step, report),
{
    match step {
        RunStep::CreateOutputDir => match report {
            RunReport::Finished => RunStep::Harvest,
            RunReport::Failed => RunStep::Exit(Exit::Failure),
        },
        RunStep::Harvest => match report {
            RunReport::Finished => RunStep::Print,
            RunReport::Failed => RunStep::Exit(Exit::Failure),
        },
        RunStep::Print => if options.no_download {
            RunStep::Exit(Exit::Success)
        } else {
            RunStep::Download
        },
        RunStep::Download => RunStep::Exit(Exit::Success),
        RunStep::Exit(exit) => RunStep::Exit(exit),
    }
}

/// With downloads switched off a run never creates the output directory and
/// never materializes anything, whatever is reported.
pub proof fn lemma_no_download_leaves_disk_alone(reports: Seq<RunReport>)
    ensures
        step_after(true, reports) != RunStep::CreateOutputDir,
        step_after(true, reports) != RunStep::Download,
    decreases reports.len(),
{
    if reports.len() > 0 {
        lemma_no_download_leaves_disk_alone(reports.drop_last());
    }
}

/// A harvest that was not aborted is printed, downloads or not.
pub proof fn lemma_harvest_is_printed(no_download: bool, reports: Seq<RunReport>)
    requires
        step_after(no_download, reports) == RunStep::Harvest,
    ensures
        step_after(no_download, reports.push(RunReport::Finished)) == RunStep::Print,
{
    assert(reports.push(RunReport::Finished).drop_last() =~= reports);
}

/// Once the downloads have ended the run ends in success, whatever was
/// reported of them.
pub proof fn lemma_downloads_never_fail_the_run(no_download: bool, report: RunReport)
    ensures
        following(no_download, RunStep::Download, report) == RunStep::Exit(Exit::Success),
{
}

} // verus!
