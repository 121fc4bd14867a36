use repo_harvest::materialize::{advance, download_url, Failure, Outcome, Report, Step};
use std::collections::HashSet;

#[test]
fn existing_target_is_skipped() {
    assert_eq!(advance(Step::Probe, Report::Exists), Step::Done(Outcome::Skipped));
}

#[test]
fn missing_target_is_created_then_cloned() {
    assert_eq!(advance(Step::Probe, Report::Missing), Step::CreateDir);
    assert_eq!(advance(Step::CreateDir, Report::Succeeded), Step::Clone);
    assert_eq!(advance(Step::Clone, Report::Succeeded), Step::Done(Outcome::Cloned));
}

#[test]
fn directory_failure_is_an_io_failure() {
    assert_eq!(advance(Step::CreateDir, Report::Failed), Step::Done(Outcome::Failed(Failure::Io)));
}

#[test]
fn clone_failure_is_a_clone_failure() {
    assert_eq!(advance(Step::Clone, Report::Failed), Step::Done(Outcome::Failed(Failure::Clone)));
}

#[test]
fn reports_that_do_not_answer_the_step_change_nothing() {
    assert_eq!(advance(Step::Probe, Report::Succeeded), Step::Probe);
    assert_eq!(advance(Step::Probe, Report::Failed), Step::Probe);
    assert_eq!(advance(Step::CreateDir, Report::Exists), Step::CreateDir);
    assert_eq!(advance(Step::Clone, Report::Missing), Step::Clone);
    for report in [Report::Exists, Report::Missing, Report::Succeeded, Report::Failed] {
        assert_eq!(advance(Step::Done(Outcome::Cloned), report), Step::Done(Outcome::Cloned));
        assert_eq!(advance(Step::Done(Outcome::Skipped), report), Step::Done(Outcome::Skipped));
    }
}

#[test]
fn download_starts_with_a_probe_of_its_target() {
    let download = download_url("https://host/a/one.git", "output");
    assert_eq!(download.url, "https://host/a/one.git");
    assert_eq!(download.target, "output/a_one");
    assert_eq!(download.step, Step::Probe);
}

/// Drives one download against a set of paths that stands for the disk.
fn materialize(disk: &mut HashSet<String>, url: &str, dir_works: bool, clone_works: bool) -> (Outcome, Vec<Step>) {
    let mut download = download_url(url, "output");
    let mut steps = Vec::new();
    loop {
        steps.push(download.step);
        let report = match download.step {
            Step::Probe => {
                if disk.contains(&download.target) {
                    Report::Exists
                } else {
                    Report::Missing
                }
            }
            Step::CreateDir => {
                if dir_works {
                    disk.insert(download.target.clone());
                    Report::Succeeded
                } else {
                    Report::Failed
                }
            }
            Step::Clone => {
                if clone_works {
                    Report::Succeeded
                } else {
                    Report::Failed
                }
            }
            Step::Done(outcome) => return (outcome, steps),
        };
        download.report(report);
    }
}

#[test]
fn second_call_is_skipped_after_a_clone() {
    let mut disk = HashSet::new();
    let (first, steps) = materialize(&mut disk, "https://host/a/one.git", true, true);
    assert_eq!(first, Outcome::Cloned);
    assert_eq!(steps, vec![Step::Probe, Step::CreateDir, Step::Clone, Step::Done(Outcome::Cloned)]);
    let (second, steps) = materialize(&mut disk, "https://host/a/one.git", true, true);
    assert_eq!(second, Outcome::Skipped);
    assert_eq!(steps, vec![Step::Probe, Step::Done(Outcome::Skipped)]);
    assert_eq!(disk.len(), 1);
}

#[test]
fn second_call_is_skipped_after_a_failed_clone() {
    let mut disk = HashSet::new();
    let (first, _) = materialize(&mut disk, "https://host/a/one.git", true, false);
    assert_eq!(first, Outcome::Failed(Failure::Clone));
    let (second, _) = materialize(&mut disk, "https://host/a/one.git", false, false);
    assert_eq!(second, Outcome::Skipped);
}

#[test]
fn directory_failure_leaves_nothing_to_skip() {
    let mut disk = HashSet::new();
    let (first, steps) = materialize(&mut disk, "https://host/a/one.git", false, true);
    assert_eq!(first, Outcome::Failed(Failure::Io));
    assert_eq!(steps, vec![Step::Probe, Step::CreateDir, Step::Done(Outcome::Failed(Failure::Io))]);
    let (second, _) = materialize(&mut disk, "https://host/a/one.git", true, true);
    assert_eq!(second, Outcome::Cloned);
}

#[test]
fn one_failure_does_not_touch_another_download() {
    let mut disk = HashSet::new();
    let (first, _) = materialize(&mut disk, "https://host/a/one.git", true, false);
    let (second, _) = materialize(&mut disk, "https://host/b/two.git", true, true);
    assert_eq!(first, Outcome::Failed(Failure::Clone));
    assert_eq!(second, Outcome::Cloned);
}
