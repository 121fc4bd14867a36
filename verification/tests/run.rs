use repo_harvest::options::Options;
use repo_harvest::run::{next_step, start, Exit, RunReport, RunStep};

fn options(no_download: bool) -> Options {
    Options {
        language: "rust".to_string(),
        output: "output".to_string(),
        license: Vec::new(),
        no_download,
        limit: 10,
        threads: 1,
        verbose: false,
    }
}

/// The steps of a run in which each step is reported on as given.
fn steps(options: &Options, reports: &[RunReport]) -> Vec<RunStep> {
    let mut step = start(options);
    let mut taken = vec![step];
    for report in reports {
        step = next_step(options, step, *report);
        taken.push(step);
    }
    taken
}

#[test]
fn no_download_lists_and_touches_nothing() {
    let taken = steps(&options(true), &[RunReport::Finished, RunReport::Finished]);
    assert_eq!(taken, vec![RunStep::Harvest, RunStep::Print, RunStep::Exit(Exit::Success)]);
    assert!(!taken.contains(&RunStep::CreateOutputDir));
    assert!(!taken.contains(&RunStep::Download));
}

#[test]
fn download_run_creates_harvests_prints_downloads() {
    let taken = steps(&options(false), &[RunReport::Finished; 4]);
    assert_eq!(
        taken,
        vec![
            RunStep::CreateOutputDir,
            RunStep::Harvest,
            RunStep::Print,
            RunStep::Download,
            RunStep::Exit(Exit::Success),
        ]
    );
}

#[test]
fn output_directory_failure_is_fatal() {
    let taken = steps(&options(false), &[RunReport::Failed]);
    assert_eq!(taken, vec![RunStep::CreateOutputDir, RunStep::Exit(Exit::Failure)]);
}

#[test]
fn aborted_harvest_is_fatal() {
    let taken = steps(&options(false), &[RunReport::Finished, RunReport::Failed]);
    assert_eq!(taken.last(), Some(&RunStep::Exit(Exit::Failure)));
    let taken = steps(&options(true), &[RunReport::Failed]);
    assert_eq!(taken, vec![RunStep::Harvest, RunStep::Exit(Exit::Failure)]);
}

#[test]
fn failed_downloads_do_not_fail_the_run() {
    let opts = options(false);
    assert_eq!(next_step(&opts, RunStep::Download, RunReport::Failed), RunStep::Exit(Exit::Success));
    assert_eq!(next_step(&opts, RunStep::Download, RunReport::Finished), RunStep::Exit(Exit::Success));
}

#[test]
fn exit_is_final() {
    for report in [RunReport::Finished, RunReport::Failed] {
        assert_eq!(
            next_step(&options(false), RunStep::Exit(Exit::Failure), report),
            RunStep::Exit(Exit::Failure)
        );
        assert_eq!(
            next_step(&options(true), RunStep::Exit(Exit::Success), report),
            RunStep::Exit(Exit::Success)
        );
    }
}
