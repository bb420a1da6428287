use stignore::pattern::PatternError;
use stignore::platform::Platform;
use stignore::run::{
    abort_notice, advance, advisory, announcement, begin, plan, question, Args, Event, Failure,
    Outcome, Step,
};
use stignore::target::{Target, TargetFile};

fn texts(items: &[&str]) -> Vec<String> {
    items.iter().map(|s| s.to_string()).collect()
}

fn args(target: Target, preview: bool, silent: bool) -> Args {
    Args { pattern: texts(&["x"]), target, absolute: false, preview, silent }
}

fn asking(patterns: &[&str], absolute: bool) -> Args {
    Args { pattern: texts(patterns), target: Target::Auto, absolute, preview: false, silent: false }
}

/// The steps of a run, up to its end, with the events that come of them.
fn steps(a: &Args, events: &[Event]) -> Vec<String> {
    let mut step = begin(a);
    let mut seen = vec![format!("{:?}", step)];
    for &event in events {
        step = advance(a, step, event);
        seen.push(format!("{:?}", step));
    }
    seen
}

#[test]
fn plan_of_a_run_below_the_root_of_the_folder() {
    let a = asking(&["foo.txt", "!bar/*"], false);
    let cwd = texts(&["home", "sync", "sub", "dir"]);
    let p = plan(&a, &cwd, &vec![false, false, true, false, false], Platform::Unix).unwrap();
    assert_eq!(p.folder.root, ["home", "sync"]);
    assert_eq!(p.folder.prefix, ["sub", "dir"]);
    assert_eq!(p.patterns, "sub/dir/foo.txt\n!sub/dir/bar/*\n");
}

#[test]
fn plan_of_a_run_at_the_root_of_the_folder() {
    let a = asking(&["foo.txt", "!bar/*"], false);
    let p = plan(&a, &texts(&["sync"]), &vec![true, false], Platform::Unix).unwrap();
    assert_eq!(p.folder.root, ["sync"]);
    assert_eq!(p.patterns, "foo.txt\n!bar/*\n");
}

#[test]
fn plan_of_a_run_that_copies_the_patterns() {
    let a = asking(&["./foo.txt", "!bar//*"], true);
    let cwd = texts(&["home", "sync", "sub", "dir"]);
    let p = plan(&a, &cwd, &vec![false, false, true, false, false], Platform::Windows).unwrap();
    assert_eq!(p.folder.prefix, ["sub", "dir"]);
    assert_eq!(p.patterns, "./foo.txt\r\n!bar//*\r\n");
}

#[test]
fn plan_fails_outside_of_a_folder() {
    let a = asking(&["foo.txt"], false);
    let r = plan(&a, &texts(&["home", "me"]), &vec![false, false, false], Platform::Unix);
    assert!(matches!(r, Err(Failure::NotInFolder)));
    let a = asking(&["!"], false);
    let r = plan(&a, &texts(&["home", "me"]), &vec![false, false, false], Platform::Unix);
    assert!(matches!(r, Err(Failure::NotInFolder)));
}

#[test]
fn plan_fails_on_patterns_that_cannot_be_rewritten() {
    let cwd = texts(&["sync", "sub"]);
    let marked = vec![false, true, false];
    let r = plan(&asking(&["a", "!", "(?d)"], false), &cwd, &marked, Platform::Unix);
    assert!(
        matches!(r, Err(Failure::Patterns(PatternError::Invalid(bad))) if bad == ["!", "(?d)"])
    );
    let r = plan(&asking(&["  ", "\n"], false), &cwd, &marked, Platform::Unix);
    assert!(matches!(r, Err(Failure::Patterns(PatternError::NoPatterns))));
}

#[test]
fn messages_of_failures() {
    assert_eq!(Failure::WorkingDirectory.message(), "Can't determine current working directory");
    assert_eq!(
        Failure::NotInFolder.message(),
        "Current directory is not inside of a syncthing folder"
    );
    assert_eq!(Failure::ReadPrimary.message(), "Can't read .stignore file");
    assert_eq!(Failure::Append.message(), "Can't append to file");
    assert_eq!(Failure::Patterns(PatternError::NoPatterns).message(), "No patterns supplied!");
    assert_eq!(
        Failure::Patterns(PatternError::Invalid(texts(&["!", "!!"]))).message(),
        "Incorrect patterns:\n!\n!!"
    );
}

#[test]
fn exit_codes() {
    assert_eq!(Outcome::Appended.exit_code(), 0);
    assert_eq!(Outcome::Cancelled.exit_code(), 0);
    assert_eq!(Outcome::Failed(Failure::NotInFolder).exit_code(), 1);
    assert_eq!(Outcome::Failed(Failure::Append).exit_code(), 1);
    assert_eq!(Outcome::Failed(Failure::Patterns(PatternError::NoPatterns)).exit_code(), 1);
}

#[test]
fn failures_are_reported_unless_silence_is_asked_for() {
    assert_eq!(Outcome::Appended.report(false), None);
    assert_eq!(Outcome::Cancelled.report(false), None);
    assert_eq!(Outcome::Appended.report(true), None);
    assert_eq!(
        Outcome::Failed(Failure::NotInFolder).report(false),
        Some("Current directory is not inside of a syncthing folder".to_string())
    );
    assert_eq!(Outcome::Failed(Failure::NotInFolder).report(true), None);
    assert_eq!(Outcome::Failed(Failure::Append).report(true), None);
}

#[test]
fn texts_shown_to_the_user() {
    assert_eq!(announcement("/s/.stignore", "a\nb\n"), "Appending to /s/.stignore:\na\nb\n");
    assert_eq!(
        advisory(),
        "NOTE: .stignore_sync exists, but wasn't included in .stignore. Working with .stignore"
    );
    assert_eq!(question(), "Proceed?");
    assert_eq!(abort_notice(), "Aborting.");
}

#[test]
fn run_with_a_named_file() {
    let a = args(Target::Stignore, false, false);
    assert_eq!(
        steps(&a, &[Event::Shown, Event::Appended]),
        ["Announce(Primary)", "Append(Primary)", "Finish(Appended)"]
    );
    let a = args(Target::StignoreSync, false, false);
    assert_eq!(
        steps(&a, &[Event::Shown, Event::Appended]),
        ["Announce(Secondary)", "Append(Secondary)", "Finish(Appended)"]
    );
}

#[test]
fn run_that_finds_the_secondary_file_named() {
    let a = args(Target::Auto, false, false);
    assert_eq!(
        steps(&a, &[Event::Scanned(true), Event::Shown, Event::Appended]),
        ["ScanPrimary", "Announce(Secondary)", "Append(Secondary)", "Finish(Appended)"]
    );
}

#[test]
fn run_that_finds_the_secondary_file_unnamed() {
    let a = args(Target::Auto, false, false);
    assert_eq!(
        steps(&a, &[Event::Scanned(false), Event::Probed(false), Event::Shown, Event::Appended]),
        [
            "ScanPrimary",
            "ProbeSecondary",
            "Announce(Primary)",
            "Append(Primary)",
            "Finish(Appended)"
        ]
    );
    assert_eq!(
        steps(
            &a,
            &[
                Event::Scanned(false),
                Event::Probed(true),
                Event::Shown,
                Event::Shown,
                Event::Appended
            ]
        ),
        [
            "ScanPrimary",
            "ProbeSecondary",
            "Advise",
            "Announce(Primary)",
            "Append(Primary)",
            "Finish(Appended)"
        ]
    );
}

#[test]
fn silent_run() {
    let a = args(Target::Auto, false, true);
    assert_eq!(
        steps(&a, &[Event::Scanned(false), Event::Appended]),
        ["ScanPrimary", "Append(Primary)", "Finish(Appended)"]
    );
    assert_eq!(
        steps(&a, &[Event::Scanned(true), Event::Appended]),
        ["ScanPrimary", "Append(Secondary)", "Finish(Appended)"]
    );
    let a = args(Target::StignoreSync, false, true);
    assert_eq!(steps(&a, &[Event::Appended]), ["Append(Secondary)", "Finish(Appended)"]);
}

#[test]
fn run_with_a_preview() {
    let a = args(Target::Stignore, true, false);
    assert_eq!(
        steps(&a, &[Event::Shown, Event::Answered(true), Event::Appended]),
        ["Announce(Primary)", "Confirm(Primary)", "Append(Primary)", "Finish(Appended)"]
    );
    assert_eq!(
        steps(&a, &[Event::Shown, Event::Answered(false), Event::Shown]),
        ["Announce(Primary)", "Confirm(Primary)", "ReportAbort", "Finish(Cancelled)"]
    );
    let a = args(Target::Auto, true, false);
    assert_eq!(
        steps(&a, &[Event::Scanned(true), Event::Shown, Event::Answered(false), Event::Shown]),
        [
            "ScanPrimary",
            "Announce(Secondary)",
            "Confirm(Secondary)",
            "ReportAbort",
            "Finish(Cancelled)"
        ]
    );
}

#[test]
fn run_that_cannot_read_or_write() {
    let a = args(Target::Auto, false, false);
    assert_eq!(steps(&a, &[Event::ScanFailed]), ["ScanPrimary", "Finish(Failed(ReadPrimary))"]);
    assert_eq!(
        steps(&a, &[Event::Scanned(true), Event::Shown, Event::AppendFailed]),
        ["ScanPrimary", "Announce(Secondary)", "Append(Secondary)", "Finish(Failed(Append))"]
    );
}

#[test]
fn event_that_does_not_answer_the_step_changes_nothing() {
    let a = args(Target::Auto, true, false);
    assert_eq!(
        steps(&a, &[Event::Appended, Event::Shown, Event::Answered(true), Event::Probed(true)]),
        ["ScanPrimary", "ScanPrimary", "ScanPrimary", "ScanPrimary", "ScanPrimary"]
    );
    let step = advance(&a, Step::Append(TargetFile::Primary), Event::Answered(false));
    assert!(matches!(step, Step::Append(TargetFile::Primary)));
    let step = advance(&a, Step::Finish(Outcome::Cancelled), Event::Appended);
    assert!(matches!(step, Step::Finish(Outcome::Cancelled)));
    let step = advance(&a, Step::Confirm(TargetFile::Secondary), Event::Shown);
    assert!(matches!(step, Step::Confirm(TargetFile::Secondary)));
}
