//! One run of the tool, without its input and output.
//!
//! What the run needs from outside, the place of the working directory, the
//! text of the primary pattern file, the user's answer, is handed in; what it
//! does to the outside (reading, printing, asking, writing) is handed out as
//! the step to take next. The caller takes the step and reports what came of
//! it.

use crate::locator::{find_syncthing_dir, is_folder_of, is_inside, prefix_of, SyncFolder};
use crate::pattern::{is_rewriting_of, process_patterns, PatternError};
use crate::platform::Platform;
use crate::target::{resolved, Target, TargetFile};
use vstd::prelude::*;
use vstd::string::StringExecFns;

verus! {

/// What the user asks for.
#[derive(Debug)]
pub struct Args {
    /// The patterns to add, as typed; one text may hold several lines.
    pub pattern: Vec<String>,
    /// Which file to append to.
    pub target: Target,
    /// Whether the patterns are copied as they are, and not rewritten to lie
    /// below the working directory.
    pub absolute: bool,
    /// Whether the planned change is shown and confirmed before it is made.
    pub preview: bool,
    /// Whether messages are kept back: the notice on the secondary file, the
    /// planned change, and the message of a failure.
    pub silent: bool,
}

/// Why a run failed.
#[derive(Debug)]
pub enum Failure {
    /// The working directory could not be determined.
    WorkingDirectory,
    /// The working directory is not inside of a synchronised folder.
    NotInFolder,
    /// The patterns could not be rewritten.
    Patterns(PatternError),
    /// The primary pattern file could not be read.
    ReadPrimary,
    /// The patterns could not be appended to the file.
    Append,
}

impl Failure {
    /// The message that tells the user of this failure.
    pub open spec fn spec_message(&self) -> Seq<char> {
        match self {
            Failure::WorkingDirectory => "Can't determine current working directory"@,
            Failure::NotInFolder => "Current directory is not inside of a syncthing folder"@,
            Failure::Patterns(e) => e.spec_message(),
            Failure::ReadPrimary => "Can't read .stignore file"@,
            Failure::Append => "Can't append to file"@,
        }
    }

    /// The message that tells the user of this failure.
    pub fn message(&self) -> (m: String)
        ensures
            m@ == self.spec_message(),
    {
        match self {
            Failure::WorkingDirectory => "Can't determine current working directory".to_string(),
            Failure::NotInFolder => {
                "Current directory is not inside of a syncthing folder".to_string()
            },
            Failure::Patterns(e) => e.message(),
            Failure::ReadPrimary => "Can't read .stignore file".to_string(),
            Failure::Append => "Can't append to file".to_string(),
        }
    }
}

/// How a run ended.
#[derive(Debug)]
pub enum Outcome {
    /// The patterns were appended.
    Appended,
    /// The user declined the planned change, and nothing was written.
    Cancelled,
    /// The run failed.
    Failed(Failure),
}

impl Outcome {
    /// The exit code of the process: 0 unless the run failed.
    pub open spec fn spec_exit_code(&self) -> int {
        match self {
            Outcome::Failed(_) => 1,
            _ => 0,
        }
    }

    /// The exit code of the process: 0 unless the run failed.
    pub fn exit_code(&self) -> (code: i32)
        ensures
            code == self.spec_exit_code(),
    {
        match self {
            Outcome::Failed(_) => 1,
            _ => 0,
        }
    }

    /// The message to print at the end of the run: that of the failure, unless
    /// there is none or the user asked for silence.
    pub fn report(&self, silent: bool) -> (m: Option<String>)
        ensures
            m is Some <==> (self is Failed && !silent),
            m matches Some(text) ==> text@ == self->Failed_0.spec_message(),
    {
        match self {
            Outcome::Failed(failure) => if silent {
                None
            } else {
                Some(failure.message())
            },
            _ => None,
        }
    }
}

/// What a run has settled before it touches a file.
#[derive(Debug)]
pub struct Plan {
    /// The synchronised folder that holds the working directory.
    pub folder: SyncFolder,
    /// The text to append.
    pub patterns: String,
}

/// The prefix that the patterns of a run are rewritten with: the names that
/// lead from the root of the folder to the working directory, and none where
/// the user asks for the patterns to be copied as they are.
pub open spec fn prefix_for(args: Args, cwd: Seq<Seq<char>>, marked: Seq<bool>) -> Option<
    Seq<Seq<char>>,
> {
    if args.absolute {
        None
    } else {
        Some(prefix_of(cwd, marked))
    }
}

/// Settles what a run will append: finds the synchronised folder that holds
/// the working directory, and rewrites the patterns, to lie below the working
/// directory unless they are to be copied as they are.
///
/// `cwd` and `marked` say where the working directory is and which
/// directories hold the marker, as for `find_syncthing_dir`.
///
/// The run fails if the working directory is not inside of a synchronised
/// folder and, if it is, if the patterns cannot be rewritten.
pub fn plan(args: &Args, cwd: &Vec<String>, marked: &Vec<bool>, platform: Platform) -> (r: Result<
    Plan,
    Failure,
>)
    ensures
        r matches Err(Failure::NotInFolder) <==> !is_inside(marked@, cwd.len() as int),
        match r {
            Ok(plan) => is_folder_of(plan.folder, cwd.deep_view(), marked@) && is_rewriting_of(
                Ok(plan.patterns),
                args.pattern.deep_view(),
                prefix_for(*args, cwd.deep_view(), marked@),
                platform,
            ),
            Err(Failure::Patterns(e)) => is_rewriting_of(
                Err(e),
                args.pattern.deep_view(),
                prefix_for(*args, cwd.deep_view(), marked@),
                platform,
            ),
            Err(Failure::NotInFolder) => true,
            Err(_) => false,
        },
{
    let folder = match find_syncthing_dir(cwd, marked) {
        Ok(folder) => folder,
        Err(_) => {
            return Err(Failure::NotInFolder);
        },
    };
    let rewritten = if args.absolute {
        process_patterns(&args.pattern, None, platform)
    } else {
        process_patterns(&args.pattern, Some(&folder.prefix), platform)
    };
    match rewritten {
        Ok(patterns) => Ok(Plan { folder, patterns }),
        Err(e) => Err(Failure::Patterns(e)),
    }
}

/// What the caller has to do next.
#[derive(Debug)]
pub enum Step {
    /// Open the primary pattern file, creating it if it is missing, and tell
    /// whether it names the secondary one.
    ScanPrimary,
    /// Tell whether the secondary pattern file exists.
    ProbeSecondary,
    /// Tell the user that the secondary file exists but is not named in the
    /// primary one.
    Advise,
    /// Show the user the file and the text that will be appended to it.
    Announce(TargetFile),
    /// Ask the user whether to go on.
    Confirm(TargetFile),
    /// Append the text to the file.
    Append(TargetFile),
    /// Tell the user that nothing was written.
    ReportAbort,
    /// Leave: the run has ended.
    Finish(Outcome),
}

/// What came of the step that the caller took.
#[derive(Clone, Copy, Debug)]
pub enum Event {
    /// The primary file was read: whether it names the secondary one.
    Scanned(bool),
    /// The primary file could not be opened or read.
    ScanFailed,
    /// Whether the secondary file exists.
    Probed(bool),
    /// The user was told.
    Shown,
    /// The user answered: whether to go on.
    Answered(bool),
    /// The text was appended.
    Appended,
    /// The text could not be appended.
    AppendFailed,
}

/// The step behind the choice of the file: to show the planned change, unless
/// the user asked for silence.
pub open spec fn announce_or_later(args: Args, file: TargetFile) -> Step {
    if args.silent {
        confirm_or_later(args, file)
    } else {
        Step::Announce(file)
    }
}

/// The step behind the showing of the planned change: to ask the user, if a
/// preview was asked for, and else to append.
pub open spec fn confirm_or_later(args: Args, file: TargetFile) -> Step {
    if args.preview {
        Step::Confirm(file)
    } else {
        Step::Append(file)
    }
}

/// The first step of a run. The primary file is read only where the user
/// named no file.
pub open spec fn first_step(args: Args) -> Step {
    match args.target {
        Target::Auto => Step::ScanPrimary,
        _ => announce_or_later(args, resolved(args.target, false)),
    }
}

/// The step that follows `step` once `event` has come of it. An event that
/// cannot come of the step changes nothing: the step is still to be taken.
pub open spec fn next_step(args: Args, step: Step, event: Event) -> Step {
    match (step, event) {
        (Step::ScanPrimary, Event::Scanned(included)) => if included || args.silent {
            announce_or_later(args, resolved(Target::Auto, included))
        } else {
            Step::ProbeSecondary
        },
        (Step::ScanPrimary, Event::ScanFailed) => Step::Finish(
            Outcome::Failed(Failure::ReadPrimary),
        ),
        (Step::ProbeSecondary, Event::Probed(exists)) => if exists {
            Step::Advise
        } else {
            announce_or_later(args, TargetFile::Primary)
        },
        (Step::Advise, Event::Shown) => announce_or_later(args, TargetFile::Primary),
        (Step::Announce(file), Event::Shown) => confirm_or_later(args, file),
        (Step::Confirm(file), Event::Answered(yes)) => if yes {
            Step::Append(file)
        } else {
            Step::ReportAbort
        },
        (Step::ReportAbort, Event::Shown) => Step::Finish(Outcome::Cancelled),
        (Step::Append(_), Event::Appended) => Step::Finish(Outcome::Appended),
        (Step::Append(_), Event::AppendFailed) => Step::Finish(Outcome::Failed(Failure::Append)),
        (step, _) => step,
    }
}

/// The step that shows or confirms the planned change, or makes it.
fn announce(args: &Args, file: TargetFile) -> (step: Step)
    ensures
        step == announce_or_later(*args, file),
{
    if args.silent {
        confirm(args, file)
    } else {
        Step::Announce(file)
    }
}

/// The step that confirms the planned change, or makes it.
fn confirm(args: &Args, file: TargetFile) -> (step: Step)
    ensures
        step == confirm_or_later(*args, file),
{
    if args.preview {
        Step::Confirm(file)
    } else {
        Step::Append(file)
    }
}

/// The first step of a run.
pub fn begin(args: &Args) -> (step: Step)
    ensures
        step == first_step(*args),
{
    if args.target.needs_scan() {
        Step::ScanPrimary
    } else {
        announce(args, args.target.resolve(false))
    }
}

/// The step to take once `event` has come of `step`.
pub fn advance(args: &Args, step: Step, event: Event) -> (next: Step)
    ensures
        next == next_step(*args, step, event),
{
    match (step, event) {
        (Step::ScanPrimary, Event::Scanned(included)) => if included || args.silent {
            announce(args, Target::Auto.resolve(included))
        } else {
            Step::ProbeSecondary
        },
        (Step::ScanPrimary, Event::ScanFailed) => Step::Finish(
            Outcome::Failed(Failure::ReadPrimary),
        ),
        (Step::ProbeSecondary, Event::Probed(exists)) => if exists {
            Step::Advise
        } else {
            announce(args, TargetFile::Primary)
        },
        (Step::Advise, Event::Shown) => announce(args, TargetFile::Primary),
        (Step::Announce(file), Event::Shown) => confirm(args, file),
        (Step::Confirm(file), Event::Answered(yes)) => if yes {
            Step::Append(file)
        } else {
            Step::ReportAbort
        },
        (Step::ReportAbort, Event::Shown) => Step::Finish(Outcome::Cancelled),
        (Step::Append(_), Event::Appended) => Step::Finish(Outcome::Appended),
        (Step::Append(_), Event::AppendFailed) => Step::Finish(Outcome::Failed(Failure::Append)),
        (step, _) => step,
    }
}

impl Step {
    /// The file that the step shows, asks about or appends to, if it is one of
    /// these steps.
    pub open spec fn file(self) -> Option<TargetFile> {
        match self {
            Step::Announce(file) => Some(file),
            Step::Confirm(file) => Some(file),
            Step::Append(file) => Some(file),
            _ => None,
        }
    }

    /// Whether the step tells the user something that was not asked for by a
    /// preview: the notice on the secondary file, or the planned change.
    pub open spec fn is_chatter(self) -> bool {
        self is Advise || self is Announce
    }
}

/// The line that shows the user the planned change: the file, and the text
/// that will be appended to it.
pub fn announcement(path: &str, patterns: &str) -> (line: String)
    ensures
        line@ == "Appending to "@ + path@ + ":\n"@ + patterns@,
{
    let mut line = "Appending to ".to_string();
    line.append(path);
    line.append(":\n");
    line.append(patterns);
    line
}

/// The notice that the secondary file exists but is not named in the primary
/// one.
pub fn advisory() -> (line: &'static str)
    ensures
        line@
            == "NOTE: .stignore_sync exists, but wasn't included in .stignore. \
            Working with .stignore"@,
{
    "NOTE: .stignore_sync exists, but wasn't included in .stignore. \
    Working with .stignore"
}

/// The question that the user is asked before the planned change is made.
pub fn question() -> (line: &'static str)
    ensures
        line@ == "Proceed?"@,
{
    "Proceed?"
}

/// The notice that nothing was written.
pub fn abort_notice() -> (line: &'static str)
    ensures
        line@ == "Aborting."@,
{
    "Aborting."
}

/// Where the user names a file, the primary file is never read, and the file
/// named is the one that the run works with.
pub proof fn lemma_named_file_is_taken(args: Args)
    requires
        !(args.target is Auto),
    ensures
        !(first_step(args) is ScanPrimary),
        first_step(args).file() == Some(resolved(args.target, false)),
        args.target is Stignore ==> first_step(args).file() == Some(TargetFile::Primary),
        args.target is StignoreSync ==> first_step(args).file() == Some(TargetFile::Secondary),
{
}

/// Where the user names no file, the run starts by reading the primary file,
/// and what it works with from then on is the secondary file if the primary
/// file names it and the primary file if it does not. Whether the secondary
/// file exists is looked up only where it is not named, and changes nothing
/// but what the user is told.
pub proof fn lemma_scan_decides(args: Args, included: bool, exists: bool)
    requires
        args.target is Auto,
    ensures
        first_step(args) is ScanPrimary,
        ({
            let after_scan = next_step(args, Step::ScanPrimary, Event::Scanned(included));
            let after_probe = next_step(args, Step::ProbeSecondary, Event::Probed(exists));
            let after_notice = next_step(args, Step::Advise, Event::Shown);
            &&& after_scan is ProbeSecondary || after_scan.file() == Some(
                resolved(Target::Auto, included),
            )
            &&& after_scan is ProbeSecondary ==> !included && !args.silent
            &&& after_probe is Advise <==> exists
            &&& !exists ==> after_probe.file() == Some(TargetFile::Primary)
            &&& after_notice.file() == Some(TargetFile::Primary)
        }),
{
}

/// Whether a run that has come to `step` has settled on `file`: it has left
/// the reading of the primary file behind, and whatever it shows, asks about
/// or appends to from here on is `file`. Where it still looks for the
/// secondary file or tells of it, the file is the primary one.
pub open spec fn is_settled_on(step: Step, file: TargetFile) -> bool {
    match step {
        Step::ScanPrimary => false,
        Step::ProbeSecondary => file is Primary,
        Step::Advise => file is Primary,
        Step::Announce(f) => f == file,
        Step::Confirm(f) => f == file,
        Step::Append(f) => f == file,
        Step::ReportAbort => true,
        Step::Finish(_) => true,
    }
}

/// A run settles on one file and keeps to it. With a file named by the user
/// it has settled on that file from its first step. With none it settles, when
/// the primary file has been read, on the secondary file if the primary file
/// names it and on the primary file if it does not. Whatever comes of a step
/// afterwards, the run stays settled on the same file.
pub proof fn lemma_file_is_kept(args: Args, step: Step, event: Event, file: TargetFile)
    ensures
        !(args.target is Auto) ==> is_settled_on(first_step(args), resolved(args.target, false)),
        event matches Event::Scanned(included) ==> is_settled_on(
            next_step(args, Step::ScanPrimary, event),
            resolved(Target::Auto, included),
        ),
        is_settled_on(step, file) ==> is_settled_on(next_step(args, step, event), file),
{
}

/// Where the user asked for silence, nothing is looked up for the sake of a
/// notice, and neither the notice nor the planned change is shown.
pub proof fn lemma_silence(args: Args, step: Step, event: Event)
    requires
        args.silent,
        !step.is_chatter(),
        !(step is ProbeSecondary),
    ensures
        !first_step(args).is_chatter(),
        !next_step(args, step, event).is_chatter(),
        !(next_step(args, step, event) is ProbeSecondary),
{
}

/// Where the user asked for a preview, the text is appended only once the user
/// has agreed: the step that appends comes behind the question alone, and
/// only upon the answer yes. The answer no leads to the end of the run without
/// a file being written.
pub proof fn lemma_preview_guards_append(args: Args, step: Step, event: Event)
    requires
        args.preview,
        !(step is Append),
    ensures
        !(first_step(args) is Append),
        next_step(args, step, event) is Append ==> step is Confirm && event == Event::Answered(
            true,
        ),
        step is Confirm && event == Event::Answered(false) ==> next_step(args, step, event)
            == Step::ReportAbort,
        next_step(args, Step::ReportAbort, Event::Shown) == Step::Finish(Outcome::Cancelled),
{
}

/// Once a run has ended, nothing follows.
pub proof fn lemma_finish_is_final(args: Args, outcome: Outcome, event: Event)
    ensures
        next_step(args, Step::Finish(outcome), event) == Step::Finish(outcome),
{
}

/// A run ends in failure only where a file could not be read or written, and
/// it says which.
pub proof fn lemma_failures(args: Args, step: Step, event: Event)
    requires
        !(step is Finish),
        next_step(args, step, event) matches Step::Finish(Outcome::Failed(failure)),
    ensures
        (step is ScanPrimary && event is ScanFailed && next_step(args, step, event)
            == Step::Finish(Outcome::Failed(Failure::ReadPrimary))) || (step is Append
            && event is AppendFailed && next_step(args, step, event) == Step::Finish(
            Outcome::Failed(Failure::Append),
        )),
{
}

/// The step that a run has come to when `events` have come of its steps, one
/// after the other.
pub open spec fn step_after(args: Args, events: Seq<Event>) -> Step
    decreases events.len(),
{
    if events.len() == 0 {
        first_step(args)
    } else {
        next_step(args, step_after(args, events.drop_last()), events.last())
    }
}

/// Throughout a run with a file named by the user, whatever comes of its
/// steps, the run works with that file and with no other.
pub proof fn lemma_run_with_named_file(args: Args, events: Seq<Event>)
    requires
        !(args.target is Auto),
    ensures
        is_settled_on(step_after(args, events), resolved(args.target, false)),
        !(step_after(args, events) is ScanPrimary),
        !(step_after(args, events) is ProbeSecondary),
        !(step_after(args, events) is Advise),
    decreases events.len(),
{
    if events.len() > 0 {
        lemma_run_with_named_file(args, events.drop_last());
    }
}

/// Throughout a run with no file named, once the primary file has been read,
/// whatever comes of the later steps, the run works with the secondary file if
/// the primary file names it and with the primary file if it does not.
pub proof fn lemma_run_follows_scan(args: Args, events: Seq<Event>, included: bool)
    requires
        args.target is Auto,
        events.len() >= 1,
        events[0] == Event::Scanned(included),
    ensures
        is_settled_on(step_after(args, events), resolved(Target::Auto, included)),
    decreases events.len(),
{
    let before = events.drop_last();
    if events.len() == 1 {
        assert(before.len() == 0);
    } else {
        assert(before[0] == events[0]);
        lemma_run_follows_scan(args, before, included);
    }
}

/// Throughout a run for which the user asked for silence, nothing is looked up
/// for the sake of a notice, and neither the notice nor the planned change is
/// shown.
pub proof fn lemma_run_is_silent(args: Args, events: Seq<Event>)
    requires
        args.silent,
    ensures
        !step_after(args, events).is_chatter(),
        !(step_after(args, events) is ProbeSecondary),
    decreases events.len(),
{
    if events.len() > 0 {
        lemma_run_is_silent(args, events.drop_last());
    }
}

/// A run for which the user asked for a preview comes to append only after
/// the user has answered yes; and a run that has ended with the patterns
/// appended has come by the step that appends.
pub proof fn lemma_run_waits_for_consent(args: Args, events: Seq<Event>)
    requires
        args.preview,
        step_after(args, events) is Append || step_after(args, events) == Step::Finish(
            Outcome::Appended,
        ),
    ensures
        exists|i: int| 0 <= i < events.len() && events[i] == Event::Answered(true),
    decreases events.len(),
{
    if events.len() > 0 {
        let before = events.drop_last();
        let step = step_after(args, before);
        if step is Append || step == Step::Finish(Outcome::Appended) {
            lemma_run_waits_for_consent(args, before);
            let i = choose|i: int| 0 <= i < before.len() && before[i] == Event::Answered(true);
            assert(events[i] == Event::Answered(true));
        } else {
            assert(step is Confirm && events.last() == Event::Answered(true));
            assert(events[events.len() - 1] == Event::Answered(true));
        }
    }
}

} // verus!
