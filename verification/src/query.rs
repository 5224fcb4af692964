//! Questions to Herdr, step by step.
//!
//! A question is answered in steps. The caller does what a step asks for, and comes back with what
//! came of it.

use crate::command::{
    agent_get, agent_read, get_command, read_command, Invocation, InvocationView,
};
use crate::json::json_document;
use crate::preview::{preview, preview_of, COMPLETION_READ_LINES};
use crate::process::{
    output_error, output_failure, read_screen_text, screen_text, CommandOutput, Outcome,
};
use crate::settings::{screen_lines, setting, DEFAULT_SCREEN_LINES};
use crate::status::{parse_agent_status, status_in_document};
use crate::target::{chosen_target, is_valid_target, target_from_model, valid_target};
use crate::text::{option_view, result_view, trim_end, trimmed_end};
use vstd::prelude::*;

verus! {

/// How far a question has come.
pub enum Progress {
    /// Nothing has been done.
    Start,
    /// The program was looked for, and found at the path if there is one.
    Located(Option<String>),
    /// The command was run.
    Ran(Outcome),
}

/// What to do next for a question that is answered with a `T`.
pub enum Step<T> {
    /// Look for the program.
    Locate,
    /// Run a command.
    Run(Invocation),
    /// Nothing: this is the answer, or why there is none.
    Done(Result<T, String>),
}

/// What to do next, in characters.
pub enum StepView<T> {
    Locate,
    Run(InvocationView),
    Done(Result<T, Seq<char>>),
}

impl<T: View> View for Step<T> {
    type V = StepView<T::V>;

    open spec fn view(&self) -> StepView<T::V> {
        match *self {
            Step::Locate => StepView::Locate,
            Step::Run(call) => StepView::Run(call@),
            Step::Done(Ok(answer)) => StepView::Done(Ok(answer@)),
            Step::Done(Err(message)) => StepView::Done(Err(message@)),
        }
    }
}

/// The output of a command that succeeded, or what is wrong with it: `run` names the command where it
/// could not be run, `action` where it failed.
pub open spec fn checked_output(outcome: Outcome, run: Seq<char>, action: Seq<char>) -> Result<
    Seq<u8>,
    Seq<char>,
> {
    match outcome {
        Outcome::NotRun(reason) => Err("Failed to run Herdr "@ + run + ": "@ + reason@),
        Outcome::Finished(output) => if output.success {
            Ok(output.stdout@)
        } else {
            Err(output_failure(action, output))
        },
    }
}

/// The output of a command that succeeded, or what is wrong with it.
pub fn check_output<'a>(outcome: &'a Outcome, run: &str, action: &str) -> (r: Result<
    &'a CommandOutput,
    String,
>)
    ensures
        match r {
            Ok(output) => {
                &&& *outcome == Outcome::Finished(*output)
                &&& output.success
                &&& checked_output(*outcome, run@, action@) == Ok::<Seq<u8>, Seq<char>>(
                    output.stdout@,
                )
            },
            Err(message) => checked_output(*outcome, run@, action@) == Err::<Seq<u8>, Seq<char>>(
                message@,
            ),
        },
{
    match outcome {
        Outcome::NotRun(reason) => {
            let mut message = "Failed to run Herdr ".to_owned();
            message.append(run);
            message.append(": ");
            message.append(reason.as_str());
            Err(message)
        },
        Outcome::Finished(output) => if output.success {
            Ok(output)
        } else {
            Err(output_error(action, output))
        },
    }
}

/// The status of an agent, once `agent get` was run.
pub open spec fn status_outcome(outcome: Outcome) -> Result<Seq<char>, Seq<char>> {
    match checked_output(outcome, "agent get"@, "agent get"@) {
        Ok(stdout) => status_in_document(json_document(stdout)),
        Err(message) => Err(message),
    }
}

/// The next step to the status of the agent `target`.
pub open spec fn status_step(target: Seq<char>, progress: Progress) -> StepView<Seq<char>> {
    if !valid_target(target) {
        StepView::Done(Err("Invalid Herdr agent name."@))
    } else {
        match progress {
            Progress::Start => StepView::Locate,
            Progress::Located(None) => StepView::Done(Err("Herdr provider is not installed."@)),
            Progress::Located(Some(bin)) => StepView::Run(get_command(bin@, target)),
            Progress::Ran(outcome) => StepView::Done(status_outcome(outcome)),
        }
    }
}

/// The next step to the status of the agent `target`.
pub fn agent_status(target: &str, progress: &Progress) -> (r: Step<String>)
    ensures
        r@ == status_step(target@, *progress),
{
    if !is_valid_target(target) {
        return Step::Done(Err("Invalid Herdr agent name.".to_owned()));
    }
    match progress {
        Progress::Start => Step::Locate,
        Progress::Located(None) => Step::Done(Err("Herdr provider is not installed.".to_owned())),
        Progress::Located(Some(bin)) => Step::Run(agent_get(bin.as_str(), target)),
        Progress::Ran(outcome) => match check_output(outcome, "agent get", "agent get") {
            Ok(output) => Step::Done(parse_agent_status(output.stdout.as_slice())),
            Err(message) => Step::Done(Err(message)),
        },
    }
}

/// What the terminal of an agent shows, once `agent read` was run.
pub open spec fn read_outcome(outcome: Outcome) -> Result<Seq<char>, Seq<char>> {
    match checked_output(outcome, "agent read"@, "agent read"@) {
        Ok(stdout) => Ok(screen_text(stdout)),
        Err(message) => Err(message),
    }
}

/// What the terminal of an agent shows, once `agent read` was run.
pub fn read_agent_lines(outcome: &Outcome) -> (r: Result<String, String>)
    ensures
        result_view(r) == read_outcome(*outcome),
{
    match check_output(outcome, "agent read", "agent read") {
        Ok(output) => Ok(read_screen_text(output.stdout.as_slice())),
        Err(message) => Err(message),
    }
}

/// The next step to a preview of what the agent `target` did.
pub open spec fn preview_step(target: Seq<char>, progress: Progress) -> StepView<Seq<char>> {
    if !valid_target(target) {
        StepView::Done(Err("Invalid Herdr agent name."@))
    } else {
        match progress {
            Progress::Start => StepView::Locate,
            Progress::Located(None) => StepView::Done(Err("Herdr provider is not installed."@)),
            Progress::Located(Some(bin)) => StepView::Run(
                read_command(bin@, target, "recent-unwrapped"@, COMPLETION_READ_LINES),
            ),
            Progress::Ran(outcome) => StepView::Done(
                match read_outcome(outcome) {
                    Ok(shown) => Ok(preview_of(shown)),
                    Err(message) => Err(message),
                },
            ),
        }
    }
}

/// The next step to a preview of what the agent `target` did.
pub fn completion_preview(target: &str, progress: &Progress) -> (r: Step<String>)
    ensures
        r@ == preview_step(target@, *progress),
{
    if !is_valid_target(target) {
        return Step::Done(Err("Invalid Herdr agent name.".to_owned()));
    }
    match progress {
        Progress::Start => Step::Locate,
        Progress::Located(None) => Step::Done(Err("Herdr provider is not installed.".to_owned())),
        Progress::Located(Some(bin)) => Step::Run(
            agent_read(bin.as_str(), target, "recent-unwrapped", COMPLETION_READ_LINES),
        ),
        Progress::Ran(outcome) => match read_agent_lines(outcome) {
            Ok(output) => Step::Done(Ok(preview(output.as_str()))),
            Err(message) => Step::Done(Err(message)),
        },
    }
}

/// The next step to the screen of the agent that `model` or `configured` names, with as many lines as
/// `lines` sets. The answer is the name of the agent and its screen.
pub open spec fn screen_step(
    model: Option<Seq<char>>,
    configured: Option<Seq<char>>,
    lines: Option<Seq<char>>,
    progress: Progress,
) -> StepView<(Seq<char>, Seq<char>)> {
    match chosen_target(model, configured) {
        Err(message) => StepView::Done(Err(message)),
        Ok(target) => match progress {
            Progress::Start => StepView::Locate,
            Progress::Located(None) => StepView::Done(Err("Herdr provider is not installed."@)),
            Progress::Located(Some(bin)) => StepView::Run(
                read_command(
                    bin@,
                    target,
                    "visible"@,
                    setting(lines, 1, u32::MAX as nat, DEFAULT_SCREEN_LINES as nat) as u32,
                ),
            ),
            Progress::Ran(outcome) => StepView::Done(
                match checked_output(outcome, "agent read"@, "screen read"@) {
                    Ok(stdout) => Ok((target, trimmed_end(screen_text(stdout)))),
                    Err(message) => Err(message),
                },
            ),
        },
    }
}

/// The next step to the screen of an agent. `configured` is the value of `COKAC_HERDR_AGENT`, and
/// `lines` that of `COKAC_HERDR_SCREEN_LINES`.
pub fn read_screen(
    model: Option<&str>,
    configured: Option<&str>,
    lines: Option<&str>,
    progress: &Progress,
) -> (r: Step<(String, String)>)
    ensures
        r@ == screen_step(
            option_view(model),
            option_view(configured),
            option_view(lines),
            *progress,
        ),
{
    let target = match target_from_model(model, configured) {
        Ok(target) => target,
        Err(message) => {
            return Step::Done(Err(message));
        },
    };
    match progress {
        Progress::Start => Step::Locate,
        Progress::Located(None) => Step::Done(Err("Herdr provider is not installed.".to_owned())),
        Progress::Located(Some(bin)) => Step::Run(
            agent_read(bin.as_str(), target.as_str(), "visible", screen_lines(lines)),
        ),
        Progress::Ran(outcome) => match check_output(outcome, "agent read", "screen read") {
            Ok(output) => {
                let shown = read_screen_text(output.stdout.as_slice());
                Step::Done(Ok((target, trim_end(shown.as_str()).to_owned())))
            },
            Err(message) => Step::Done(Err(message)),
        },
    }
}

/// Nothing is looked for and nothing is run for an agent with an invalid name.
pub proof fn law_invalid_agent_runs_nothing(target: Seq<char>, progress: Progress)
    requires
        !valid_target(target),
    ensures
        status_step(target, progress) is Done,
        status_step(target, progress)->Done_0 is Err,
        preview_step(target, progress) is Done,
        preview_step(target, progress)->Done_0 is Err,
{
}

/// A question is answered in three steps: look for the program, run it, read what it wrote.
pub proof fn law_three_steps_answer(target: Seq<char>, bin: String, outcome: Outcome)
    requires
        valid_target(target),
    ensures
        status_step(target, Progress::Start) is Locate,
        status_step(target, Progress::Located(Some(bin))) == StepView::<Seq<char>>::Run(
            get_command(bin@, target),
        ),
        status_step(target, Progress::Ran(outcome)) is Done,
        preview_step(target, Progress::Start) is Locate,
        preview_step(target, Progress::Located(Some(bin))) is Run,
        preview_step(target, Progress::Ran(outcome)) is Done,
{
}

} // verus!
