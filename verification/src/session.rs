//! One turn with an agent: the prompt goes to it, and its answer comes back.
//!
//! A turn is made in steps. The caller does what a step asks for, and comes back with what came of it.

use crate::command::{
    agent_prompt, agent_read, interrupt_agent, interrupt_command, prompt_command, read_command,
    Invocation, InvocationView,
};
use crate::json::json_document;
use crate::process::{output_error, output_failure, screen_text, CommandOutput, Outcome};
use crate::query::{read_agent_lines, read_outcome};
use crate::response::{extract_final_response, final_response};
use crate::settings::{
    read_lines, setting, timeout_ms, DEFAULT_READ_LINES, DEFAULT_TIMEOUT_MS,
};
use crate::status::{prompt_refusal, refusal_in_document};
use crate::target::{chosen_target, target_from_model, valid_target};
use crate::text::{blank, is_blank, option_view};
use crate::turn::{current_turn_output, turn_output};
use vstd::prelude::*;

verus! {

/// What a turn is to do, and how the environment sets it up.
pub struct TurnRequest<'a> {
    /// The prompt for the agent.
    pub prompt: &'a str,
    /// The model that was asked for.
    pub model: Option<&'a str>,
    /// The value of `COKAC_HERDR_AGENT`.
    pub configured: Option<&'a str>,
    /// The value of `COKAC_HERDR_READ_LINES`.
    pub lines: Option<&'a str>,
    /// The value of `COKAC_HERDR_TIMEOUT_MS`.
    pub timeout: Option<&'a str>,
}

impl<'a> TurnRequest<'a> {
    /// The agent that the turn goes to.
    pub open spec fn target(&self) -> Result<Seq<char>, Seq<char>> {
        chosen_target(option_view(self.model), option_view(self.configured))
    }

    /// The command that reads the terminal of the agent `target`.
    pub open spec fn read_call(&self, bin: Seq<char>, target: Seq<char>) -> InvocationView {
        read_command(
            bin,
            target,
            "recent-unwrapped"@,
            setting(option_view(self.lines), 1, u32::MAX as nat, DEFAULT_READ_LINES as nat) as u32,
        )
    }

    /// The command that hands the prompt to the agent `target`.
    pub open spec fn prompt_call(&self, bin: Seq<char>, target: Seq<char>) -> InvocationView {
        prompt_command(
            bin,
            target,
            self.prompt@,
            setting(
                option_view(self.timeout),
                1000,
                u64::MAX as nat,
                DEFAULT_TIMEOUT_MS as nat,
            ) as u64,
        )
    }

    fn read_invocation(&self, bin: &str, target: &str) -> (r: Invocation)
        ensures
            r@ == self.read_call(bin@, target@),
    {
        agent_read(bin, target, "recent-unwrapped", read_lines(self.lines))
    }

    fn prompt_invocation(&self, bin: &str, target: &str) -> (r: Invocation)
        ensures
            r@ == self.prompt_call(bin@, target@),
    {
        agent_prompt(bin, target, self.prompt, timeout_ms(self.timeout))
    }
}

/// How far a turn has come.
pub enum TurnProgress {
    /// Nothing has been done.
    Start,
    /// The program was looked for, and found at the path if there is one.
    Located(Option<String>),
    /// The terminal was read before the prompt.
    ReadBefore { bin: String, outcome: Outcome },
    /// The prompt was started. `started` tells whether the turn was cancelled meanwhile, or why the
    /// prompt could not be started.
    Started { bin: String, before: String, started: Result<bool, String> },
    /// The prompt has ended. `cancelled` tells whether the turn was cancelled meanwhile.
    Ended { bin: String, before: String, outcome: Outcome, cancelled: bool },
    /// The agent was interrupted.
    Interrupted,
    /// The terminal was read after the prompt.
    ReadAfter { before: String, outcome: Outcome },
    /// The answer was handed on, or could not be for the reason given.
    Published(Result<(), String>),
}

/// What to do next in a turn.
pub enum TurnStep {
    /// Look for the program.
    Locate,
    /// Count a prompt for `target` as under way until the turn is done, and run the command that
    /// reads the terminal.
    Begin { target: String, call: Invocation },
    /// Start the command that hands the prompt to the agent. The terminal showed `before`.
    Prompt { call: Invocation, before: String },
    /// Wait for the prompt to end. Kill it first if `kill`.
    Wait { kill: bool },
    /// Run the command that interrupts the agent.
    Interrupt(Invocation),
    /// Run the command that reads the terminal again.
    ReadAgain(Invocation),
    /// Hand on the answer.
    Publish(String),
    /// Nothing: the turn is done, or has failed for the reason given.
    Done(Result<(), String>),
}

/// What to do next in a turn, in characters.
pub enum TurnStepView {
    Locate,
    Begin { target: Seq<char>, call: InvocationView },
    Prompt { call: InvocationView, before: Seq<char> },
    Wait { kill: bool },
    Interrupt(InvocationView),
    ReadAgain(InvocationView),
    Publish(Seq<char>),
    Done(Result<(), Seq<char>>),
}

impl View for TurnStep {
    type V = TurnStepView;

    open spec fn view(&self) -> TurnStepView {
        match *self {
            TurnStep::Locate => TurnStepView::Locate,
            TurnStep::Begin { target, call } => TurnStepView::Begin {
                target: target@,
                call: call@,
            },
            TurnStep::Prompt { call, before } => TurnStepView::Prompt {
                call: call@,
                before: before@,
            },
            TurnStep::Wait { kill } => TurnStepView::Wait { kill },
            TurnStep::Interrupt(call) => TurnStepView::Interrupt(call@),
            TurnStep::ReadAgain(call) => TurnStepView::ReadAgain(call@),
            TurnStep::Publish(response) => TurnStepView::Publish(response@),
            TurnStep::Done(Ok(())) => TurnStepView::Done(Ok(())),
            TurnStep::Done(Err(message)) => TurnStepView::Done(Err(message@)),
        }
    }
}

/// A turn that fails.
pub open spec fn failed(message: Seq<char>) -> TurnStepView {
    TurnStepView::Done(Err(message))
}

/// The step after the prompt has ended. A cancelled turn interrupts the agent; one whose prompt went
/// wrong fails; any other reads the terminal again.
pub open spec fn step_after_prompt(
    request: TurnRequest<'_>,
    target: Seq<char>,
    bin: Seq<char>,
    outcome: Outcome,
    cancelled: bool,
) -> TurnStepView {
    match outcome {
        Outcome::NotRun(reason) => failed("Failed waiting for Herdr agent: "@ + reason@),
        Outcome::Finished(output) => if cancelled {
            TurnStepView::Interrupt(interrupt_command(bin, target))
        } else if !output.success {
            failed(output_failure("agent prompt"@, output))
        } else {
            match refusal_in_document(json_document(output.stdout@)) {
                Some(message) => failed(message),
                None => TurnStepView::ReadAgain(request.read_call(bin, target)),
            }
        },
    }
}

/// The step once the terminal showed `before`, and shows `after` now: the answer to `prompt` is handed
/// on, unless it is blank.
pub open spec fn step_after_reading(
    before: Seq<char>,
    after: Seq<char>,
    prompt: Seq<char>,
) -> TurnStepView {
    let response = final_response(turn_output(before, after, prompt), prompt);
    if is_blank(response) {
        failed("Herdr agent completed without readable terminal output."@)
    } else {
        TurnStepView::Publish(response)
    }
}

/// The next step of a turn.
pub open spec fn turn_step(request: TurnRequest<'_>, progress: TurnProgress) -> TurnStepView {
    match (progress, request.target()) {
        (TurnProgress::Start, _) => TurnStepView::Locate,
        (TurnProgress::Located(None), _) => failed(
            "Herdr CLI not found. Set COKAC_HERDR_PATH or install herdr."@,
        ),
        (_, Err(message)) => failed(message),
        (TurnProgress::Located(Some(bin)), Ok(target)) => TurnStepView::Begin {
            target,
            call: request.read_call(bin@, target),
        },
        (TurnProgress::ReadBefore { bin, outcome }, Ok(target)) => match read_outcome(outcome) {
            Ok(before) => TurnStepView::Prompt {
                call: request.prompt_call(bin@, target),
                before,
            },
            Err(message) => failed(message),
        },
        (TurnProgress::Started { bin, before, started }, Ok(_)) => match started {
            Ok(cancelled) => TurnStepView::Wait { kill: cancelled },
            Err(reason) => failed("Failed to run Herdr agent prompt: "@ + reason@),
        },
        (TurnProgress::Ended { bin, before, outcome, cancelled }, Ok(target)) => step_after_prompt(
            request,
            target,
            bin@,
            outcome,
            cancelled,
        ),
        (TurnProgress::Interrupted, Ok(_)) => TurnStepView::Done(Ok(())),
        (TurnProgress::ReadAfter { before, outcome }, Ok(_)) => match read_outcome(outcome) {
            Ok(after) => step_after_reading(before@, after, request.prompt@),
            Err(message) => failed(message),
        },
        (TurnProgress::Published(Ok(())), Ok(_)) => TurnStepView::Done(Ok(())),
        (TurnProgress::Published(Err(reason)), Ok(_)) => failed(
            "Failed to publish Herdr response: "@ + reason@,
        ),
    }
}

/// A message and the reason for it.
fn with_reason(message: &str, reason: &str) -> (r: String)
    ensures
        r@ == message@ + reason@,
{
    let mut text = message.to_owned();
    text.append(reason);
    text
}

/// The step after the prompt has ended.
fn after_prompt(
    request: &TurnRequest<'_>,
    target: &str,
    bin: &str,
    outcome: &Outcome,
    cancelled: bool,
) -> (r: TurnStep)
    ensures
        r@ == step_after_prompt(*request, target@, bin@, *outcome, cancelled),
{
    match outcome {
        Outcome::NotRun(reason) => TurnStep::Done(
            Err(with_reason("Failed waiting for Herdr agent: ", reason.as_str())),
        ),
        Outcome::Finished(output) => if cancelled {
            TurnStep::Interrupt(interrupt_agent(bin, target))
        } else if !output.success {
            TurnStep::Done(Err(output_error("agent prompt", output)))
        } else {
            match prompt_refusal(output.stdout.as_slice()) {
                Some(message) => TurnStep::Done(Err(message)),
                None => TurnStep::ReadAgain(request.read_invocation(bin, target)),
            }
        },
    }
}

/// The step once the terminal showed `before`, and shows `after` now.
pub fn answer_step(before: &str, after: &str, prompt: &str) -> (r: TurnStep)
    ensures
        r@ == step_after_reading(before@, after@, prompt@),
{
    let turn_output = current_turn_output(before, after, prompt);
    let response = extract_final_response(turn_output.as_str(), prompt);
    if blank(response.as_str()) {
        return TurnStep::Done(
            Err("Herdr agent completed without readable terminal output.".to_owned()),
        );
    }
    TurnStep::Publish(response)
}

/// The next step of a turn.
pub fn execute_command_streaming(request: &TurnRequest<'_>, progress: &TurnProgress) -> (r: TurnStep)
    ensures
        r@ == turn_step(*request, *progress),
{
    match progress {
        TurnProgress::Start => {
            return TurnStep::Locate;
        },
        TurnProgress::Located(None) => {
            return TurnStep::Done(
                Err("Herdr CLI not found. Set COKAC_HERDR_PATH or install herdr.".to_owned()),
            );
        },
        _ => {},
    }
    let target = match target_from_model(request.model, request.configured) {
        Ok(target) => target,
        Err(message) => {
            return TurnStep::Done(Err(message));
        },
    };
    match progress {
        TurnProgress::Start => TurnStep::Locate,
        TurnProgress::Located(None) => TurnStep::Locate,
        TurnProgress::Located(Some(bin)) => {
            let call = request.read_invocation(bin.as_str(), target.as_str());
            TurnStep::Begin { target, call }
        },
        TurnProgress::ReadBefore { bin, outcome } => match read_agent_lines(outcome) {
            Ok(before) => TurnStep::Prompt {
                call: request.prompt_invocation(bin.as_str(), target.as_str()),
                before,
            },
            Err(message) => TurnStep::Done(Err(message)),
        },
        TurnProgress::Started { bin: _, before: _, started } => match started {
            Ok(cancelled) => TurnStep::Wait { kill: *cancelled },
            Err(reason) => TurnStep::Done(
                Err(with_reason("Failed to run Herdr agent prompt: ", reason.as_str())),
            ),
        },
        TurnProgress::Ended { bin, before: _, outcome, cancelled } => after_prompt(
            request,
            target.as_str(),
            bin.as_str(),
            outcome,
            *cancelled,
        ),
        TurnProgress::Interrupted => TurnStep::Done(Ok(())),
        TurnProgress::ReadAfter { before, outcome } => match read_agent_lines(outcome) {
            Ok(after) => answer_step(before.as_str(), after.as_str(), request.prompt),
            Err(message) => TurnStep::Done(Err(message)),
        },
        TurnProgress::Published(Ok(())) => TurnStep::Done(Ok(())),
        TurnProgress::Published(Err(reason)) => TurnStep::Done(
            Err(with_reason("Failed to publish Herdr response: ", reason.as_str())),
        ),
    }
}

/// Nothing is published but an answer that was read off the screen, and never a blank one.
pub proof fn law_only_answers_are_published(request: TurnRequest<'_>, progress: TurnProgress)
    ensures
        turn_step(request, progress) matches TurnStepView::Publish(answer) ==> {
            &&& !is_blank(answer)
            &&& progress matches TurnProgress::ReadAfter { before, outcome }
            &&& read_outcome(outcome) matches Ok(after)
            &&& answer == final_response(turn_output(before@, after, request.prompt@), request.prompt@)
        },
{
}

/// A turn that was cancelled before its prompt ended interrupts the agent and is done: it reads
/// nothing, publishes nothing, and is no failure, whatever the prompt came to.
pub proof fn law_cancelled_turn_is_interrupted(
    request: TurnRequest<'_>,
    bin: String,
    before: String,
    output: CommandOutput,
)
    requires
        request.target() is Ok,
    ensures
        turn_step(
            request,
            TurnProgress::Ended { bin, before, outcome: Outcome::Finished(output), cancelled: true },
        ) == TurnStepView::Interrupt(interrupt_command(bin@, request.target()->Ok_0)),
        turn_step(request, TurnProgress::Interrupted) == TurnStepView::Done(Ok(())),
{
}

/// A prompt that failed, or that Herdr refused, ends the turn with a failure.
pub proof fn law_refused_prompt_ends_the_turn(
    request: TurnRequest<'_>,
    bin: String,
    before: String,
    output: CommandOutput,
)
    requires
        !output.success || refusal_in_document(json_document(output.stdout@)) is Some,
    ensures
        turn_step(
            request,
            TurnProgress::Ended { bin, before, outcome: Outcome::Finished(output), cancelled: false },
        ) matches TurnStepView::Done(result) && result is Err,
{
}

/// No command is run for an agent with an invalid name, nor when no agent is known.
pub proof fn law_commands_go_to_the_agent(request: TurnRequest<'_>, progress: TurnProgress)
    ensures
        turn_step(request, progress) matches TurnStepView::Begin { target, call } ==> valid_target(
            target,
        ),
        request.target() is Err ==> (turn_step(request, progress) is Locate || (turn_step(
            request,
            progress,
        ) matches TurnStepView::Done(result) && result is Err)),
{
}

/// A turn in which everything succeeds looks for the program, reads the terminal, hands the prompt
/// over, waits for it, reads the terminal again with the same command, publishes the answer, and
/// is done.
pub proof fn law_turn_runs_through(
    request: TurnRequest<'_>,
    bin: String,
    first: CommandOutput,
    shown: String,
    prompted: CommandOutput,
    last: CommandOutput,
)
    requires
        request.target() is Ok,
        first.success,
        shown@ == screen_text(first.stdout@),
        prompted.success,
        refusal_in_document(json_document(prompted.stdout@)) is None,
        last.success,
        !is_blank(
            final_response(
                turn_output(shown@, screen_text(last.stdout@), request.prompt@),
                request.prompt@,
            ),
        ),
    ensures
        ({
            let target = request.target()->Ok_0;
            let before = shown;
            &&& turn_step(request, TurnProgress::Start) is Locate
            &&& turn_step(request, TurnProgress::Located(Some(bin))) == (TurnStepView::Begin {
                target,
                call: request.read_call(bin@, target),
            })
            &&& turn_step(
                request,
                TurnProgress::ReadBefore { bin, outcome: Outcome::Finished(first) },
            ) == (TurnStepView::Prompt {
                call: request.prompt_call(bin@, target),
                before: shown@,
            })
            &&& turn_step(request, TurnProgress::Started { bin, before, started: Ok(false) }) == (
            TurnStepView::Wait { kill: false })
            &&& turn_step(
                request,
                TurnProgress::Ended {
                    bin,
                    before,
                    outcome: Outcome::Finished(prompted),
                    cancelled: false,
                },
            ) == TurnStepView::ReadAgain(request.read_call(bin@, target))
            &&& turn_step(
                request,
                TurnProgress::ReadAfter { before, outcome: Outcome::Finished(last) },
            ) == TurnStepView::Publish(
                final_response(
                    turn_output(shown@, screen_text(last.stdout@), request.prompt@),
                    request.prompt@,
                ),
            )
            &&& turn_step(request, TurnProgress::Published(Ok(()))) == TurnStepView::Done(Ok(()))
        }),
{
}

} // verus!
