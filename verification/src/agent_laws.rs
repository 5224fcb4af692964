//! What is asked of Herdr, and what is made of its replies.

use crate::chars::is_digit;
use crate::classify_laws::{blank_from, law_blank_lines};
use crate::command::{get_command, interrupt_command, prompt_command, read_command};
use crate::json::{json_document, json_text, status_in, tree_at, JsonTree};
use crate::lines::without_chars;
use crate::locate::{candidates, first_true, path_step, which_path, PathStepView};
use crate::number::{all_digits, decimal, digits_value, law_decimal_reads_back, unsigned_value};
use crate::preview::preview_of;
use crate::process::{
    failure_message, lossy_text, output_failure, screen_text, CommandOutput, Outcome,
};
use crate::query::{
    checked_output, preview_step, read_outcome, screen_step, status_step, Progress, StepView,
};
use crate::response::final_response;
use crate::session::{step_after_reading, turn_step, TurnProgress, TurnRequest, TurnStepView};
use crate::settings::setting;
use crate::status::{refusal_in_document, status_in_document};
use crate::target::{chosen_target, herdr_model, model_target, valid_target};
use crate::text::{is_blank, option_view, trimmed, trimmed_end, CharSet};
use crate::turn::turn_output;
use vstd::prelude::*;

verus! {

/// A name is valid if it has one to thirty-two characters, begins with a lowercase letter, and holds
/// nothing but lowercase letters, digits, hyphens and underscores.
pub proof fn law_valid_names(name: Seq<char>)
    ensures
        valid_target(name) <==> {
            &&& 0 < name.len() && name.len() < 33
            &&& 'a' <= name[0] && name[0] <= 'z'
            &&& forall|i: int| #![trigger name[i]]
                0 <= i < name.len() ==> ('a' <= name[i] && name[i] <= 'z') || ('0' <= name[i]
                    && name[i] <= '9') || name[i] == '-' || name[i] == '_'
        },
{
}

/// The agent that a model names is taken, whatever is configured; without a name the configured one is
/// taken. A name that is not valid is refused, and never replaced by another.
pub proof fn law_choice_of_the_agent(
    model: Option<Seq<char>>,
    name: Seq<char>,
    configured: Option<Seq<char>>,
)
    ensures
        name.len() > 0 && !valid_target(name) ==> chosen_target(
            Some("herdr:"@ + name),
            configured,
        ) == Err::<Seq<char>, Seq<char>>(
            "Invalid Herdr agent name. Use 1-32 lowercase letters, digits, '-' or '_'."@,
        ),
        model is None || model_target(model->0) is None ==> chosen_target(model, None) == Err::<
            Seq<char>,
            Seq<char>,
        >(
            "Herdr agent is not configured. Use /model herdr:<agent-name> or set COKAC_HERDR_AGENT."@,
        ),
        (model is None || model_target(model->0) is None) && !valid_target(name) ==> chosen_target(
            model,
            Some(name),
        ) == Err::<Seq<char>, Seq<char>>("COKAC_HERDR_AGENT contains an invalid Herdr agent name."@),
        model is None || model_target(model->0) is None ==> (chosen_target(model, Some(name)) is Ok
            <==> valid_target(name)),
        (model is None || model_target(model->0) is None) && valid_target(name) ==> chosen_target(
            model,
            Some(name),
        ) == Ok::<Seq<char>, Seq<char>>(name),
{
    reveal_strlit("herdr:");
    let named = "herdr:"@ + name;
    assert(named.take(6) =~= "herdr:"@);
    assert(named.skip(6) =~= name);
}

/// Herdr provides the model of its own name and those that begin with it and a colon; a model names an
/// agent if something follows the colon.
pub proof fn law_models_of_herdr(model: Seq<char>, rest: Seq<char>)
    ensures
        herdr_model(model) <==> model == seq!['h', 'e', 'r', 'd', 'r'] || model.len() >= 6
            && model.take(6) == seq!['h', 'e', 'r', 'd', 'r', ':'],
        model_target(model) is Some <==> model.len() >= 7 && model.take(6) == seq![
            'h',
            'e',
            'r',
            'd',
            'r',
            ':',
        ],
        rest.len() > 0 ==> model_target(seq!['h', 'e', 'r', 'd', 'r', ':'] + rest) == Some(rest),
{
    reveal_strlit("herdr");
    reveal_strlit("herdr:");
    assert("herdr"@ =~= seq!['h', 'e', 'r', 'd', 'r']);
    assert("herdr:"@ =~= seq!['h', 'e', 'r', 'd', 'r', ':']);
    let named = seq!['h', 'e', 'r', 'd', 'r', ':'] + rest;
    assert(named.take(6) =~= "herdr:"@);
    assert(named.skip(6) =~= rest);
}

/// A number is read from digits, one or more, with at most a plus sign before them, and from nothing
/// else; the value is the one that they write.
pub proof fn law_numbers(n: nat, text: Seq<char>)
    ensures
        unsigned_value(decimal(n)) == Some(n),
        unsigned_value(seq!['+'] + decimal(n)) == Some(n),
        unsigned_value(seq!['0'] + decimal(n)) == Some(n),
        unsigned_value(text) is Some <==> {
            let start: int = if text.len() > 0 && text[0] == '+' {
                1
            } else {
                0
            };
            start < text.len() && forall|i: int| #![trigger text[i]]
                start <= i < text.len() ==> '0' <= text[i] && text[i] <= '9'
        },
{
    law_decimal_reads_back(n);
    let digits = decimal(n);
    let plus = seq!['+'] + digits;
    let zero = seq!['0'] + digits;
    lemma_decimal_is_digits(n);
    assert(digits[0] != '+');
    assert(plus.skip(1) =~= digits);
    lemma_zero_in_front(digits);
    assert forall|i: int| 0 <= i < zero.len() implies is_digit(#[trigger] zero[i]) by {
        if i > 0 {
            assert(zero[i] == digits[i - 1]);
        }
    }
    if text.len() > 0 && text[0] == '+' {
        let rest = text.skip(1);
        if all_digits(rest) {
            assert forall|i: int| #![trigger text[i]] 1 <= i < text.len() implies '0' <= text[i]
                && text[i] <= '9' by {
                assert(is_digit(rest[i - 1]));
            }
        }
        if forall|i: int| #![trigger text[i]]
            1 <= i < text.len() ==> '0' <= text[i] && text[i] <= '9' {
            assert forall|i: int| 0 <= i < rest.len() implies is_digit(#[trigger] rest[i]) by {
                assert(rest[i] == text[i + 1]);
            }
        }
    } else {
        if all_digits(text) {
            assert forall|i: int| #![trigger text[i]] 0 <= i < text.len() implies '0' <= text[i]
                && text[i] <= '9' by {
                assert(is_digit(text[i]));
            }
        }
    }
}

proof fn lemma_decimal_is_digits(n: nat)
    ensures
        decimal(n).len() > 0,
        all_digits(decimal(n)),
        decimal(n)[0] != '+',
    decreases n,
{
    if n >= 10 {
        let before = decimal(n / 10);
        lemma_decimal_is_digits(n / 10);
        assert forall|i: int| 0 <= i < decimal(n).len() implies is_digit(#[trigger] decimal(n)[i]) by {
            if i < before.len() {
                assert(decimal(n)[i] == before[i]);
            }
        }
    }
    assert(is_digit(decimal(n)[0]));
}

proof fn lemma_zero_in_front(digits: Seq<char>)
    ensures
        digits_value(seq!['0'] + digits) == digits_value(digits),
    decreases digits.len(),
{
    let all = seq!['0'] + digits;
    if digits.len() == 0 {
        assert(all.drop_last() =~= seq![]);
        assert(digits_value(all.drop_last()) == 0);
    } else {
        assert(all.drop_last() =~= seq!['0'] + digits.drop_last());
        assert(all.last() == digits.last());
        lemma_zero_in_front(digits.drop_last());
    }
}

/// A setting is the number that is written, if it is in range; without a number, or with one out of
/// range, it is the default.
pub proof fn law_settings(n: nat, text: Seq<char>, min: nat, max: nat, default: nat)
    ensures
        min <= n <= max ==> setting(Some(decimal(n)), min, max, default) == n,
        n < min || n > max ==> setting(Some(decimal(n)), min, max, default) == default,
        unsigned_value(text) is None ==> setting(Some(text), min, max, default) == default,
        setting(None, min, max, default) == default,
{
    law_decimal_reads_back(n);
}

/// A turn reads the lines that are set, or a thousand, and waits as long as is set, at least a second,
/// or half an hour.
pub proof fn law_settings_of_a_turn(request: TurnRequest<'_>, bin: Seq<char>, target: Seq<char>)
    ensures
        request.read_call(bin, target) == read_command(
            bin,
            target,
            "recent-unwrapped"@,
            setting(option_view(request.lines), 1, u32::MAX as nat, 1000) as u32,
        ),
        request.prompt_call(bin, target) == prompt_command(
            bin,
            target,
            request.prompt@,
            setting(option_view(request.timeout), 1000, u64::MAX as nat, 1_800_000) as u64,
        ),
{
}

/// The commands name the program, the agent and what is asked of it, each as it is.
pub proof fn law_commands(
    bin: Seq<char>,
    target: Seq<char>,
    text: Seq<char>,
    lines: u32,
    timeout_ms: u64,
)
    ensures
        get_command(bin, target).bin == bin,
        get_command(bin, target).args == seq!["agent"@, "get"@, target],
        interrupt_command(bin, target).bin == bin,
        interrupt_command(bin, target).args == seq!["agent"@, "send-keys"@, target, "ctrl+c"@],
        read_command(bin, target, text, lines).bin == bin,
        read_command(bin, target, text, lines).args == seq!["agent"@, "read"@, target] + seq![
            "--source"@,
            text,
        ] + seq!["--lines"@, decimal(lines as nat)] + seq!["--format"@, "text"@],
        prompt_command(bin, target, text, timeout_ms).bin == bin,
        prompt_command(bin, target, text, timeout_ms).args == seq![
            "agent"@,
            "prompt"@,
            target,
            text,
            "--wait"@,
        ] + seq!["--until"@, "idle"@] + seq!["--until"@, "done"@] + seq!["--until"@, "blocked"@]
            + seq!["--timeout"@, decimal(timeout_ms as nat)],
{
    assert(read_command(bin, target, text, lines).args =~= seq!["agent"@, "read"@, target] + seq![
        "--source"@,
        text,
    ] + seq!["--lines"@, decimal(lines as nat)] + seq!["--format"@, "text"@]);
    assert(prompt_command(bin, target, text, timeout_ms).args =~= seq![
        "agent"@,
        "prompt"@,
        target,
        text,
        "--wait"@,
    ] + seq!["--until"@, "idle"@] + seq!["--until"@, "done"@] + seq!["--until"@, "blocked"@] + seq![
        "--timeout"@,
        decimal(timeout_ms as nat),
    ]);
}

/// A failure is told by what the command wrote to its error output; if that is blank, by its output;
/// and if that is blank too, by its exit code.
pub proof fn law_failures(
    action: Seq<char>,
    code: Option<i32>,
    stderr: Seq<char>,
    stdout: Seq<char>,
)
    ensures
        !blank_from(stderr, 0) ==> failure_message(action, code, stderr, stdout) == "Herdr "@
            + action + " failed: "@ + trimmed(stderr),
        blank_from(stderr, 0) && !blank_from(stdout, 0) ==> failure_message(
            action,
            code,
            stderr,
            stdout,
        ) == "Herdr "@ + action + " failed: "@ + trimmed(stdout),
        blank_from(stderr, 0) && blank_from(stdout, 0) ==> failure_message(
            action,
            code,
            stderr,
            stdout,
        ) == "Herdr "@ + action + " failed with exit code "@ + match code {
            Some(n) => if n < 0 {
                seq!['-'] + decimal((-n) as nat)
            } else {
                decimal(n as nat)
            },
            None => "unknown"@,
        } + "."@,
{
    law_blank_lines(stderr);
    law_blank_lines(stdout);
}

/// An output fails by its own error output, output and exit code.
pub proof fn law_failed_outputs(action: Seq<char>, output: CommandOutput)
    ensures
        output_failure(action, output) == failure_message(
            action,
            output.code,
            lossy_text(output.stderr@),
            lossy_text(output.stdout@),
        ),
        checked_output(Outcome::Finished(output), action, action) == if output.success {
            Ok::<Seq<u8>, Seq<char>>(output.stdout@)
        } else {
            Err(output_failure(action, output))
        },
{
}

/// Of what a command wrote every character is kept, but carriage returns.
pub proof fn law_only_returns_go(before: Seq<char>, c: char, bytes: Seq<u8>)
    ensures
        lossy_text(bytes) == before.push(c) ==> screen_text(bytes) == if c == '\r' {
            without_chars(before, CharSet::Only('\r'))
        } else {
            without_chars(before, CharSet::Only('\r')).push(c)
        },
        !lossy_text(bytes).contains('\r') ==> screen_text(bytes) == lossy_text(bytes),
{
    assert(before.push(c).drop_last() =~= before);
    if !lossy_text(bytes).contains('\r') {
        lemma_nothing_goes(lossy_text(bytes), '\r');
    }
}

proof fn lemma_nothing_goes(t: Seq<char>, c: char)
    requires
        !t.contains(c),
    ensures
        without_chars(t, CharSet::Only(c)) == t,
    decreases t.len(),
{
    if t.len() > 0 {
        let shorter = t.drop_last();
        assert(t.contains(t.last()));
        assert(!shorter.contains(c)) by {
            if shorter.contains(c) {
                let i = choose|i: int| 0 <= i < shorter.len() && shorter[i] == c;
                assert(t[i] == c);
            }
        }
        lemma_nothing_goes(shorter, c);
        assert(shorter.push(t.last()) =~= t);
    }
}

/// The status of an agent stands in the member `agent_status` of `agent` of `result`, as a string, and
/// nowhere else.
pub proof fn law_place_of_the_status(tree: JsonTree, status: Seq<char>)
    ensures
        status_in(tree) == Some(status) <==> {
            &&& tree matches JsonTree::Object(top)
            &&& top.contains_key("result"@)
            &&& top["result"@] matches JsonTree::Object(result)
            &&& result.contains_key("agent"@)
            &&& result["agent"@] matches JsonTree::Object(agent)
            &&& agent.contains_key("agent_status"@)
            &&& agent["agent_status"@] == JsonTree::Text(status)
        },
{
    let steps = seq!["result"@, "agent"@, "agent_status"@];
    reveal_with_fuel(tree_at, 4);
    assert(steps.drop_first() =~= seq!["agent"@, "agent_status"@]);
    assert(steps.drop_first().drop_first() =~= seq!["agent_status"@]);
    assert(steps.drop_first().drop_first().drop_first() =~= seq![]);
}

/// A reply with a member `error` is a failure, whatever else it holds, and so is one that is no JSON;
/// a reply without it accepts a prompt, and tells the status if it holds one.
pub proof fn law_replies(document: Result<JsonTree, Seq<char>>)
    ensures
        document matches Err(reason) ==> {
            &&& status_in_document(document) == Err::<Seq<char>, Seq<char>>(
                "Herdr returned invalid agent JSON: "@ + reason,
            )
            &&& refusal_in_document(document) == Some(
                "Herdr returned invalid prompt JSON: "@ + reason,
            )
        },
        document matches Ok(tree) ==> {
            let failed = tree matches JsonTree::Object(members) && members.contains_key("error"@);
            &&& failed ==> status_in_document(document) == Err::<Seq<char>, Seq<char>>(
                "Herdr agent get failed: "@ + json_text(tree),
            )
            &&& failed ==> refusal_in_document(document) == Some(
                "Herdr agent prompt failed: "@ + json_text(tree),
            )
            &&& !failed ==> refusal_in_document(document) is None
            &&& !failed ==> (status_in_document(document) is Ok <==> status_in(tree) is Some)
            &&& !failed ==> (status_in(tree) matches Some(status) ==> status_in_document(document)
                == Ok::<Seq<char>, Seq<char>>(status))
        },
{
}

/// A configured path that is not empty is tried first, then the one below the home directory, and then
/// the three usual ones.
pub proof fn law_order_of_the_paths(path: Seq<char>, home: Seq<char>)
    requires
        path.len() > 0,
    ensures
        ({
            let usual = seq!["/usr/local/bin/herdr"@, "/usr/bin/herdr"@, "/bin/herdr"@];
            let below = home + "/.local/bin/herdr"@;
            &&& candidates(Some(path), Some(home)) == seq![path, below] + usual
            &&& candidates(Some(path), None) == seq![path] + usual
            &&& candidates(None, Some(home)) == seq![below] + usual
            &&& candidates(Some(Seq::empty()), Some(home)) == seq![below] + usual
            &&& candidates(None, None) == usual
        }),
{
    let usual = seq!["/usr/local/bin/herdr"@, "/usr/bin/herdr"@, "/bin/herdr"@];
    let below = home + "/.local/bin/herdr"@;
    let none: Seq<char> = Seq::empty();
    assert(candidates(Some(path), Some(home)) =~= seq![path, below] + usual);
    assert(candidates(Some(path), None) =~= seq![path] + usual);
    assert(candidates(None, Some(home)) =~= seq![below] + usual);
    assert(candidates(Some(none), Some(home)) =~= seq![below] + usual);
    assert(candidates(None, None) =~= usual);
}

/// While no path was a file, the next one is tried. What `which` finds is tried in the end, if it
/// succeeds and finds something, and is taken if it is a file.
pub proof fn law_search_goes_on(
    paths: Seq<Seq<char>>,
    answers: Seq<bool>,
    output: CommandOutput,
    found: bool,
)
    requires
        answers.len() <= paths.len(),
        forall|i: int| 0 <= i < answers.len() ==> !(#[trigger] answers[i]),
    ensures
        answers.len() < paths.len() ==> path_step(paths, answers, None) == PathStepView::CheckFile(
            paths[answers.len() as int],
        ),
        which_path(Outcome::Finished(output)) == if output.success && !blank_from(
            lossy_text(output.stdout@),
            0,
        ) {
            Some(trimmed(lossy_text(output.stdout@)))
        } else {
            None
        },
        answers.len() == paths.len() ==> {
            let path = which_path(Outcome::Finished(output));
            &&& path is None ==> path_step(paths, answers, Some(path)) == PathStepView::Done(None)
            &&& path is Some ==> path_step(paths, answers, Some(path)) == PathStepView::CheckFile(
                path->0,
            )
            &&& path is Some ==> path_step(paths, answers.push(found), Some(path))
                == PathStepView::Done(
                if found {
                    path
                } else {
                    None
                },
            )
        },
{
    law_blank_lines(lossy_text(output.stdout@));
    lemma_first_true(answers);
    lemma_first_true_push(answers, found);
}

proof fn lemma_first_true(answers: Seq<bool>)
    requires
        forall|i: int| 0 <= i < answers.len() ==> !(#[trigger] answers[i]),
    ensures
        first_true(answers) == answers.len(),
    decreases answers.len(),
{
    if answers.len() > 0 {
        let rest = answers.drop_first();
        assert(!answers[0]);
        assert forall|i: int| 0 <= i < rest.len() implies !(#[trigger] rest[i]) by {
            assert(rest[i] == answers[i + 1]);
        }
        lemma_first_true(rest);
    }
}

proof fn lemma_first_true_push(answers: Seq<bool>, found: bool)
    requires
        forall|i: int| 0 <= i < answers.len() ==> !(#[trigger] answers[i]),
    ensures
        first_true(answers.push(found)) >= answers.len(),
    decreases answers.len(),
{
    if answers.len() > 0 {
        let rest = answers.drop_first();
        assert(!answers[0]);
        assert(answers.push(found).drop_first() =~= rest.push(found));
        assert forall|i: int| 0 <= i < rest.len() implies !(#[trigger] rest[i]) by {
            assert(rest[i] == answers[i + 1]);
        }
        lemma_first_true_push(rest, found);
    }
}

/// A status is what the reply tells, a preview is made of the screen that was read, and a screen is
/// shown as it was read, without white space at its end, with the agent that it belongs to.
pub proof fn law_answers_to_questions(
    target: Seq<char>,
    model: Option<Seq<char>>,
    configured: Option<Seq<char>>,
    lines: Option<Seq<char>>,
    bin: String,
    output: CommandOutput,
)
    requires
        valid_target(target),
        output.success,
    ensures
        ({
            let ran = Progress::Ran(Outcome::Finished(output));
            &&& status_step(target, ran) == StepView::Done(
                status_in_document(json_document(output.stdout@)),
            )
            &&& preview_step(target, ran) == StepView::Done(
                Ok::<Seq<char>, Seq<char>>(preview_of(screen_text(output.stdout@))),
            )
            &&& preview_step(target, Progress::Located(Some(bin))) == StepView::<Seq<char>>::Run(
                read_command(bin@, target, "recent-unwrapped"@, 120),
            )
            &&& chosen_target(model, configured) matches Ok(agent) ==> {
                &&& screen_step(model, configured, lines, ran) == StepView::Done(
                    Ok::<(Seq<char>, Seq<char>), Seq<char>>(
                        (agent, trimmed_end(screen_text(output.stdout@))),
                    ),
                )
                &&& screen_step(model, configured, lines, Progress::Located(Some(bin))) == StepView::<
                    (Seq<char>, Seq<char>),
                >::Run(
                    read_command(
                        bin@,
                        agent,
                        "visible"@,
                        setting(lines, 1, u32::MAX as nat, 120) as u32,
                    ),
                )
            }
        }),
{
}

/// A question for which the program was not found, to which no command could be run, or whose command
/// failed, is not answered.
pub proof fn law_failed_questions(
    target: Seq<char>,
    model: Option<Seq<char>>,
    configured: Option<Seq<char>>,
    lines: Option<Seq<char>>,
    outcome: Outcome,
)
    requires
        !(outcome matches Outcome::Finished(output) && output.success),
    ensures
        status_step(target, Progress::Ran(outcome)) matches StepView::Done(r) && r is Err,
        preview_step(target, Progress::Ran(outcome)) matches StepView::Done(r) && r is Err,
        screen_step(model, configured, lines, Progress::Ran(outcome)) matches StepView::Done(r)
            && r is Err,
        status_step(target, Progress::Located(None)) matches StepView::Done(r) && r is Err,
        preview_step(target, Progress::Located(None)) matches StepView::Done(r) && r is Err,
        screen_step(model, configured, lines, Progress::Located(None)) matches StepView::Done(r)
            && r is Err,
{
}

/// Why a question is not answered is told in full: the name is none of an agent, the program is not
/// there, the command could not be run, or it failed.
pub proof fn law_reasons_for_no_answer(
    target: Seq<char>,
    model: Option<Seq<char>>,
    configured: Option<Seq<char>>,
    lines: Option<Seq<char>>,
    progress: Progress,
    reason: String,
    output: CommandOutput,
)
    requires
        !output.success,
    ensures
        !valid_target(target) ==> {
            let refused = StepView::Done(
                Err::<Seq<char>, Seq<char>>("Invalid Herdr agent name."@),
            );
            status_step(target, progress) == refused && preview_step(target, progress) == refused
        },
        valid_target(target) ==> {
            let missing = StepView::Done(
                Err::<Seq<char>, Seq<char>>("Herdr provider is not installed."@),
            );
            let not_run = Progress::Ran(Outcome::NotRun(reason));
            let ended = Progress::Ran(Outcome::Finished(output));
            &&& status_step(target, Progress::Located(None)) == missing
            &&& preview_step(target, Progress::Located(None)) == missing
            &&& status_step(target, not_run) == StepView::Done(
                Err::<Seq<char>, Seq<char>>("Failed to run Herdr "@ + "agent get"@ + ": "@ + reason@),
            )
            &&& preview_step(target, not_run) == StepView::Done(
                Err::<Seq<char>, Seq<char>>(
                    "Failed to run Herdr "@ + "agent read"@ + ": "@ + reason@,
                ),
            )
            &&& status_step(target, ended) == StepView::Done(
                Err::<Seq<char>, Seq<char>>(output_failure("agent get"@, output)),
            )
            &&& preview_step(target, ended) == StepView::Done(
                Err::<Seq<char>, Seq<char>>(output_failure("agent read"@, output)),
            )
        },
        chosen_target(model, configured) matches Err(message) ==> screen_step(
            model,
            configured,
            lines,
            progress,
        ) == StepView::Done(Err::<(Seq<char>, Seq<char>), Seq<char>>(message)),
        chosen_target(model, configured) is Ok ==> {
            let not_run = Progress::Ran(Outcome::NotRun(reason));
            let ended = Progress::Ran(Outcome::Finished(output));
            &&& screen_step(model, configured, lines, Progress::Located(None)) == StepView::Done(
                Err::<(Seq<char>, Seq<char>), Seq<char>>("Herdr provider is not installed."@),
            )
            &&& screen_step(model, configured, lines, not_run) == StepView::Done(
                Err::<(Seq<char>, Seq<char>), Seq<char>>(
                    "Failed to run Herdr "@ + "agent read"@ + ": "@ + reason@,
                ),
            )
            &&& screen_step(model, configured, lines, ended) == StepView::Done(
                Err::<(Seq<char>, Seq<char>), Seq<char>>(output_failure("screen read"@, output)),
            )
        },
{
}

/// A turn fails where a reading fails, before the prompt or after it, where the prompt cannot be started
/// or waited for, where nothing can be read of an answer, and where it cannot be handed on.
pub proof fn law_failures_of_a_turn(
    request: TurnRequest<'_>,
    bin: String,
    before: String,
    outcome: Outcome,
    reason: String,
    cancelled: bool,
    after: Seq<char>,
)
    requires
        !(outcome matches Outcome::Finished(output) && output.success),
    ensures
        turn_step(request, TurnProgress::ReadBefore { bin, outcome }) matches TurnStepView::Done(r)
            && r is Err,
        turn_step(request, TurnProgress::ReadAfter { before, outcome }) matches TurnStepView::Done(
            r,
        ) && r is Err,
        turn_step(
            request,
            TurnProgress::Started { bin, before, started: Err(reason) },
        ) matches TurnStepView::Done(r) && r is Err,
        turn_step(
            request,
            TurnProgress::Ended { bin, before, outcome: Outcome::NotRun(reason), cancelled },
        ) matches TurnStepView::Done(r) && r is Err,
        turn_step(request, TurnProgress::Published(Err(reason))) matches TurnStepView::Done(r)
            && r is Err,
        turn_step(request, TurnProgress::Located(None)) matches TurnStepView::Done(r) && r is Err,
        is_blank(final_response(turn_output(before@, after, request.prompt@), request.prompt@))
            ==> (step_after_reading(before@, after, request.prompt@) matches TurnStepView::Done(r)
            && r is Err),
{
}

/// Why a turn fails is told in full: by the reason that came back, or by what Herdr wrote.
pub proof fn law_reasons_are_told(
    request: TurnRequest<'_>,
    bin: String,
    before: String,
    reason: String,
    output: CommandOutput,
    cancelled: bool,
    after: Seq<char>,
)
    requires
        request.target() is Ok,
    ensures
        turn_step(request, TurnProgress::Started { bin, before, started: Err(reason) })
            == TurnStepView::Done(Err("Failed to run Herdr agent prompt: "@ + reason@)),
        turn_step(
            request,
            TurnProgress::Ended { bin, before, outcome: Outcome::NotRun(reason), cancelled },
        ) == TurnStepView::Done(Err("Failed waiting for Herdr agent: "@ + reason@)),
        turn_step(request, TurnProgress::Published(Err(reason))) == TurnStepView::Done(
            Err("Failed to publish Herdr response: "@ + reason@),
        ),
        turn_step(request, TurnProgress::ReadBefore { bin, outcome: Outcome::NotRun(reason) })
            == TurnStepView::Done(Err("Failed to run Herdr "@ + "agent read"@ + ": "@ + reason@)),
        !output.success ==> turn_step(
            request,
            TurnProgress::Ended {
                bin,
                before,
                outcome: Outcome::Finished(output),
                cancelled: false,
            },
        ) == TurnStepView::Done(Err(output_failure("agent prompt"@, output))),
        !output.success ==> turn_step(
            request,
            TurnProgress::ReadAfter { before, outcome: Outcome::Finished(output) },
        ) == TurnStepView::Done(Err(output_failure("agent read"@, output))),
        turn_step(request, TurnProgress::ReadAfter { before, outcome: Outcome::NotRun(reason) })
            == TurnStepView::Done(Err("Failed to run Herdr "@ + "agent read"@ + ": "@ + reason@)),
        turn_step(request, TurnProgress::Located(None)) == TurnStepView::Done(
            Err("Herdr CLI not found. Set COKAC_HERDR_PATH or install herdr."@),
        ),
        is_blank(final_response(turn_output(before@, after, request.prompt@), request.prompt@))
            ==> step_after_reading(before@, after, request.prompt@) == TurnStepView::Done(
            Err("Herdr agent completed without readable terminal output."@),
        ),
{
}

/// A prompt is killed before it is waited for exactly where the turn was cancelled while it was
/// started, and it is handed over as it is.
#[verifier::spinoff_prover]
pub proof fn law_prompts_are_handed_over(
    request: TurnRequest<'_>,
    bin: String,
    before: String,
    cancelled: bool,
    output: CommandOutput,
)
    requires
        request.target() is Ok,
        output.success,
    ensures
        turn_step(request, TurnProgress::Started { bin, before, started: Ok(cancelled) }) == (
        TurnStepView::Wait { kill: cancelled }),
        turn_step(
            request,
            TurnProgress::ReadBefore { bin, outcome: Outcome::Finished(output) },
        ) matches TurnStepView::Prompt { call, before: shown } && {
            &&& call.bin == bin@
            &&& call.args.len() == 13
            &&& call.args[2] == request.target()->Ok_0
            &&& call.args[3] == request.prompt@
            &&& shown == screen_text(output.stdout@)
        },
{
    let target = request.target()->Ok_0;
    let call = request.prompt_call(bin@, target);
    law_settings_of_a_turn(request, bin@, target);
    assert(read_outcome(Outcome::Finished(output)) == Ok::<Seq<char>, Seq<char>>(
        screen_text(output.stdout@),
    ));
    assert(turn_step(request, TurnProgress::ReadBefore { bin, outcome: Outcome::Finished(output) })
        == (TurnStepView::Prompt { call, before: screen_text(output.stdout@) }));
    assert(call.bin == bin@);
    assert(call.args.len() == 13);
    assert(call.args[2] == target);
    assert(call.args[3] == request.prompt@);
}

} // verus!
