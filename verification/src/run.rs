//! How a turn goes on from step to step, and how its prompt is counted meanwhile.

use crate::active::{
    counts_valid, law_release_undoes_new, prompts_for, with_prompt, without_prompt,
    ActivePromptGuard, ActivePrompts,
};
use crate::process::Outcome;
use crate::query::read_outcome;
use crate::session::{turn_step, TurnProgress, TurnRequest, TurnStep, TurnStepView};
use vstd::prelude::*;

verus! {

/// What came of a step of a turn.
pub enum TurnEvent {
    /// The program was looked for, and found at the path if there is one.
    Located(Option<String>),
    /// The terminal was read.
    Read(Outcome),
    /// The prompt was started. Tells whether the turn was cancelled meanwhile, or why the prompt could
    /// not be started.
    Started(Result<bool, String>),
    /// The prompt has ended. `cancelled` tells whether the turn was cancelled meanwhile.
    Ended { outcome: Outcome, cancelled: bool },
    /// The agent was interrupted.
    Interrupted,
    /// The answer was handed on, or could not be for the reason given.
    Published(Result<(), String>),
}

/// How far a turn has come when `event` came of `step`. The path stays the one that was found, and
/// the text before the prompt the one that was read first. `None` if nothing of the kind can come of
/// the step.
pub open spec fn progress_after(
    progress: TurnProgress,
    step: TurnStep,
    event: TurnEvent,
) -> Option<TurnProgress> {
    match (progress, step, event) {
        (TurnProgress::Start, TurnStep::Locate, TurnEvent::Located(found)) => Some(
            TurnProgress::Located(found),
        ),
        (
            TurnProgress::Located(Some(bin)),
            TurnStep::Begin { target, call },
            TurnEvent::Read(outcome),
        ) => Some(TurnProgress::ReadBefore { bin, outcome }),
        (
            TurnProgress::ReadBefore { bin, outcome },
            TurnStep::Prompt { call, before },
            TurnEvent::Started(started),
        ) => Some(TurnProgress::Started { bin, before, started }),
        (
            TurnProgress::Started { bin, before, started },
            TurnStep::Wait { kill },
            TurnEvent::Ended { outcome, cancelled },
        ) => Some(TurnProgress::Ended { bin, before, outcome, cancelled }),
        (
            TurnProgress::Ended { bin, before, outcome, cancelled },
            TurnStep::Interrupt(call),
            TurnEvent::Interrupted,
        ) => Some(TurnProgress::Interrupted),
        (
            TurnProgress::Ended { bin, before, outcome, cancelled },
            TurnStep::ReadAgain(call),
            TurnEvent::Read(shown),
        ) => Some(TurnProgress::ReadAfter { before, outcome: shown }),
        (
            TurnProgress::ReadAfter { before, outcome },
            TurnStep::Publish(answer),
            TurnEvent::Published(result),
        ) => Some(TurnProgress::Published(result)),
        _ => None,
    }
}

/// How far a turn has come when `event` came of `step`, or `None` if nothing of the kind can come of
/// the step.
pub fn next_progress(progress: TurnProgress, step: TurnStep, event: TurnEvent) -> (r: Option<
    TurnProgress,
>)
    ensures
        r == progress_after(progress, step, event),
{
    match (progress, step, event) {
        (TurnProgress::Start, TurnStep::Locate, TurnEvent::Located(found)) => Some(
            TurnProgress::Located(found),
        ),
        (
            TurnProgress::Located(Some(bin)),
            TurnStep::Begin { target: _, call: _ },
            TurnEvent::Read(outcome),
        ) => Some(TurnProgress::ReadBefore { bin, outcome }),
        (
            TurnProgress::ReadBefore { bin, outcome: _ },
            TurnStep::Prompt { call: _, before },
            TurnEvent::Started(started),
        ) => Some(TurnProgress::Started { bin, before, started }),
        (
            TurnProgress::Started { bin, before, started: _ },
            TurnStep::Wait { kill: _ },
            TurnEvent::Ended { outcome, cancelled },
        ) => Some(TurnProgress::Ended { bin, before, outcome, cancelled }),
        (
            TurnProgress::Ended { bin: _, before: _, outcome: _, cancelled: _ },
            TurnStep::Interrupt(_),
            TurnEvent::Interrupted,
        ) => Some(TurnProgress::Interrupted),
        (
            TurnProgress::Ended { bin: _, before, outcome: _, cancelled: _ },
            TurnStep::ReadAgain(_),
            TurnEvent::Read(outcome),
        ) => Some(TurnProgress::ReadAfter { before, outcome }),
        (
            TurnProgress::ReadAfter { before: _, outcome: _ },
            TurnStep::Publish(_),
            TurnEvent::Published(result),
        ) => Some(TurnProgress::Published(result)),
        _ => None,
    }
}

/// The agent that a guard counts a prompt for.
pub open spec fn held_target(held: Option<ActivePromptGuard>) -> Option<Seq<char>> {
    match held {
        Some(guard) => Some(guard@),
        None => None,
    }
}

/// The agent that a turn counts a prompt for from `step` on: from its beginning until it is done.
pub open spec fn held_after(held: Option<Seq<char>>, step: TurnStepView) -> Option<Seq<char>> {
    match (step, held) {
        (TurnStepView::Begin { target, call }, None) => Some(target),
        (TurnStepView::Done(_), _) => None,
        _ => held,
    }
}

/// The counts from `step` of a turn on, which counts a prompt for the agent `held`.
pub open spec fn counts_after(
    counts: Map<Seq<char>, usize>,
    held: Option<Seq<char>>,
    step: TurnStepView,
) -> Map<Seq<char>, usize> {
    match (step, held) {
        (TurnStepView::Begin { target, call }, None) => with_prompt(counts, target),
        (TurnStepView::Done(_), Some(target)) => without_prompt(counts, target),
        _ => counts,
    }
}

/// Counts the prompt of a turn as `step` asks for it. To be called before the step is done, with
/// what the call for the step before gave back.
pub fn hold_prompt(
    prompts: &mut ActivePrompts,
    held: Option<ActivePromptGuard>,
    step: &TurnStep,
) -> (r: Option<ActivePromptGuard>)
    requires
        old(prompts).valid(),
        held is None ==> (step@ matches TurnStepView::Begin { target, call } ==> prompts_for(
            old(prompts)@,
            target,
        ) < usize::MAX),
    ensures
        final(prompts).valid(),
        final(prompts)@ == counts_after(old(prompts)@, held_target(held), step@),
        held_target(r) == held_after(held_target(held), step@),
{
    match step {
        TurnStep::Begin { target, call: _ } => match held {
            Some(guard) => Some(guard),
            None => Some(ActivePromptGuard::new(prompts, target.as_str())),
        },
        TurnStep::Done(_) => {
            if let Some(guard) = held {
                guard.release(prompts);
            }
            None
        },
        _ => held,
    }
}

/// Whether a turn that has come as far as `from` can go on to `to` with its next step.
pub open spec fn goes_on(
    request: TurnRequest<'_>,
    from: TurnProgress,
    to: TurnProgress,
) -> bool {
    exists|step: TurnStep, event: TurnEvent|
        step@ == turn_step(request, from) && #[trigger] progress_after(from, step, event) == Some(
            to,
        )
}

/// Whether `run` is what a turn comes to, one step after the other, from its start.
pub open spec fn is_run(request: TurnRequest<'_>, run: Seq<TurnProgress>) -> bool {
    &&& run.len() > 0
    &&& run[0] == TurnProgress::Start
    &&& forall|i: int, j: int| #![trigger run[i], run[j]]
        0 <= i && j == i + 1 && j < run.len() ==> goes_on(request, run[i], run[j])
}

/// What comes of the next step of a run makes the run longer by one, so that whoever takes the steps
/// that are given and hands back what came of them makes a run.
pub proof fn law_steps_make_a_run(
    request: TurnRequest<'_>,
    run: Seq<TurnProgress>,
    step: TurnStep,
    event: TurnEvent,
    next: TurnProgress,
)
    requires
        is_run(request, run),
        step@ == turn_step(request, run.last()),
        progress_after(run.last(), step, event) == Some(next),
    ensures
        is_run(request, run.push(next)),
{
    let longer = run.push(next);
    assert forall|i: int, j: int| #![trigger longer[i], longer[j]]
        0 <= i && j == i + 1 && j < longer.len() implies goes_on(
        request,
        longer[i],
        longer[j],
    ) by {
        if j < run.len() {
            assert(longer[i] == run[i] && longer[j] == run[j]);
        } else {
            assert(longer[i] == run.last() && longer[j] == next);
        }
    }
}

/// How many steps lead to `progress`.
pub open spec fn steps_to(progress: TurnProgress) -> int {
    match progress {
        TurnProgress::Start => 0,
        TurnProgress::Located(_) => 1,
        TurnProgress::ReadBefore { .. } => 2,
        TurnProgress::Started { .. } => 3,
        TurnProgress::Ended { .. } => 4,
        TurnProgress::Interrupted => 5,
        TurnProgress::ReadAfter { .. } => 5,
        TurnProgress::Published(_) => 6,
    }
}

/// The path of the program that `progress` carries.
pub open spec fn carried_path(progress: TurnProgress) -> Option<String> {
    match progress {
        TurnProgress::Located(found) => found,
        TurnProgress::ReadBefore { bin, .. } => Some(bin),
        TurnProgress::Started { bin, .. } => Some(bin),
        TurnProgress::Ended { bin, .. } => Some(bin),
        _ => None,
    }
}

/// What the terminal showed before the prompt, as far as `progress` carries it.
pub open spec fn carried_text(progress: TurnProgress) -> Option<String> {
    match progress {
        TurnProgress::Started { before, .. } => Some(before),
        TurnProgress::Ended { before, .. } => Some(before),
        TurnProgress::ReadAfter { before, .. } => Some(before),
        _ => None,
    }
}

/// What one step keeps.
proof fn lemma_goes_on(request: TurnRequest<'_>, from: TurnProgress, to: TurnProgress)
    requires
        goes_on(request, from, to),
    ensures
        steps_to(to) == steps_to(from) + 1,
        !(turn_step(request, from) is Done),
        steps_to(to) >= 2 && carried_path(to) is Some ==> carried_path(from) == carried_path(to),
        carried_text(to) is Some && !(from is ReadBefore) ==> carried_text(from) == carried_text(to),
        from matches TurnProgress::ReadBefore { bin, outcome } ==> (carried_text(to) matches Some(
            before,
        ) && read_outcome(outcome) == Ok::<Seq<char>, Seq<char>>(before@)),
{
    let (step, event) = choose|step: TurnStep, event: TurnEvent|
        step@ == turn_step(request, from) && #[trigger] progress_after(from, step, event) == Some(
            to,
        );
    assert(progress_after(from, step, event) == Some(to));
}

/// A turn comes one step further with each step, and is done after seven at the latest. The path of
/// the program stays the one that was found, and the text before the prompt is what was read first.
pub proof fn law_turn_keeps_what_it_found(
    request: TurnRequest<'_>,
    run: Seq<TurnProgress>,
    at: int,
)
    requires
        is_run(request, run),
        0 <= at < run.len(),
    ensures
        run.len() <= 7,
        steps_to(run[at]) == at,
        at < run.len() - 1 ==> !(turn_step(request, run[at]) is Done),
        at == 6 || run[at] is Interrupted ==> turn_step(request, run[at]) is Done,
        carried_path(run[at]) matches Some(bin) ==> run[1] == TurnProgress::Located(Some(bin)),
        carried_text(run[at]) matches Some(before) ==> (run[2] matches TurnProgress::ReadBefore {
            bin,
            outcome,
        } && read_outcome(outcome) == Ok::<Seq<char>, Seq<char>>(before@)),
{
    lemma_run(request, run, at);
    lemma_run(request, run, run.len() - 1);
    if at < run.len() - 1 {
        lemma_goes_on(request, run[at], run[at + 1]);
    }
}

proof fn lemma_run(request: TurnRequest<'_>, run: Seq<TurnProgress>, at: int)
    requires
        is_run(request, run),
        0 <= at < run.len(),
    ensures
        steps_to(run[at]) == at,
        carried_path(run[at]) matches Some(bin) ==> run[1] == TurnProgress::Located(Some(bin)),
        carried_text(run[at]) matches Some(before) ==> (run[2] matches TurnProgress::ReadBefore {
            bin,
            outcome,
        } && read_outcome(outcome) == Ok::<Seq<char>, Seq<char>>(before@)),
    decreases at,
{
    if at > 0 {
        lemma_run(request, run, at - 1);
        assert(goes_on(request, run[at - 1], run[at]));
        lemma_goes_on(request, run[at - 1], run[at]);
    }
}

/// The agent that a turn counts a prompt for once `count` of its steps were begun.
pub open spec fn held_in_run(
    request: TurnRequest<'_>,
    run: Seq<TurnProgress>,
    count: int,
) -> Option<Seq<char>>
    decreases count,
{
    if count <= 0 {
        None
    } else {
        held_after(held_in_run(request, run, count - 1), turn_step(request, run[count - 1]))
    }
}

/// The counts once `count` of the steps of a turn were begun, from `counts` before it.
pub open spec fn counts_in_run(
    request: TurnRequest<'_>,
    run: Seq<TurnProgress>,
    counts: Map<Seq<char>, usize>,
    count: int,
) -> Map<Seq<char>, usize>
    decreases count,
{
    if count <= 0 {
        counts
    } else {
        counts_after(
            counts_in_run(request, run, counts, count - 1),
            held_in_run(request, run, count - 1),
            turn_step(request, run[count - 1]),
        )
    }
}

/// Whether the prompt of a turn is counted while it does `step`: from the first reading on, until it
/// is done.
pub open spec fn counted_during(step: TurnStepView) -> bool {
    !(step is Locate) && !(step is Done)
}

/// A turn counts exactly one prompt for its agent, from the first reading of the terminal until it is
/// done. When it is done, with success, with a failure or cancelled, every count is what it was
/// before the turn. The counts of other agents never change.
pub proof fn law_turn_counts_one_prompt(
    request: TurnRequest<'_>,
    run: Seq<TurnProgress>,
    counts: Map<Seq<char>, usize>,
    count: int,
    other: Seq<char>,
)
    requires
        is_run(request, run),
        1 <= count <= run.len(),
        counts_valid(counts),
        request.target() matches Ok(target) ==> prompts_for(counts, target) < usize::MAX,
    ensures
        ({
            let step = turn_step(request, run[count - 1]);
            let now = counts_in_run(request, run, counts, count);
            &&& step is Done ==> now == counts && held_in_run(request, run, count) is None
            &&& !counted_during(step) ==> now == counts
            &&& counted_during(step) ==> {
                &&& request.target() matches Ok(target)
                &&& now == with_prompt(counts, target)
                &&& prompts_for(now, target) == prompts_for(counts, target) + 1
                &&& held_in_run(request, run, count) == Some(target)
            }
            &&& request.target() != Ok::<Seq<char>, Seq<char>>(other) ==> prompts_for(now, other)
                == prompts_for(counts, other)
        }),
{
    lemma_counted(request, run, counts, count);
    if let Ok(target) = request.target() {
        assert(prompts_for(with_prompt(counts, target), target) == prompts_for(counts, target) + 1);
        if other != target {
            assert(prompts_for(with_prompt(counts, target), other) == prompts_for(counts, other));
        }
    }
}

/// Which step follows how far a turn has come.
proof fn lemma_step_kind(request: TurnRequest<'_>, progress: TurnProgress)
    ensures
        turn_step(request, progress) is Locate <==> steps_to(progress) == 0,
        steps_to(progress) == 1 ==> turn_step(request, progress) is Begin || turn_step(
            request,
            progress,
        ) is Done,
        turn_step(request, progress) matches TurnStepView::Begin { target, call } ==> steps_to(
            progress,
        ) == 1 && request.target() == Ok::<Seq<char>, Seq<char>>(target),
        counted_during(turn_step(request, progress)) ==> request.target() is Ok,
{
}

/// Whether a turn that does `step` counts as it should: nothing before it begins and once it is done,
/// one prompt for its agent otherwise.
spec fn counts_as_it_should(
    target: Result<Seq<char>, Seq<char>>,
    counts: Map<Seq<char>, usize>,
    step: TurnStepView,
    now: Map<Seq<char>, usize>,
    held: Option<Seq<char>>,
) -> bool {
    if counted_during(step) {
        target is Ok && now == with_prompt(counts, target->Ok_0) && held == Some(target->Ok_0)
    } else {
        now == counts && held is None
    }
}

/// A step that begins a prompt, goes on with it or ends it keeps the counts as they should be.
proof fn lemma_step_counts(
    target: Result<Seq<char>, Seq<char>>,
    counts: Map<Seq<char>, usize>,
    last: TurnStepView,
    now: Map<Seq<char>, usize>,
    held: Option<Seq<char>>,
    step: TurnStepView,
)
    requires
        counts_valid(counts),
        target is Ok ==> prompts_for(counts, target->Ok_0) < usize::MAX,
        counts_as_it_should(target, counts, last, now, held),
        !(last is Done),
        !(step is Locate),
        last is Locate ==> step is Begin || step is Done,
        step matches TurnStepView::Begin { target: begun, call } ==> last is Locate && target
            == Ok::<Seq<char>, Seq<char>>(begun),
    ensures
        counts_as_it_should(
            target,
            counts,
            step,
            counts_after(now, held, step),
            held_after(held, step),
        ),
{
    if step is Done && counted_during(last) {
        law_release_undoes_new(counts, target->Ok_0);
    }
}

proof fn lemma_counted(
    request: TurnRequest<'_>,
    run: Seq<TurnProgress>,
    counts: Map<Seq<char>, usize>,
    count: int,
)
    requires
        is_run(request, run),
        1 <= count <= run.len(),
        counts_valid(counts),
        request.target() matches Ok(target) ==> prompts_for(counts, target) < usize::MAX,
    ensures
        counts_as_it_should(
            request.target(),
            counts,
            turn_step(request, run[count - 1]),
            counts_in_run(request, run, counts, count),
            held_in_run(request, run, count),
        ),
    decreases count,
{
    let step = turn_step(request, run[count - 1]);
    lemma_run(request, run, count - 1);
    lemma_step_kind(request, run[count - 1]);
    reveal_with_fuel(held_in_run, 2);
    reveal_with_fuel(counts_in_run, 2);
    if count > 1 {
        let last = turn_step(request, run[count - 2]);
        lemma_counted(request, run, counts, count - 1);
        lemma_run(request, run, count - 2);
        lemma_step_kind(request, run[count - 2]);
        assert(goes_on(request, run[count - 2], run[count - 1]));
        lemma_goes_on(request, run[count - 2], run[count - 1]);
        lemma_step_counts(
            request.target(),
            counts,
            last,
            counts_in_run(request, run, counts, count - 1),
            held_in_run(request, run, count - 1),
            step,
        );
    }
}

} // verus!
