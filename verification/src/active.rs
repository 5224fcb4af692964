//! Which agents have a prompt of ours under way.

use vstd::hash_map::StringHashMap;
use vstd::prelude::*;

verus! {

/// How many prompts are under way for `target`.
pub open spec fn prompts_for(counts: Map<Seq<char>, usize>, target: Seq<char>) -> int {
    if counts.contains_key(target) {
        counts[target] as int
    } else {
        0
    }
}

/// The counts after one more prompt for `target`.
pub open spec fn with_prompt(counts: Map<Seq<char>, usize>, target: Seq<char>) -> Map<
    Seq<char>,
    usize,
> {
    counts.insert(target, (prompts_for(counts, target) + 1) as usize)
}

/// The counts after one prompt for `target` has ended. An agent with no prompt left is dropped.
pub open spec fn without_prompt(counts: Map<Seq<char>, usize>, target: Seq<char>) -> Map<
    Seq<char>,
    usize,
> {
    if prompts_for(counts, target) > 1 {
        counts.insert(target, (prompts_for(counts, target) - 1) as usize)
    } else {
        counts.remove(target)
    }
}

/// Whether every agent that is counted has a prompt under way.
pub open spec fn counts_valid(counts: Map<Seq<char>, usize>) -> bool {
    forall|target: Seq<char>| #[trigger] counts.contains_key(target) ==> counts[target] > 0
}

/// The agents that have a prompt under way, and how many each has.
pub struct ActivePrompts {
    counts: StringHashMap<usize>,
}

impl View for ActivePrompts {
    type V = Map<Seq<char>, usize>;

    closed spec fn view(&self) -> Map<Seq<char>, usize> {
        self.counts@
    }
}

impl ActivePrompts {
    /// Whether every agent that is counted has a prompt under way.
    pub open spec fn valid(&self) -> bool {
        counts_valid(self@)
    }

    /// No prompt is under way.
    pub fn new() -> (prompts: ActivePrompts)
        ensures
            prompts@ == Map::<Seq<char>, usize>::empty(),
            prompts.valid(),
    {
        ActivePrompts { counts: StringHashMap::new() }
    }

    /// How many prompts are under way for `target`.
    pub fn count(&self, target: &str) -> (n: usize)
        ensures
            n == prompts_for(self@, target@),
    {
        match self.counts.get(target) {
            Some(n) => *n,
            None => 0,
        }
    }
}

/// Stands for one prompt that is under way. It is made where the prompt is counted, and gone where it
/// is counted as ended.
pub struct ActivePromptGuard {
    target: String,
}

impl View for ActivePromptGuard {
    type V = Seq<char>;

    closed spec fn view(&self) -> Seq<char> {
        self.target@
    }
}

impl ActivePromptGuard {
    /// Counts one more prompt for `target`.
    pub fn new(prompts: &mut ActivePrompts, target: &str) -> (guard: ActivePromptGuard)
        requires
            old(prompts).valid(),
            prompts_for(old(prompts)@, target@) < usize::MAX,
        ensures
            guard@ == target@,
            final(prompts).valid(),
            final(prompts)@ == with_prompt(old(prompts)@, target@),
    {
        let n: usize = prompts.count(target);
        prompts.counts.insert(target.to_owned(), n + 1);
        ActivePromptGuard { target: target.to_owned() }
    }

    /// Counts the prompt of the guard as ended.
    pub fn release(self, prompts: &mut ActivePrompts)
        requires
            old(prompts).valid(),
        ensures
            final(prompts).valid(),
            final(prompts)@ == without_prompt(old(prompts)@, self@),
    {
        let target = self.target.as_str();
        let n: usize = prompts.count(target);
        if n > 1 {
            prompts.counts.insert(target.to_owned(), n - 1);
        } else {
            prompts.counts.remove(target);
        }
    }
}

/// Whether a prompt of ours is under way for `target`.
pub fn is_cokacdir_prompt_active(prompts: &ActivePrompts, target: &str) -> (r: bool)
    ensures
        r == (prompts_for(prompts@, target@) > 0),
{
    prompts.count(target) > 0
}

/// A prompt that ends leaves the counts as they were before it began.
pub proof fn law_release_undoes_new(counts: Map<Seq<char>, usize>, target: Seq<char>)
    requires
        counts_valid(counts),
        prompts_for(counts, target) < usize::MAX,
    ensures
        without_prompt(with_prompt(counts, target), target) == counts,
{
    assert(without_prompt(with_prompt(counts, target), target) =~= counts);
}

/// An agent is active from the beginning of a prompt for it; no other agent is touched.
pub proof fn law_new_activates_one(
    counts: Map<Seq<char>, usize>,
    target: Seq<char>,
    other: Seq<char>,
)
    requires
        prompts_for(counts, target) < usize::MAX,
    ensures
        prompts_for(with_prompt(counts, target), target) > 0,
        other != target ==> prompts_for(with_prompt(counts, target), other) == prompts_for(
            counts,
            other,
        ),
{
}

/// An agent with two prompts under way is still active when one of them ends.
pub proof fn law_active_until_last_release(counts: Map<Seq<char>, usize>, target: Seq<char>)
    requires
        counts_valid(counts),
    ensures
        prompts_for(without_prompt(counts, target), target) > 0 <==> prompts_for(counts, target) > 1,
{
}

/// What can happen to a prompt of an agent.
pub enum PromptEvent {
    /// A guard was made for it.
    Begun(Seq<char>),
    /// Its guard was released.
    Ended(Seq<char>),
}

/// How many guards for `target` were made and not released in `history`.
pub open spec fn live_guards(history: Seq<PromptEvent>, target: Seq<char>) -> int
    decreases history.len(),
{
    if history.len() == 0 {
        0
    } else {
        live_guards(history.drop_last(), target) + match history.last() {
            PromptEvent::Begun(agent) => if agent == target {
                1int
            } else {
                0int
            },
            PromptEvent::Ended(agent) => if agent == target {
                -1int
            } else {
                0int
            },
        }
    }
}

/// The counts after `history`, from none.
pub open spec fn counts_from(history: Seq<PromptEvent>) -> Map<Seq<char>, usize>
    decreases history.len(),
{
    if history.len() == 0 {
        Map::empty()
    } else {
        match history.last() {
            PromptEvent::Begun(target) => with_prompt(counts_from(history.drop_last()), target),
            PromptEvent::Ended(target) => without_prompt(counts_from(history.drop_last()), target),
        }
    }
}

/// Whether `history` can be: no guard is released that was not made, and there are never more guards
/// for an agent than can be counted.
pub open spec fn possible_history(history: Seq<PromptEvent>) -> bool
    decreases history.len(),
{
    &&& forall|target: Seq<char>| 0 <= #[trigger] live_guards(history, target) <= usize::MAX
    &&& history.len() > 0 ==> possible_history(history.drop_last())
}

/// After any number of prompts that began and ended, the count of an agent is the number of its live
/// guards, so that it is active exactly while a guard for it lives.
pub proof fn law_active_while_a_guard_lives(history: Seq<PromptEvent>, target: Seq<char>)
    requires
        possible_history(history),
    ensures
        counts_valid(counts_from(history)),
        prompts_for(counts_from(history), target) == live_guards(history, target),
        prompts_for(counts_from(history), target) > 0 <==> live_guards(history, target) > 0,
    decreases history.len(),
{
    if history.len() > 0 {
        let agent = match history.last() {
            PromptEvent::Begun(agent) => agent,
            PromptEvent::Ended(agent) => agent,
        };
        law_active_while_a_guard_lives(history.drop_last(), target);
        law_active_while_a_guard_lives(history.drop_last(), agent);
        assert(0 <= live_guards(history, agent) <= usize::MAX);
    }
}

} // verus!
