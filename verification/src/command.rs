//! The Herdr command lines.

use crate::number::{decimal, decimal_text};
use vstd::prelude::*;

verus! {

/// A command to run.
pub struct Invocation {
    /// The program.
    pub bin: String,
    /// Its arguments.
    pub args: Vec<String>,
}

/// The characters of a command to run.
pub struct InvocationView {
    pub bin: Seq<char>,
    pub args: Seq<Seq<char>>,
}

impl View for Invocation {
    type V = InvocationView;

    open spec fn view(&self) -> InvocationView {
        InvocationView { bin: self.bin@, args: self.args.deep_view() }
    }
}

/// A command from its parts.
fn invocation(bin: &str, args: &[&str]) -> (r: Invocation)
    ensures
        r@ == (InvocationView { bin: bin@, args: args.deep_view() }),
{
    let mut all: Vec<String> = Vec::new();
    let mut i: usize = 0;
    while i < args.len()
        invariant
            i <= args@.len(),
            all.deep_view() == args.deep_view().take(i as int),
        decreases args@.len() - i,
    {
        let ghost before = all.deep_view();
        all.push(args[i].to_owned());
        proof {
            assert(all.deep_view() =~= before.push(args@[i as int]@));
            assert(args.deep_view().take(i + 1) =~= before.push(args@[i as int]@));
        }
        i = i + 1;
    }
    assert(args.deep_view().take(i as int) =~= args.deep_view());
    Invocation { bin: bin.to_owned(), args: all }
}

/// The command that tells about the agent `target`.
pub open spec fn get_command(bin: Seq<char>, target: Seq<char>) -> InvocationView {
    InvocationView { bin, args: seq!["agent"@, "get"@, target] }
}

/// The command that tells about the agent `target`.
pub fn agent_get(bin: &str, target: &str) -> (r: Invocation)
    ensures
        r@ == get_command(bin@, target@),
{
    let args = ["agent", "get", target];
    let r = invocation(bin, args.as_slice());
    assert(r@.args =~= seq!["agent"@, "get"@, target@]);
    r
}

/// The command that reads `lines` lines of the terminal of the agent `target`.
pub open spec fn read_command(
    bin: Seq<char>,
    target: Seq<char>,
    source: Seq<char>,
    lines: u32,
) -> InvocationView {
    InvocationView {
        bin,
        args: seq![
            "agent"@,
            "read"@,
            target,
            "--source"@,
            source,
            "--lines"@,
            decimal(lines as nat),
            "--format"@,
            "text"@,
        ],
    }
}

/// The command that reads `lines` lines of the terminal of the agent `target`.
pub fn agent_read(bin: &str, target: &str, source: &str, lines: u32) -> (r: Invocation)
    ensures
        r@ == read_command(bin@, target@, source@, lines),
{
    let count = decimal_text(lines as u64);
    let args = [
        "agent",
        "read",
        target,
        "--source",
        source,
        "--lines",
        count.as_str(),
        "--format",
        "text",
    ];
    let r = invocation(bin, args.as_slice());
    assert(r@.args =~= read_command(bin@, target@, source@, lines).args);
    r
}

/// The command that hands `prompt` to the agent `target` and waits until it settles, or for
/// `timeout_ms` milliseconds.
pub open spec fn prompt_command(
    bin: Seq<char>,
    target: Seq<char>,
    prompt: Seq<char>,
    timeout_ms: u64,
) -> InvocationView {
    InvocationView {
        bin,
        args: seq![
            "agent"@,
            "prompt"@,
            target,
            prompt,
            "--wait"@,
            "--until"@,
            "idle"@,
            "--until"@,
            "done"@,
            "--until"@,
            "blocked"@,
            "--timeout"@,
            decimal(timeout_ms as nat),
        ],
    }
}

/// The command that hands `prompt` to the agent `target` and waits until it settles.
pub fn agent_prompt(bin: &str, target: &str, prompt: &str, timeout_ms: u64) -> (r: Invocation)
    ensures
        r@ == prompt_command(bin@, target@, prompt@, timeout_ms),
{
    let timeout = decimal_text(timeout_ms);
    let args = [
        "agent",
        "prompt",
        target,
        prompt,
        "--wait",
        "--until",
        "idle",
        "--until",
        "done",
        "--until",
        "blocked",
        "--timeout",
        timeout.as_str(),
    ];
    let r = invocation(bin, args.as_slice());
    assert(r@.args =~= prompt_command(bin@, target@, prompt@, timeout_ms).args);
    r
}

/// The command that interrupts the agent `target`.
pub open spec fn interrupt_command(bin: Seq<char>, target: Seq<char>) -> InvocationView {
    InvocationView { bin, args: seq!["agent"@, "send-keys"@, target, "ctrl+c"@] }
}

/// The command that interrupts the agent `target`.
pub fn interrupt_agent(bin: &str, target: &str) -> (r: Invocation)
    ensures
        r@ == interrupt_command(bin@, target@),
{
    let args = ["agent", "send-keys", target, "ctrl+c"];
    let r = invocation(bin, args.as_slice());
    assert(r@.args =~= seq!["agent"@, "send-keys"@, target@, "ctrl+c"@]);
    r
}

} // verus!
