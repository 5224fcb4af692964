//! What a run of the Herdr command line gives back.

use crate::lines::{remove_chars, without_chars};
use crate::number::{signed_decimal, signed_decimal_text};
use crate::text::{has_prefix, trim, trimmed, CharSet};
use vstd::prelude::*;
use vstd::utf8::{decode_utf8, valid_utf8};

verus! {

/// What a command left behind when it ended.
pub struct CommandOutput {
    /// Whether the command succeeded.
    pub success: bool,
    /// The exit code, if the command ended with one.
    pub code: Option<i32>,
    /// What it wrote to its standard output.
    pub stdout: Vec<u8>,
    /// What it wrote to its standard error output.
    pub stderr: Vec<u8>,
}

/// What came of running a command.
pub enum Outcome {
    /// It ran, and ended.
    Finished(CommandOutput),
    /// It could not be run, for the reason given.
    NotRun(String),
}

/// The text that `String::from_utf8_lossy` makes of bytes.
pub uninterp spec fn lossy_text(bytes: Seq<u8>) -> Seq<char>;

/// `String::from_utf8_lossy` of the standard library: the text that the bytes encode, in which
/// U+FFFD stands for what is not valid UTF-8. Valid UTF-8 is decoded as it is; how many
/// replacement characters stand for an invalid stretch is left to the name.
#[verifier::external_body]
pub(crate) fn from_utf8_lossy(bytes: &[u8]) -> (r: String)
    ensures
        r@ == lossy_text(bytes@),
        valid_utf8(bytes@) ==> r@ == decode_utf8(bytes@),
{
    String::from_utf8_lossy(bytes).into_owned()
}

/// What a command wrote, without carriage returns.
pub open spec fn screen_text(bytes: Seq<u8>) -> Seq<char> {
    without_chars(lossy_text(bytes), CharSet::Only('\r'))
}

/// What a command wrote, without carriage returns.
pub fn read_screen_text(bytes: &[u8]) -> (r: String)
    ensures
        r@ == screen_text(bytes@),
        valid_utf8(bytes@) ==> r@ == without_chars(decode_utf8(bytes@), CharSet::Only('\r')),
{
    let text = from_utf8_lossy(bytes);
    remove_chars(text.as_str(), CharSet::Only('\r'))
}

/// The exit code as text, `unknown` if there is none.
pub open spec fn code_text(code: Option<i32>) -> Seq<char> {
    match code {
        Some(n) => signed_decimal(n as int),
        None => "unknown"@,
    }
}

/// How a failure of `action` is reported: with what the command wrote to its error output, else to
/// its output, else with its exit code.
pub open spec fn failure_message(
    action: Seq<char>,
    code: Option<i32>,
    stderr: Seq<char>,
    stdout: Seq<char>,
) -> Seq<char> {
    let detail = if trimmed(stderr).len() > 0 {
        trimmed(stderr)
    } else {
        trimmed(stdout)
    };
    if detail.len() == 0 {
        "Herdr "@ + action + " failed with exit code "@ + code_text(code) + "."@
    } else {
        "Herdr "@ + action + " failed: "@ + detail
    }
}

/// How a failure of `action` is reported.
pub fn failure_text(action: &str, code: Option<i32>, stderr: &str, stdout: &str) -> (r: String)
    ensures
        r@ == failure_message(action@, code, stderr@, stdout@),
{
    let stderr = trim(stderr);
    let stdout = trim(stdout);
    let detail = if !stderr.is_empty() {
        stderr
    } else {
        stdout
    };
    let mut message = "Herdr ".to_owned();
    message.append(action);
    if detail.is_empty() {
        message.append(" failed with exit code ");
        match code {
            Some(n) => {
                let number = signed_decimal_text(n);
                message.append(number.as_str());
            },
            None => {
                message.append("unknown");
            },
        }
        message.append(".");
    } else {
        message.append(" failed: ");
        message.append(detail);
    }
    message
}

/// How a failed command is reported.
pub open spec fn output_failure(action: Seq<char>, output: CommandOutput) -> Seq<char> {
    failure_message(
        action,
        output.code,
        lossy_text(output.stderr@),
        lossy_text(output.stdout@),
    )
}

/// How a failed command is reported.
pub fn output_error(action: &str, output: &CommandOutput) -> (r: String)
    ensures
        r@ == output_failure(action@, *output),
{
    let stderr = from_utf8_lossy(output.stderr.as_slice());
    let stdout = from_utf8_lossy(output.stdout.as_slice());
    failure_text(action, output.code, stderr.as_str(), stdout.as_str())
}

/// A failure is always reported as one of Herdr, and names the action that failed.
pub proof fn law_failure_names_action(
    action: Seq<char>,
    code: Option<i32>,
    stderr: Seq<char>,
    stdout: Seq<char>,
)
    ensures
        has_prefix(
            failure_message(action, code, stderr, stdout),
            "Herdr "@ + action + " failed"@,
        ),
{
    reveal_strlit(" failed");
    reveal_strlit(" failed: ");
    reveal_strlit(" failed with exit code ");
    let start = "Herdr "@ + action + " failed"@;
    let message = failure_message(action, code, stderr, stdout);
    assert(message.take(start.len() as int) =~= start);
}

proof fn lemma_no_such_char(t: Seq<char>, set: CharSet)
    ensures
        forall|i: int| 0 <= i < without_chars(t, set).len() ==> !set.contains(
            #[trigger] without_chars(t, set)[i],
        ),
    decreases t.len(),
{
    if t.len() > 0 {
        let before = without_chars(t.drop_last(), set);
        let now = without_chars(t, set);
        lemma_no_such_char(t.drop_last(), set);
        assert forall|i: int| 0 <= i < now.len() implies !set.contains(#[trigger] now[i]) by {
            if i < before.len() {
                assert(now[i] == before[i]);
            }
        }
    }
}

/// No carriage return is left in what a command wrote.
pub proof fn law_screens_hold_no_return(bytes: Seq<u8>)
    ensures
        !screen_text(bytes).contains('\r'),
{
    lemma_no_such_char(lossy_text(bytes), CharSet::Only('\r'));
}

} // verus!
