//! What the replies of Herdr say.

use crate::json::{json_document, json_text, read_reply, status_in, tree_member, JsonTree, Reply};
use crate::text::{optional_view, result_view};
use vstd::prelude::*;

verus! {

/// The status of an agent, from a reply that tells it or reports an error.
pub open spec fn reply_status(
    has_error: bool,
    text: Seq<char>,
    status: Option<Seq<char>>,
) -> Result<Seq<char>, Seq<char>> {
    if has_error {
        Err("Herdr agent get failed: "@ + text)
    } else {
        match status {
            Some(name) => Ok(name),
            None => Err("Herdr agent status is missing from the response."@),
        }
    }
}

/// The status of an agent, from a reply that tells it or reports an error.
pub fn status_from_reply(reply: &Reply) -> (r: Result<String, String>)
    ensures
        result_view(r) == reply_status(
            reply.has_error,
            reply.text@,
            optional_view(reply.agent_status),
        ),
{
    if reply.has_error {
        let mut message = "Herdr agent get failed: ".to_owned();
        message.append(reply.text.as_str());
        return Err(message);
    }
    match &reply.agent_status {
        Some(status) => Ok(status.clone()),
        None => Err("Herdr agent status is missing from the response.".to_owned()),
    }
}

/// The status of an agent, from what `agent get` wrote.
pub open spec fn status_in_document(document: Result<JsonTree, Seq<char>>) -> Result<
    Seq<char>,
    Seq<char>,
> {
    match document {
        Ok(tree) => reply_status(
            tree_member(tree, "error"@) is Some,
            json_text(tree),
            status_in(tree),
        ),
        Err(message) => Err("Herdr returned invalid agent JSON: "@ + message),
    }
}

/// The status of an agent, from what `agent get` wrote.
pub fn parse_agent_status(output: &[u8]) -> (r: Result<String, String>)
    ensures
        result_view(r) == status_in_document(json_document(output@)),
{
    match read_reply(output) {
        Ok(reply) => status_from_reply(&reply),
        Err(error) => {
            let mut message = "Herdr returned invalid agent JSON: ".to_owned();
            message.append(error.as_str());
            Err(message)
        },
    }
}

/// What is wrong with a prompt, from a reply that reports an error or none.
pub open spec fn reply_refusal(has_error: bool, text: Seq<char>) -> Option<Seq<char>> {
    if has_error {
        Some("Herdr agent prompt failed: "@ + text)
    } else {
        None
    }
}

/// What is wrong with a prompt, from a reply that reports an error or none.
pub fn refusal_from_reply(reply: &Reply) -> (r: Option<String>)
    ensures
        optional_view(r) == reply_refusal(reply.has_error, reply.text@),
{
    if reply.has_error {
        let mut message = "Herdr agent prompt failed: ".to_owned();
        message.append(reply.text.as_str());
        Some(message)
    } else {
        None
    }
}

/// What is wrong with a prompt, from what `agent prompt` wrote.
pub open spec fn refusal_in_document(document: Result<JsonTree, Seq<char>>) -> Option<Seq<char>> {
    match document {
        Ok(tree) => reply_refusal(tree_member(tree, "error"@) is Some, json_text(tree)),
        Err(message) => Some("Herdr returned invalid prompt JSON: "@ + message),
    }
}

/// What is wrong with a prompt, from what `agent prompt` wrote.
pub fn prompt_refusal(output: &[u8]) -> (r: Option<String>)
    ensures
        optional_view(r) == refusal_in_document(json_document(output@)),
{
    match read_reply(output) {
        Ok(reply) => refusal_from_reply(&reply),
        Err(error) => {
            let mut message = "Herdr returned invalid prompt JSON: ".to_owned();
            message.append(error.as_str());
            Some(message)
        },
    }
}

} // verus!
