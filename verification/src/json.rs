//! The JSON replies of Herdr.

use crate::chars::is_digit;
use serde_json::{Error, Value};
use vstd::prelude::*;

verus! {

/// `serde_json::Value`, a JSON document.
#[verifier::external_type_specification]
#[verifier::external_body]
pub struct ExValue(Value);

/// `serde_json::Error`, why a text is no JSON document.
#[verifier::external_type_specification]
#[verifier::external_body]
pub struct ExError(Error);

/// What a JSON document holds.
pub enum JsonTree {
    Null,
    Bool(bool),
    /// A number, as JSON writes it.
    Number(Seq<char>),
    Text(Seq<char>),
    Array(Seq<JsonTree>),
    Object(Map<Seq<char>, JsonTree>),
}

/// What `value` holds.
pub uninterp spec fn json_tree(value: Value) -> JsonTree;

/// The document that `serde_json::from_slice` reads from bytes, or why it reads none.
pub uninterp spec fn json_document(bytes: Seq<u8>) -> Result<JsonTree, Seq<char>>;

/// The text that the `Display` of a `serde_json::Error` writes.
pub uninterp spec fn json_error_text(error: Error) -> Seq<char>;

/// The text that the `Display` of a `serde_json::Value` writes for what the value holds.
pub uninterp spec fn json_text(tree: JsonTree) -> Seq<char>;

/// `serde_json::from_slice` for a `serde_json::Value`: the document that the bytes hold, or an
/// error. What it holds, or the text of the error, depends on the bytes alone.
#[verifier::external_body]
fn from_slice(bytes: &[u8]) -> (r: Result<Value, Error>)
    ensures
        match r {
            Ok(value) => json_document(bytes@) == Ok::<JsonTree, Seq<char>>(json_tree(value)),
            Err(error) => json_document(bytes@) == Err::<JsonTree, Seq<char>>(
                json_error_text(error),
            ),
        },
{
    serde_json::from_slice(bytes)
}

/// `to_string` on a `serde_json::Error`: the text of its `Display`.
#[verifier::external_body]
fn error_to_string(error: &Error) -> (r: String)
    ensures
        r@ == json_error_text(*error),
{
    error.to_string()
}

/// `to_string` on a `serde_json::Value`: the text of its `Display`, compact JSON, which depends on
/// what the value holds alone. The members of an object are written in the order of their names.
#[verifier::external_body]
fn value_to_string(value: &Value) -> (r: String)
    ensures
        r@ == json_text(json_tree(*value)),
{
    value.to_string()
}

/// The member `key` of an object.
pub open spec fn tree_member(tree: JsonTree, key: Seq<char>) -> Option<JsonTree> {
    match tree {
        JsonTree::Object(members) => if members.contains_key(key) {
            Some(members[key])
        } else {
            None
        },
        _ => None,
    }
}

/// `serde_json::Value::get` with a string: the member of that name if the value is an object that
/// has one, else `None`.
#[verifier::external_body]
fn value_get<'a>(value: &'a Value, key: &str) -> (r: Option<&'a Value>)
    ensures
        match r {
            Some(member) => tree_member(json_tree(*value), key@) == Some(json_tree(*member)),
            None => tree_member(json_tree(*value), key@) is None,
        },
{
    value.get(key)
}

/// The value to which the members named `steps` lead, one inside the other.
pub open spec fn tree_at(tree: JsonTree, steps: Seq<Seq<char>>) -> Option<JsonTree>
    decreases steps.len(),
{
    if steps.len() == 0 {
        Some(tree)
    } else {
        match tree_member(tree, steps[0]) {
            Some(member) => tree_at(member, steps.drop_first()),
            None => None,
        }
    }
}

/// The JSON Pointer that leads through the members named `steps`.
pub open spec fn pointer_text(steps: Seq<Seq<char>>) -> Seq<char>
    decreases steps.len(),
{
    if steps.len() == 0 {
        seq![]
    } else {
        seq!['/'] + steps[0] + pointer_text(steps.drop_first())
    }
}

/// Whether a JSON Pointer writes the name `step` as it is, and it can be no index of an array.
pub open spec fn plain_step(step: Seq<char>) -> bool {
    &&& !step.contains('/')
    &&& !step.contains('~')
    &&& step.len() > 0 ==> !is_digit(step[0])
}

/// `serde_json::Value::pointer`: the value that a JSON Pointer leads to. Stated for the pointers
/// that only name members, without an escape and without a step that could be an index; such a
/// pointer leads from object to object, and nowhere else.
#[verifier::external_body]
fn value_pointer<'a>(value: &'a Value, pointer: &str) -> (r: Option<&'a Value>)
    ensures
        forall|steps: Seq<Seq<char>>|
            pointer@ == #[trigger] pointer_text(steps) && (forall|i: int|
                0 <= i < steps.len() ==> plain_step(#[trigger] steps[i])) ==> match r {
                Some(found) => tree_at(json_tree(*value), steps) == Some(json_tree(*found)),
                None => tree_at(json_tree(*value), steps) is None,
            },
{
    value.pointer(pointer)
}

/// The characters of a JSON string.
pub open spec fn tree_text(tree: JsonTree) -> Option<Seq<char>> {
    match tree {
        JsonTree::Text(text) => Some(text),
        _ => None,
    }
}

/// `serde_json::Value::as_str`: the characters of the value if it is a string, else `None`.
#[verifier::external_body]
fn value_as_str<'a>(value: &'a Value) -> (r: Option<&'a str>)
    ensures
        match r {
            Some(text) => tree_text(json_tree(*value)) == Some(text@),
            None => tree_text(json_tree(*value)) is None,
        },
{
    value.as_str()
}

/// What is read of a reply of Herdr.
pub struct Reply {
    /// Whether the reply reports an error.
    pub has_error: bool,
    /// The whole reply, as compact JSON.
    pub text: String,
    /// The status of the agent, if the reply tells one.
    pub agent_status: Option<String>,
}

/// What is read of a reply that holds `tree`.
pub open spec fn reply_holds(reply: Reply, tree: JsonTree) -> bool {
    &&& reply.has_error == (tree_member(tree, "error"@) is Some)
    &&& reply.text@ == json_text(tree)
    &&& match reply.agent_status {
        Some(status) => status_in(tree) == Some(status@),
        None => status_in(tree) is None,
    }
}

/// The string `agent_status` in the member `agent` of the member `result`.
pub open spec fn status_in(tree: JsonTree) -> Option<Seq<char>> {
    match tree_at(tree, seq!["result"@, "agent"@, "agent_status"@]) {
        Some(status) => tree_text(status),
        None => None,
    }
}

/// Reads a reply, or tells why it is no JSON document.
pub fn read_reply(bytes: &[u8]) -> (r: Result<Reply, String>)
    ensures
        match r {
            Ok(reply) => json_document(bytes@) matches Ok(tree) && reply_holds(reply, tree),
            Err(message) => json_document(bytes@) == Err::<JsonTree, Seq<char>>(message@),
        },
{
    match from_slice(bytes) {
        Ok(value) => {
            let agent_status: Option<String> = match value_pointer(
                &value,
                "/result/agent/agent_status",
            ) {
                Some(found) => match value_as_str(found) {
                    Some(text) => Some(text.to_owned()),
                    None => None,
                },
                None => None,
            };
            proof {
                lemma_status_pointer();
            }
            Ok(
                Reply {
                    has_error: value_get(&value, "error").is_some(),
                    text: value_to_string(&value),
                    agent_status,
                },
            )
        },
        Err(error) => Err(error_to_string(&error)),
    }
}

proof fn lemma_status_pointer()
    ensures
        "/result/agent/agent_status"@ == pointer_text(
            seq!["result"@, "agent"@, "agent_status"@],
        ),
        plain_step("result"@),
        plain_step("agent"@),
        plain_step("agent_status"@),
{
    reveal_strlit("/result/agent/agent_status");
    reveal_strlit("result");
    reveal_strlit("agent");
    reveal_strlit("agent_status");
    let steps = seq!["result"@, "agent"@, "agent_status"@];
    reveal_with_fuel(pointer_text, 4);
    assert(steps.drop_first() =~= seq!["agent"@, "agent_status"@]);
    assert(steps.drop_first().drop_first() =~= seq!["agent_status"@]);
    assert(steps.drop_first().drop_first().drop_first() =~= seq![]);
    assert("/result/agent/agent_status"@ =~= pointer_text(steps));
}

} // verus!
