//! Which Herdr agent a model name stands for.

use crate::chars::{chars_of, is_digit, is_lowercase_letter};
use crate::text::{has_prefix, option_view, result_view, same_text, starts_with, strip_prefix};
use vstd::prelude::*;

verus! {

/// The names of the models that Herdr provides: `herdr`, and `herdr:` with an agent.
pub open spec fn herdr_model(model: Seq<char>) -> bool {
    model == "herdr"@ || has_prefix(model, "herdr:"@)
}

/// Whether Herdr provides `model`.
pub fn is_herdr_model(model: Option<&str>) -> (r: bool)
    ensures
        r == (model matches Some(name) && herdr_model(name@)),
{
    match model {
        Some(name) => same_text(name, "herdr") || starts_with(name, "herdr:"),
        None => false,
    }
}

/// The agent that a model name asks for.
pub open spec fn model_target(model: Seq<char>) -> Option<Seq<char>> {
    if has_prefix(model, "herdr:"@) && model.len() > 6 {
        Some(model.skip(6))
    } else {
        None
    }
}

/// The agent that `model` asks for.
pub fn strip_herdr_prefix<'a>(model: &'a str) -> (r: Option<&'a str>)
    ensures
        match r {
            Some(target) => model_target(model@) == Some(target@),
            None => model_target(model@) is None,
        },
{
    proof {
        reveal_strlit("herdr:");
    }
    match strip_prefix(model, "herdr:") {
        Some(target) => if target.is_empty() {
            None
        } else {
            Some(target)
        },
        None => None,
    }
}

/// The characters of an agent name.
pub open spec fn is_target_char(c: char) -> bool {
    is_lowercase_letter(c) || is_digit(c) || c == '_' || c == '-'
}

/// The agent names: 1 to 32 lowercase letters, digits, `-` or `_`, the first of them a letter.
pub open spec fn valid_target(target: Seq<char>) -> bool {
    &&& 1 <= target.len() <= 32
    &&& is_lowercase_letter(target[0])
    &&& forall|i: int| 0 <= i < target.len() ==> is_target_char(#[trigger] target[i])
}

/// Whether `target` is an agent name.
pub fn is_valid_target(target: &str) -> (r: bool)
    ensures
        r == valid_target(target@),
{
    let chars = chars_of(target);
    if chars.len() == 0 || chars.len() > 32 || !('a' <= chars[0] && chars[0] <= 'z') {
        return false;
    }
    let mut i: usize = 0;
    while i < chars.len()
        invariant
            i <= chars@.len(),
            chars@ == target@,
            forall|j: int| 0 <= j < i ==> is_target_char(#[trigger] target@[j]),
        decreases chars@.len() - i,
    {
        let c = chars[i];
        if !(('a' <= c && c <= 'z') || ('0' <= c && c <= '9') || c == '_' || c == '-') {
            assert(!is_target_char(target@[i as int]));
            return false;
        }
        i = i + 1;
    }
    true
}

/// The agent that a turn goes to: the one that the model names, else the configured one, and
/// what is wrong if that is no agent name or there is none.
pub open spec fn chosen_target(
    model: Option<Seq<char>>,
    configured: Option<Seq<char>>,
) -> Result<Seq<char>, Seq<char>> {
    let named = match model {
        Some(name) => model_target(name),
        None => None,
    };
    match (named, configured) {
        (Some(target), _) => if valid_target(target) {
            Ok(target)
        } else {
            Err(
                "Invalid Herdr agent name. Use 1-32 lowercase letters, digits, '-' or '_'."@,
            )
        },
        (None, Some(target)) => if valid_target(target) {
            Ok(target)
        } else {
            Err("COKAC_HERDR_AGENT contains an invalid Herdr agent name."@)
        },
        (None, None) => Err(
            "Herdr agent is not configured. Use /model herdr:<agent-name> or set COKAC_HERDR_AGENT."@,
        ),
    }
}

/// The agent that a turn goes to. `configured` is the value of `COKAC_HERDR_AGENT`.
pub fn target_from_model(model: Option<&str>, configured: Option<&str>) -> (r: Result<
    String,
    String,
>)
    ensures
        result_view(r) == chosen_target(option_view(model), option_view(configured)),
{
    let named: Option<&str> = match model {
        Some(name) => strip_herdr_prefix(name),
        None => None,
    };
    match named {
        Some(target) => {
            if is_valid_target(target) {
                return Ok(target.to_owned());
            }
            return Err(
                "Invalid Herdr agent name. Use 1-32 lowercase letters, digits, '-' or '_'.".to_owned(),
            );
        },
        None => {},
    }
    match configured {
        Some(target) => if is_valid_target(target) {
            Ok(target.to_owned())
        } else {
            Err("COKAC_HERDR_AGENT contains an invalid Herdr agent name.".to_owned())
        },
        None => Err(
            "Herdr agent is not configured. Use /model herdr:<agent-name> or set COKAC_HERDR_AGENT.".to_owned(),
        ),
    }
}

/// A turn goes to a valid agent or to none.
pub proof fn law_chosen_target_is_valid(model: Option<Seq<char>>, configured: Option<Seq<char>>)
    ensures
        chosen_target(model, configured) matches Ok(target) ==> valid_target(target),
{
}

/// A model that names a valid agent stands for that agent, whatever is configured, and a model
/// that names an agent is one of Herdr.
pub proof fn law_named_agent_is_taken(target: Seq<char>, configured: Option<Seq<char>>)
    requires
        valid_target(target),
    ensures
        herdr_model("herdr:"@ + target),
        model_target("herdr:"@ + target) == Some(target),
        chosen_target(Some("herdr:"@ + target), configured) == Ok::<Seq<char>, Seq<char>>(target),
{
    reveal_strlit("herdr:");
    let model = "herdr:"@ + target;
    assert(model.take(6) =~= "herdr:"@);
    assert(model.skip(6) =~= target);
}

/// A model that names an agent is one of Herdr, and the name is never empty.
pub proof fn law_named_agents_are_of_herdr(model: Seq<char>)
    ensures
        model_target(model) matches Some(target) ==> herdr_model(model) && target.len() > 0
            && model == "herdr:"@ + target,
{
    reveal_strlit("herdr:");
    if model_target(model) is Some {
        assert(model =~= model.take(6) + model.skip(6));
    }
}

} // verus!
