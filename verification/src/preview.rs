//! A short account of what an agent did.

use crate::chars::split_chars;
use crate::lines::{join_lines, joined_lines, lines, lines_of};
use crate::response::{
    codex_final_response, codex_response, grok_final_response, grok_response,
};
use crate::text::{has_prefix, trim, trimmed};
use vstd::prelude::*;

verus! {

/// How many lines of the terminal a preview looks at.
pub const COMPLETION_READ_LINES: u32 = 120;

/// How many characters a preview has.
pub const COMPLETION_PREVIEW_CHARS: usize = 1200;

/// `t`, or its first `max` characters and a mark of the cut.
pub open spec fn truncated(t: Seq<char>, max: nat) -> Seq<char> {
    if t.len() <= max {
        t
    } else {
        t.take(max as int) + "\n…"@
    }
}

/// `text`, or its first `max_chars` characters and a mark of the cut.
pub fn truncate_chars(text: &str, max_chars: usize) -> (r: String)
    ensures
        r@ == truncated(text@, max_chars as nat),
{
    if text.unicode_len() <= max_chars {
        return text.to_owned();
    }
    let mut truncated = split_chars(text, max_chars).0.to_owned();
    truncated.append("\n…");
    truncated
}

/// The last `count` of `lines`, or all of them.
pub open spec fn last_lines(lines: Seq<Seq<char>>, count: nat) -> Seq<Seq<char>> {
    if lines.len() <= count {
        lines
    } else {
        lines.skip(lines.len() - count)
    }
}

/// What a screen that shows `t` tells of the last turn: the answer of Grok or of Codex, else its last
/// 30 lines.
pub open spec fn last_words(t: Seq<char>) -> Seq<char> {
    match (grok_response(t, Seq::empty()), codex_response(t)) {
        (Some(response), _) => response,
        (None, Some(response)) => response,
        (None, None) => trimmed(joined_lines(last_lines(lines_of(t), 30))),
    }
}

/// The preview for a screen that shows `t`.
pub open spec fn preview_of(t: Seq<char>) -> Seq<char> {
    truncated(last_words(t), COMPLETION_PREVIEW_CHARS as nat)
}

/// The preview for a screen that shows `output`.
pub fn preview(output: &str) -> (r: String)
    ensures
        r@ == preview_of(output@),
{
    proof {
        reveal_strlit("");
        assert(""@ =~= Seq::<char>::empty());
    }
    let response = match grok_final_response(output, "") {
        Some(response) => response,
        None => match codex_final_response(output) {
            Some(response) => response,
            None => {
                let all = lines(output);
                let start: usize = if all.len() <= 30 {
                    0
                } else {
                    all.len() - 30
                };
                let kept = vstd::slice::slice_subrange(all.as_slice(), start, all.len());
                assert(kept.deep_view() =~= last_lines(lines_of(output@), 30));
                let joined = join_lines(kept);
                trim(joined.as_str()).to_owned()
            },
        },
    };
    truncate_chars(response.as_str(), COMPLETION_PREVIEW_CHARS)
}

/// A cut text is at most two characters longer than asked for, keeps what comes before the cut, and
/// is not cut if it is short enough.
pub proof fn law_truncated(t: Seq<char>, max: nat)
    ensures
        truncated(t, max).len() <= max + 2,
        t.len() <= max ==> truncated(t, max) == t,
        t.len() > max ==> has_prefix(truncated(t, max), t.take(max as int)),
{
    reveal_strlit("\n…");
    if t.len() > max {
        assert(truncated(t, max).take(max as int) =~= t.take(max as int));
    }
}

/// A preview has at most 1202 characters.
pub proof fn law_preview_is_short(t: Seq<char>)
    ensures
        preview_of(t).len() <= COMPLETION_PREVIEW_CHARS + 2,
{
    law_truncated(last_words(t), COMPLETION_PREVIEW_CHARS as nat);
}

} // verus!
