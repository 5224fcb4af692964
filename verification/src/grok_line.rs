//! The text on a line of a Grok answer.

use crate::classify::{
    grok_status_bar, herdr_unwrap_duplicate, is_grok_status_bar, is_herdr_unwrap_duplicate,
    is_outer_quote_frame, outer_quote_frame,
};
use crate::clock::{strip_tui_right_gutter, strip_trailing_clock, without_clock, without_gutter};
use crate::text::{
    begins_with, contains_char, count_char, count_of, has_prefix, starts_with_char, strip_prefix, trim,
    trim_end, trim_end_of, trimmed, trimmed_end, trimmed_end_of, CharSet,
};
use vstd::prelude::*;

verus! {

/// `line` without the scroll bar, the right edge of a frame, the time of day, and the white
/// space around what is left.
pub open spec fn cleaned_line(line: Seq<char>) -> Seq<char> {
    let without_bar = trimmed_end(trimmed_end_of(without_gutter(line), CharSet::Only('│')));
    trimmed(without_clock(without_bar))
}

/// `line` without the scroll bar, the right edge of a frame, the time of day, and the white
/// space around what is left.
pub fn clean_grok_content_line(line: &str) -> (r: String)
    ensures
        r@ == cleaned_line(line@),
{
    let without_bar = trim_end(trim_end_of(strip_tui_right_gutter(line), CharSet::Only('│')));
    trim(strip_trailing_clock(without_bar)).to_owned()
}

/// What stands inside the left and the right edge of a frame.
pub open spec fn inside_frame(t: Seq<char>) -> Seq<char> {
    trimmed(trimmed_end_of(t.skip(1), CharSet::Only('│')))
}

/// Whether `t` begins with a frame or a table.
pub open spec fn begins_nested_frame(t: Seq<char>) -> bool {
    ||| begins_with(t, '┌')
    ||| begins_with(t, '├')
    ||| begins_with(t, '└')
    ||| begins_with(t, '│')
}

/// Whether `t` is a row of a table, not of a frame without columns.
pub open spec fn table_row(t: Seq<char>) -> bool {
    ||| count_of(t, '│') > 2
    ||| t.contains('┼')
    ||| t.contains('┬')
    ||| t.contains('├')
}

/// What `line` contributes to an answer: nothing, an empty line, or its text. A frame around
/// the answer is taken off; a table keeps its edges.
pub open spec fn unquoted_line(line: Seq<char>) -> Option<Seq<char>> {
    let t = cleaned_line(line);
    if t.len() == 0 {
        Some(t)
    } else if herdr_unwrap_duplicate(t) || outer_quote_frame(t) || grok_status_bar(t) {
        None
    } else if begins_with(t, '│') && (begins_nested_frame(inside_frame(t)) || !table_row(t)) {
        Some(inside_frame(t))
    } else {
        Some(t)
    }
}

/// What `line` contributes to an answer.
pub fn unwrap_grok_quote_line(line: &str) -> (r: Option<String>)
    ensures
        match r {
            Some(text) => unquoted_line(line@) == Some(text@),
            None => unquoted_line(line@) is None,
        },
{
    let cleaned = clean_grok_content_line(line);
    let text = cleaned.as_str();
    if text.is_empty() {
        return Some(String::new());
    }
    if is_herdr_unwrap_duplicate(text) || is_outer_quote_frame(text) || is_grok_status_bar(text) {
        return None;
    }
    proof {
        reveal_strlit("│");
        assert("│"@ =~= seq!['│']);
        assert(text@.take(1) =~= seq![text@[0]]);
        assert(has_prefix(text@, "│"@) ==> text@.take(1)[0] == '│');
    }
    match strip_prefix(text, "│") {
        Some(rest) => {
            let inner = trim(trim_end_of(rest, CharSet::Only('│')));
            if starts_with_char(inner, '┌') || starts_with_char(inner, '├') || starts_with_char(
                inner,
                '└',
            ) || starts_with_char(inner, '│') {
                return Some(inner.to_owned());
            }
            let is_table = count_char(text, '│') > 2 || contains_char(text, '┼') || contains_char(
                text,
                '┬',
            ) || contains_char(text, '├');
            if !is_table {
                return Some(inner.to_owned());
            }
        },
        None => {},
    }
    Some(cleaned)
}

} // verus!
