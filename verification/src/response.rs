//! What an agent answered.

use crate::chars::{suffix_at, text_from};
use crate::classify::{
    codex_prompt_line, codex_status_footer, codex_tool_or_notice, grok_chrome_line,
    grok_input_box_line, grok_status_bar, grok_tui, herdr_unwrap_duplicate, is_codex_prompt_line,
    is_codex_status_footer, is_codex_tool_or_notice, is_grok_chrome_line, is_grok_input_box_line,
    is_grok_status_bar, is_herdr_unwrap_duplicate, is_markdown_block_start, is_tui_separator,
    looks_like_grok_tui, markdown_block_start, prevents_wrapped_continuation, stands_alone,
    tui_separator,
};
use crate::echo::{
    any_echo, consume_prompt_echo, echo_lines, echo_of, find_any_grok_prompt_offset,
    find_grok_prompt_offset, grok_turn_offset,
};
use crate::grok_line::{unquoted_line, unwrap_grok_quote_line};
use crate::lines::{
    join_lines, join_strings, joined_lines, lemma_lines_before, lines, lines_before, lines_of,
};
use crate::text::{
    begins_with, blank, contains_text, has_prefix, has_text, is_blank, optional_view, same_text,
    starts_with, starts_with_char, trim, trim_end, trim_start, trimmed, trimmed_end, trimmed_start,
};
use vstd::prelude::*;

verus! {

/// A line that marked where a response began or ended.
pub open spec fn legacy_marker(line: Seq<char>) -> bool {
    let t = trimmed(line);
    has_prefix(t, "COKACDIR_RESPONSE_BEGIN_"@) || has_prefix(t, "COKACDIR_RESPONSE_END_"@)
}

/// `lines` without the markers among them.
pub open spec fn unmarked(lines: Seq<Seq<char>>) -> Seq<Seq<char>>
    decreases lines.len(),
{
    if lines.len() == 0 {
        seq![]
    } else if legacy_marker(lines.last()) {
        unmarked(lines.drop_last())
    } else {
        unmarked(lines.drop_last()).push(lines.last())
    }
}

/// `t` without its marker lines, and without the white space around what is left.
pub open spec fn without_markers(t: Seq<char>) -> Seq<char> {
    trimmed(joined_lines(unmarked(lines_of(t))))
}

/// `response` without its marker lines, and without the white space around what is left.
pub fn strip_legacy_markers(response: &str) -> (r: String)
    ensures
        r@ == without_markers(response@),
{
    let all = lines(response);
    let mut kept: Vec<&str> = Vec::new();
    let mut i: usize = 0;
    let ghost each = lines_of(response@);
    while i < all.len()
        invariant
            i <= all@.len(),
            all.deep_view() == each,
            kept.deep_view() == unmarked(each.take(i as int)),
        decreases all@.len() - i,
    {
        let line: &str = all[i];
        let t = trim(line);
        proof {
            assert(each.take(i + 1).drop_last() =~= each.take(i as int));
            assert(each[i as int] == line@);
        }
        if !starts_with(t, "COKACDIR_RESPONSE_BEGIN_") && !starts_with(
            t,
            "COKACDIR_RESPONSE_END_",
        ) {
            let ghost before = kept.deep_view();
            kept.push(line);
            assert(kept.deep_view() =~= before.push(line@));
        }
        i = i + 1;
    }
    assert(each.take(i as int) =~= each);
    let joined = join_lines(kept.as_slice());
    trim(joined.as_str()).to_owned()
}

/// A response, unless it is blank.
pub open spec fn unless_blank(t: Seq<char>) -> Option<Seq<char>> {
    if is_blank(t) {
        None
    } else {
        Some(t)
    }
}

/// A response without its marker lines, unless it is blank.
fn response_of(text: &str) -> (r: Option<String>)
    ensures
        optional_view(r) == unless_blank(without_markers(text@)),
{
    let output = strip_legacy_markers(text);
    if blank(output.as_str()) {
        None
    } else {
        Some(output)
    }
}

/// `lines` and an empty line, unless there is none to separate from the next or there is an empty
/// line already.
pub open spec fn with_gap(lines: Seq<Seq<char>>) -> Seq<Seq<char>> {
    if lines.len() > 0 && lines.last().len() > 0 {
        lines.push(Seq::empty())
    } else {
        lines
    }
}

fn push_gap(lines: &mut Vec<String>)
    ensures
        final(lines).deep_view() == with_gap(old(lines).deep_view()),
{
    let ghost before = lines.deep_view();
    if lines.len() > 0 && !lines[lines.len() - 1].as_str().is_empty() {
        lines.push(String::new());
        assert(lines.deep_view() =~= before.push(Seq::empty()));
    }
}

/// `lines` without the empty lines at their end.
pub open spec fn without_last_gaps(lines: Seq<Seq<char>>) -> Seq<Seq<char>>
    decreases lines.len(),
{
    if lines.len() > 0 && lines.last().len() == 0 {
        without_last_gaps(lines.drop_last())
    } else {
        lines
    }
}

fn pop_gaps(lines: &mut Vec<String>)
    ensures
        final(lines).deep_view() == without_last_gaps(old(lines).deep_view()),
{
    while lines.len() > 0 && lines[lines.len() - 1].as_str().is_empty()
        invariant
            without_last_gaps(lines.deep_view()) == without_last_gaps(old(lines).deep_view()),
        decreases lines@.len(),
    {
        let ghost before = lines.deep_view();
        let _ = lines.pop();
        assert(lines.deep_view() =~= before.drop_last());
    }
}

/// The lines that end what Codex says: its next prompt or the line below it.
pub open spec fn codex_end() -> spec_fn(Seq<char>) -> bool {
    |line: Seq<char>| codex_prompt_line(line) || codex_status_footer(line)
}

/// The lines of a Codex answer among `lines`: those that are indented or have a bullet, without
/// their indentation, and the blank ones, but no tools and no notices.
pub open spec fn codex_answer(lines: Seq<Seq<char>>) -> Seq<Seq<char>>
    decreases lines.len(),
{
    if lines.len() == 0 {
        seq![]
    } else {
        let line = lines.last();
        let before = codex_answer(lines.drop_last());
        if codex_tool_or_notice(line) {
            before
        } else if begins_with(line, ' ') || begins_with(line, '\t') || begins_with(
            trimmed_start(line),
            '•',
        ) {
            before.push(trimmed_start(line))
        } else if is_blank(line) {
            before.push(Seq::empty())
        } else {
            before
        }
    }
}

/// What Codex answered in a turn that shows `t`.
pub open spec fn codex_response(t: Seq<char>) -> Option<Seq<char>> {
    unless_blank(
        without_markers(joined_lines(codex_answer(lines_before(lines_of(t), codex_end())))),
    )
}

/// What Codex answered in a turn that shows `turn_output`.
pub fn codex_final_response(turn_output: &str) -> (r: Option<String>)
    ensures
        optional_view(r) == codex_response(turn_output@),
{
    let all = lines(turn_output);
    let response_lines = codex_body(all.as_slice());
    let cleaned = join_lines(response_lines.as_slice());
    response_of(cleaned.as_str())
}

/// The lines of a Codex answer among `lines`, up to the end of what Codex says.
fn codex_body<'a>(lines: &[&'a str]) -> (body: Vec<&'a str>)
    ensures
        body.deep_view() == codex_answer(lines_before(lines.deep_view(), codex_end())),
{
    let ghost each = lines.deep_view();
    let mut body: Vec<&'a str> = Vec::new();
    let mut i: usize = 0;
    while i < lines.len()
        invariant
            i <= lines@.len(),
            each == lines.deep_view(),
            body.deep_view() == codex_answer(each.take(i as int)),
            forall|j: int| 0 <= j < i ==> !codex_end()(#[trigger] each[j]),
        decreases lines@.len() - i,
    {
        let line: &'a str = lines[i];
        assert(each[i as int] == line@);
        if is_codex_prompt_line(line) || is_codex_status_footer(line) {
            proof {
                lemma_lines_before(each, codex_end(), i as int);
            }
            return body;
        }
        assert(each.take(i + 1).drop_last() =~= each.take(i as int));
        let ghost before = body.deep_view();
        if !is_codex_tool_or_notice(line) {
            let trimmed = trim_start(line);
            if starts_with_char(line, ' ') || starts_with_char(line, '\t') || starts_with_char(
                trimmed,
                '•',
            ) {
                body.push(trimmed);
                assert(body.deep_view() =~= before.push(trimmed@));
            } else if blank(line) {
                body.push("");
                proof {
                    reveal_strlit("");
                    assert(""@ =~= Seq::<char>::empty());
                    assert(body.deep_view() =~= before.push(Seq::empty()));
                }
            }
        }
        i = i + 1;
    }
    proof {
        lemma_lines_before(each, codex_end(), i as int);
    }
    body
}

/// The lines that end what Grok says: a separator, or its input box.
pub open spec fn grok_end() -> spec_fn(Seq<char>) -> bool {
    |line: Seq<char>| tui_separator(line) || grok_input_box_line(line)
}

/// The lines of an answer, `body`, after the next `line` of a Grok screen. Prompts, the status bar,
/// repeated lines and what Grok draws around its answer add nothing; blank lines add one gap.
pub open spec fn with_grok_line(body: Seq<Seq<char>>, line: Seq<char>) -> Seq<Seq<char>> {
    if has_text(line, "❯ "@) || grok_status_bar(line) || herdr_unwrap_duplicate(line) {
        body
    } else if is_blank(line) {
        with_gap(body)
    } else if grok_chrome_line(line) {
        body
    } else {
        match unquoted_line(line) {
            None => body,
            Some(text) => if text.len() == 0 {
                with_gap(body)
            } else if text == "▼"@ || text == "▲"@ || (body.len() > 0 && body.last() == text) {
                body
            } else {
                body.push(text)
            },
        }
    }
}

/// The lines of the answer that `lines` of a Grok screen show.
pub open spec fn grok_answer(lines: Seq<Seq<char>>) -> Seq<Seq<char>>
    decreases lines.len(),
{
    if lines.len() == 0 {
        seq![]
    } else {
        with_grok_line(grok_answer(lines.drop_last()), lines.last())
    }
}

fn push_grok_line(body: &mut Vec<String>, line: &str)
    ensures
        final(body).deep_view() == with_grok_line(old(body).deep_view(), line@),
{
    if contains_text(line, "❯ ") || is_grok_status_bar(line) || is_herdr_unwrap_duplicate(line) {
        return ;
    }
    if blank(line) {
        push_gap(body);
        return ;
    }
    if is_grok_chrome_line(line) {
        return ;
    }
    match unwrap_grok_quote_line(line) {
        None => {},
        Some(cleaned) => {
            let text = cleaned.as_str();
            if text.is_empty() {
                push_gap(body);
                return ;
            }
            if same_text(text, "▼") || same_text(text, "▲") {
                return ;
            }
            let ghost before = body.deep_view();
            if body.len() > 0 && same_text(body[body.len() - 1].as_str(), text) {
                return ;
            }
            body.push(cleaned);
            assert(body.deep_view() =~= before.push(cleaned@));
        },
    }
}

/// The first line of `t`, or nothing.
pub open spec fn first_line_of(t: Seq<char>) -> Seq<char> {
    if lines_of(t).len() == 0 {
        Seq::empty()
    } else {
        lines_of(t)[0]
    }
}

/// The first line of `text`, or nothing, without the white space around it.
pub fn trimmed_first_line<'a>(text: &'a str) -> (r: &'a str)
    ensures
        r@ == trimmed(first_line_of(text@)),
{
    let all = lines(text);
    if all.len() == 0 {
        proof {
            reveal_strlit("");
            assert(""@ =~= Seq::<char>::empty());
        }
        trim("")
    } else {
        assert(lines_of(text@)[0] == all@[0]@);
        trim(all[0])
    }
}

/// The part of `t` from the turn of Grok for `prompt` on, or all of it if the turn is not found.
pub open spec fn grok_region(t: Seq<char>, prompt: Seq<char>) -> Seq<char> {
    let first = trimmed(first_line_of(prompt));
    let start = if first.len() == 0 {
        grok_turn_offset(t, any_echo())
    } else {
        grok_turn_offset(t, echo_of(first))
    };
    match start {
        Some(offset) => suffix_at(t, offset),
        None => t,
    }
}

/// How many of `lines` echo `prompt`: none if the first line shows no prompt.
pub open spec fn grok_body_start(lines: Seq<Seq<char>>, prompt: Seq<char>) -> nat {
    if lines.len() > 0 && has_text(lines[0], "❯ "@) {
        echo_lines(lines, prompt)
    } else {
        0
    }
}

/// What Grok answered to `prompt` in a turn that shows `t`. A text that is no screen of Grok holds no
/// answer of Grok.
pub open spec fn grok_response(t: Seq<char>, prompt: Seq<char>) -> Option<Seq<char>> {
    let all = lines_of(grok_region(t, prompt));
    let shown = lines_before(all.skip(grok_body_start(all, prompt) as int), grok_end());
    if !grok_tui(t) {
        None
    } else {
        unless_blank(without_markers(joined_lines(without_last_gaps(grok_answer(shown)))))
    }
}

/// What Grok answered to `prompt` in a turn that shows `turn_output`.
pub fn grok_final_response(turn_output: &str, prompt: &str) -> (r: Option<String>)
    ensures
        optional_view(r) == grok_response(turn_output@, prompt@),
{
    if !looks_like_grok_tui(turn_output) {
        return None;
    }
    let prompt_first = trimmed_first_line(prompt);
    let start: Option<usize> = if prompt_first.is_empty() {
        find_any_grok_prompt_offset(turn_output)
    } else {
        find_grok_prompt_offset(turn_output, prompt_first)
    };
    let region = match start {
        Some(offset) => text_from(turn_output, offset),
        None => turn_output,
    };
    let all = lines(region);
    let body_start: usize = if all.len() > 0 && contains_text(all[0], "❯ ") {
        consume_prompt_echo(all.as_slice(), prompt)
    } else {
        0
    };
    let mut body = grok_body(all.as_slice(), body_start);
    pop_gaps(&mut body);
    let joined = join_strings(&body);
    response_of(joined.as_str())
}

/// The lines of the answer that `lines` of a Grok screen show from `start` on.
fn grok_body(lines: &[&str], start: usize) -> (body: Vec<String>)
    requires
        start <= lines@.len(),
    ensures
        body.deep_view() == grok_answer(
            lines_before(lines.deep_view().skip(start as int), grok_end()),
        ),
{
    let ghost each = lines.deep_view().skip(start as int);
    let mut body: Vec<String> = Vec::new();
    let mut i: usize = start;
    assert(each.take(0) =~= seq![]);
    assert(body.deep_view() =~= seq![]);
    while i < lines.len()
        invariant
            start <= i <= lines@.len(),
            each == lines.deep_view().skip(start as int),
            body.deep_view() == grok_answer(each.take(i - start)),
            forall|j: int| 0 <= j < i - start ==> !grok_end()(#[trigger] each[j]),
        decreases lines@.len() - i,
    {
        let line: &str = lines[i];
        assert(each[i - start] == line@);
        if is_tui_separator(line) || is_grok_input_box_line(line) {
            proof {
                lemma_lines_before(each, grok_end(), i - start);
            }
            return body;
        }
        assert(each.take(i + 1 - start).drop_last() =~= each.take(i - start));
        push_grok_line(&mut body, line);
        i = i + 1;
    }
    proof {
        lemma_lines_before(each, grok_end(), i - start);
    }
    body
}

/// Whether `line` opens or closes a block of fenced code.
pub open spec fn code_fence(line: Seq<char>) -> bool {
    has_prefix(trimmed(line), "```"@) || has_prefix(trimmed(line), "~~~"@)
}

/// A text whose wrapped lines are being put together: the lines so far, and whether the next one
/// is code.
pub struct Unwrapped {
    pub lines: Seq<Seq<char>>,
    pub in_code_fence: bool,
}

/// Whether a line continues the last of `lines`: it begins no block, and that line can be
/// continued.
pub open spec fn continues(lines: Seq<Seq<char>>, line: Seq<char>) -> bool {
    &&& !markdown_block_start(line)
    &&& lines.len() > 0
    &&& lines.last().len() > 0
    &&& !stands_alone(lines.last())
}

/// The text after the next line, `raw`. Code is kept as it is; blank lines leave one gap; a line that
/// continues the last is put behind it.
pub open spec fn with_terminal_line(state: Unwrapped, raw: Seq<char>) -> Unwrapped {
    let line = trimmed_end(raw);
    let t = trimmed(line);
    if state.in_code_fence {
        Unwrapped { lines: state.lines.push(line), in_code_fence: !code_fence(line) }
    } else if t.len() == 0 {
        Unwrapped { lines: with_gap(state.lines), in_code_fence: false }
    } else if code_fence(line) {
        Unwrapped { lines: state.lines.push(line), in_code_fence: true }
    } else if continues(state.lines, line) {
        Unwrapped {
            lines: state.lines.drop_last().push(state.lines.last().push(' ') + t),
            in_code_fence: false,
        }
    } else {
        Unwrapped { lines: state.lines.push(line), in_code_fence: false }
    }
}

/// The text that `lines` of a terminal show, its wrapped lines put together.
pub open spec fn unwrapped(lines: Seq<Seq<char>>) -> Unwrapped
    decreases lines.len(),
{
    if lines.len() == 0 {
        Unwrapped { lines: seq![], in_code_fence: false }
    } else {
        with_terminal_line(unwrapped(lines.drop_last()), lines.last())
    }
}

/// The text that `lines` of a terminal show, without empty lines at its end.
pub open spec fn unwrapped_text(lines: Seq<Seq<char>>) -> Seq<char> {
    joined_lines(without_last_gaps(unwrapped(lines).lines))
}

/// The text that `lines` of a terminal show, its wrapped lines put together.
pub fn unwrap_terminal_text(lines: &[&str]) -> (r: String)
    ensures
        r@ == unwrapped_text(lines.deep_view()),
{
    let ghost each = lines.deep_view();
    let mut output: Vec<String> = Vec::new();
    let mut in_code_fence = false;
    let mut i: usize = 0;
    assert(each.take(0) =~= seq![]);
    assert(output.deep_view() =~= seq![]);
    while i < lines.len()
        invariant
            i <= lines@.len(),
            each == lines.deep_view(),
            output.deep_view() == unwrapped(each.take(i as int)).lines,
            in_code_fence == unwrapped(each.take(i as int)).in_code_fence,
        decreases lines@.len() - i,
    {
        let raw: &str = lines[i];
        proof {
            assert(each.take(i + 1).drop_last() =~= each.take(i as int));
            assert(each[i as int] == raw@);
        }
        in_code_fence = push_terminal_line(&mut output, in_code_fence, raw);
        i = i + 1;
    }
    assert(each.take(i as int) =~= each);
    pop_gaps(&mut output);
    join_strings(&output)
}

/// Adds the line `raw` to `output`, and tells whether the next one is code.
fn push_terminal_line(output: &mut Vec<String>, in_code_fence: bool, raw: &str) -> (next: bool)
    ensures
        (Unwrapped { lines: final(output).deep_view(), in_code_fence: next })
            == with_terminal_line(
            (Unwrapped { lines: old(output).deep_view(), in_code_fence }),
            raw@,
        ),
{
    let ghost before = output.deep_view();
    let line = trim_end(raw);
    let trimmed = trim(line);
    let is_fence = starts_with(trimmed, "```") || starts_with(trimmed, "~~~");
    if in_code_fence {
        output.push(line.to_owned());
        assert(output.deep_view() =~= before.push(line@));
        return !is_fence;
    }
    if trimmed.is_empty() {
        push_gap(output);
        return false;
    }
    if is_fence {
        output.push(line.to_owned());
        assert(output.deep_view() =~= before.push(line@));
        return true;
    }
    let can_join = !is_markdown_block_start(line) && output.len() > 0 && !output[output.len()
        - 1].as_str().is_empty() && !prevents_wrapped_continuation(
        output[output.len() - 1].as_str(),
    );
    if can_join {
        match output.pop() {
            Some(previous) => {
                let mut previous = previous;
                let ghost last = previous@;
                previous.append(" ");
                previous.append(trimmed);
                output.push(previous);
                proof {
                    reveal_strlit(" ");
                    assert(" "@ =~= seq![' ']);
                    assert(previous@ =~= last.push(' ') + trimmed@);
                    assert(output.deep_view() =~= before.drop_last().push(previous@));
                }
            },
            None => {},
        }
    } else {
        output.push(line.to_owned());
        assert(output.deep_view() =~= before.push(line@));
    }
    false
}

/// What an agent answered to `prompt` in a turn that shows `t`: what Grok says, else what Codex says,
/// else the whole text.
pub open spec fn final_response(t: Seq<char>, prompt: Seq<char>) -> Seq<char> {
    match (grok_response(t, prompt), codex_response(t)) {
        (Some(response), _) => response,
        (None, Some(response)) => response,
        (None, None) => unwrapped_text(lines_of(without_markers(t))),
    }
}

/// What an agent answered to `prompt` in a turn that shows `turn_output`.
pub fn extract_final_response(turn_output: &str, prompt: &str) -> (r: String)
    ensures
        r@ == final_response(turn_output@, prompt@),
{
    match grok_final_response(turn_output, prompt) {
        Some(response) => response,
        None => match codex_final_response(turn_output) {
            Some(response) => response,
            None => {
                let stripped = strip_legacy_markers(turn_output);
                unwrap_terminal_text(lines(stripped.as_str()).as_slice())
            },
        },
    }
}

} // verus!
