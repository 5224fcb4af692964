//! How a screen echoes a prompt, and where the echo ends.

use crate::chars::{is_boundary, suffix_at, text_from};
use crate::classify::{
    grok_chrome_line, grok_input_box_line, is_grok_chrome_line, is_grok_input_box_line,
    is_tui_separator, tui_separator,
};
use crate::clock::{strip_trailing_clock, without_clock};
use crate::lines::{
    compact_chars, compacted, each_line, entries, join_lines, joined_lines, lemma_offset_lines,
    lines, lines_of, normalize_ws, normalized, offset_lines, stands_in,
};
use crate::text::{
    begins_with, blank, contains_text, count_leading, ends_with, find_text, has_prefix, has_suffix,
    has_text, is_blank, leading_count, position_of, same_text, starts_with, starts_with_char,
    strip_prefix, trim_end, trim_end_of, trim_end_text, trim_start, trimmed_end, trimmed_end_of,
    trimmed_start, without_suffixes, CharSet,
};
use vstd::prelude::*;

verus! {

/// `t` without the mark that an agent shows before a prompt.
pub open spec fn without_prompt_mark(t: Seq<char>) -> Seq<char> {
    if has_prefix(t, "❯ "@) || has_prefix(t, "› "@) || has_prefix(t, "> "@) {
        t.skip(2)
    } else {
        t
    }
}

/// The prompt that `line` echoes, with one blank between its words.
pub open spec fn echo_text(line: Seq<char>) -> Seq<char> {
    normalized(without_clock(without_prompt_mark(trimmed_start(line))))
}

/// The prompt that `line` echoes.
pub fn prompt_echo_text(line: &str) -> (r: String)
    ensures
        r@ == echo_text(line@),
{
    proof {
        reveal_strlit("❯ ");
        reveal_strlit("› ");
        reveal_strlit("> ");
    }
    let trimmed = trim_start(line);
    let rest = match strip_prefix(trimmed, "❯ ") {
        Some(rest) => rest,
        None => match strip_prefix(trimmed, "› ") {
            Some(rest) => rest,
            None => match strip_prefix(trimmed, "> ") {
                Some(rest) => rest,
                None => trimmed,
            },
        },
    };
    normalize_ws(strip_trailing_clock(rest))
}

/// The prompt that `line` of a Grok screen echoes.
pub fn grok_echo_text(line: &str) -> (r: String)
    ensures
        r@ == echo_text(line@),
{
    prompt_echo_text(line)
}

/// Whether one text begins with the other.
pub open spec fn agree(left: Seq<char>, right: Seq<char>) -> bool {
    has_prefix(left, right) || has_prefix(right, left)
}

/// Whether `line` echoes a prompt that begins with `prompt_first`, or the beginning of it.
pub open spec fn echoes_prompt(line: Seq<char>, prompt_first: Seq<char>) -> bool {
    echo_text(line).len() > 0 && agree(prompt_first, echo_text(line))
}

/// Whether `line` echoes a prompt that begins with `prompt_first`, or the beginning of it.
pub fn grok_line_matches_prompt(line: &str, prompt_first: &str) -> (r: bool)
    ensures
        r == echoes_prompt(line@, prompt_first@),
{
    let echoed = grok_echo_text(line);
    !echoed.as_str().is_empty() && (starts_with(prompt_first, echoed.as_str()) || starts_with(
        echoed.as_str(),
        prompt_first,
    ))
}

/// The first lines of `t`, at most `count` of them.
pub open spec fn first_lines(t: Seq<char>, count: nat) -> Seq<Seq<char>> {
    let all = lines_of(t);
    if all.len() <= count {
        all
    } else {
        all.take(count as int)
    }
}

/// Whether a thought or a tool of Grok stands in `t`, and no scroll mark before it.
pub open spec fn shows_grok_work(t: Seq<char>) -> bool {
    let work = match position_of(t, "◆ "@) {
        Some(i) => Some(i),
        None => position_of(t, "Thought for "@),
    };
    match (work, position_of(t, "▲"@)) {
        (Some(i), Some(scroll)) => i < scroll,
        (Some(_), None) => true,
        (None, _) => false,
    }
}

/// Whether a turn of Grok begins `offset` bytes into `t`: its work shows within 16 lines. The
/// header that repeats a prompt while its answer scrolls shows none.
pub open spec fn real_grok_turn(t: Seq<char>, offset: nat) -> bool {
    shows_grok_work(joined_lines(first_lines(suffix_at(t, offset), 16)))
}

/// Whether a turn of Grok begins `offset` bytes into `text`.
pub fn following_is_real_grok_turn(text: &str, offset: usize) -> (r: bool)
    requires
        is_boundary(text@, offset as nat),
    ensures
        r == real_grok_turn(text@, offset as nat),
{
    let mut window = lines(text_from(text, offset));
    let ghost all = window.deep_view();
    if window.len() > 16 {
        window.truncate(16);
        assert(window.deep_view() =~= all.take(16));
    }
    let shown = join_lines(window.as_slice());
    let work = match find_text(shown.as_str(), "◆ ") {
        Some(at) => Some(at),
        None => find_text(shown.as_str(), "Thought for "),
    };
    let scroll = find_text(shown.as_str(), "▲");
    match (work, scroll) {
        (Some(work_at), Some(scroll_at)) => work_at < scroll_at,
        (Some(_), None) => true,
        (None, _) => false,
    }
}

/// The offset of the first entry whose line satisfies `wanted`.
pub open spec fn first_entry(
    entries: Seq<(nat, Seq<char>)>,
    wanted: spec_fn(Seq<char>) -> bool,
) -> Option<nat>
    decreases entries.len(),
{
    if entries.len() == 0 {
        None
    } else {
        match first_entry(entries.drop_last(), wanted) {
            Some(offset) => Some(offset),
            None => if wanted(entries.last().1) {
                Some(entries.last().0)
            } else {
                None
            },
        }
    }
}

/// The offset of the last entry whose line satisfies `wanted`.
pub open spec fn last_entry(
    entries: Seq<(nat, Seq<char>)>,
    wanted: spec_fn(Seq<char>) -> bool,
) -> Option<nat>
    decreases entries.len(),
{
    if entries.len() == 0 {
        None
    } else if wanted(entries.last().1) {
        Some(entries.last().0)
    } else {
        last_entry(entries.drop_last(), wanted)
    }
}

/// The offset of the last entry whose line satisfies `wanted` and at which a turn of Grok begins
/// in `t`.
pub open spec fn last_real_entry(
    t: Seq<char>,
    entries: Seq<(nat, Seq<char>)>,
    wanted: spec_fn(Seq<char>) -> bool,
) -> Option<nat>
    decreases entries.len(),
{
    if entries.len() == 0 {
        None
    } else if wanted(entries.last().1) && real_grok_turn(t, entries.last().0) {
        Some(entries.last().0)
    } else {
        last_real_entry(t, entries.drop_last(), wanted)
    }
}

/// Where the turn of Grok begins that is shown in `t` after a line that satisfies `wanted`: at
/// the last such line that work follows, else at the first such line.
pub open spec fn grok_turn_offset(t: Seq<char>, wanted: spec_fn(Seq<char>) -> bool) -> Option<
    nat,
> {
    match last_real_entry(t, offset_lines(t), wanted) {
        Some(offset) => Some(offset),
        None => first_entry(offset_lines(t), wanted),
    }
}

/// The lines outside the input box that echo `first_line`.
pub open spec fn echo_of(first_line: Seq<char>) -> spec_fn(Seq<char>) -> bool {
    |line: Seq<char>| !grok_input_box_line(line) && echoes_prompt(line, first_line)
}

/// The lines outside the input box that echo any prompt of Grok.
pub open spec fn any_echo() -> spec_fn(Seq<char>) -> bool {
    |line: Seq<char>|
        !grok_input_box_line(line) && has_text(line, "❯ "@) && echo_text(line).len() > 0
}

/// The prompts whose echo is searched for.
enum Wanted<'a> {
    Any,
    FirstLine(&'a str),
}

impl<'a> Wanted<'a> {
    spec fn echo(self) -> spec_fn(Seq<char>) -> bool {
        match self {
            Wanted::Any => any_echo(),
            Wanted::FirstLine(first_line) => echo_of(first_line@),
        }
    }

    fn is_echo(&self, line: &str) -> (r: bool)
        ensures
            r == self.echo()(line@),
    {
        if is_grok_input_box_line(line) {
            return false;
        }
        match self {
            Wanted::Any => contains_text(line, "❯ ") && !grok_echo_text(line).as_str().is_empty(),
            Wanted::FirstLine(first_line) => grok_line_matches_prompt(line, first_line),
        }
    }
}

/// The byte offset of the line at which the turn for a wanted prompt begins.
fn find_turn_offset(text: &str, wanted: &Wanted<'_>) -> (r: Option<usize>)
    ensures
        offset_is(r, grok_turn_offset(text@, wanted.echo())),
        r matches Some(offset) ==> is_boundary(text@, offset as nat),
{
    let found = each_line(text);
    let mut first: Option<usize> = None;
    let mut with_hooks: Option<usize> = None;
    let mut i: usize = 0;
    let ghost all = offset_lines(text@);
    let ghost echo = wanted.echo();
    proof {
        lemma_offset_lines(text@);
    }
    while i < found.len()
        invariant
            i <= found@.len(),
            entries(found@) == all,
            echo == wanted.echo(),
            forall|j: int| 0 <= j < all.len() ==> stands_in(#[trigger] all[j], text@),
            offset_is(first, first_entry(all.take(i as int), echo)),
            offset_is(with_hooks, last_real_entry(text@, all.take(i as int), echo)),
            first matches Some(offset) ==> is_boundary(text@, offset as nat),
            with_hooks matches Some(offset) ==> is_boundary(text@, offset as nat),
        decreases found@.len() - i,
    {
        let (offset, line) = found[i];
        proof {
            assert(all.take(i + 1).drop_last() =~= all.take(i as int));
            assert(all[i as int] == (offset as nat, line@));
            assert(stands_in(all[i as int], text@));
        }
        if wanted.is_echo(line) {
            if first.is_none() {
                first = Some(offset);
            }
            if following_is_real_grok_turn(text, offset) {
                with_hooks = Some(offset);
            }
        }
        i = i + 1;
    }
    assert(all.take(i as int) =~= all);
    if with_hooks.is_some() {
        with_hooks
    } else {
        first
    }
}

/// The byte offset of the line at which the turn for `first_line` begins.
pub fn find_grok_prompt_offset(after: &str, first_line: &str) -> (r: Option<usize>)
    ensures
        offset_is(r, grok_turn_offset(after@, echo_of(first_line@))),
        r matches Some(offset) ==> is_boundary(after@, offset as nat),
{
    find_turn_offset(after, &Wanted::FirstLine(first_line))
}

/// The byte offset of the line at which the last turn of Grok begins, whatever its prompt.
pub fn find_any_grok_prompt_offset(text: &str) -> (r: Option<usize>)
    ensures
        offset_is(r, grok_turn_offset(text@, any_echo())),
        r matches Some(offset) ==> is_boundary(text@, offset as nat),
{
    find_turn_offset(text, &Wanted::Any)
}

/// Whether `found` is the offset `expected`.
pub open spec fn offset_is(found: Option<usize>, expected: Option<nat>) -> bool {
    match found {
        Some(offset) => expected == Some(offset as nat),
        None => expected is None,
    }
}

/// The lines outside the input box that show `marker` and then echo `expected`, white space
/// apart. A mark `> ` counts only with at most two blanks before it.
pub open spec fn marked_echo_of(expected: Seq<char>, marker: Seq<char>) -> spec_fn(
    Seq<char>,
) -> bool {
    |line: Seq<char>|
        {
            &&& !grok_input_box_line(line)
            &&& marker == "> "@ ==> leading_count(line, ' ') <= 2
            &&& has_prefix(trimmed_start(line), marker)
            &&& compacted(echo_text(line)).len() > 0
            &&& agree(expected, compacted(echo_text(line)))
        }
}

/// Where the last line of `t` begins that shows `marker` and then echoes `first_line`.
pub open spec fn marked_prompt_offset(
    t: Seq<char>,
    first_line: Seq<char>,
    marker: Seq<char>,
) -> Option<nat> {
    let expected = compacted(first_line);
    if expected.len() == 0 {
        None
    } else {
        last_entry(offset_lines(t), marked_echo_of(expected, marker))
    }
}

/// The byte offset of the last line that shows `marker` and then echoes `first_line`.
pub fn find_marked_prompt_offset(after: &str, first_line: &str, marker: &str) -> (r: Option<usize>)
    ensures
        offset_is(r, marked_prompt_offset(after@, first_line@, marker@)),
        r matches Some(offset) ==> is_boundary(after@, offset as nat),
{
    let expected = compact_chars(first_line);
    if expected.as_str().is_empty() {
        return None;
    }
    let lines_found = each_line(after);
    let plain_mark = same_text(marker, "> ");
    let mut found: Option<usize> = None;
    let mut i: usize = 0;
    let ghost all = offset_lines(after@);
    let ghost wanted = marked_echo_of(expected@, marker@);
    proof {
        lemma_offset_lines(after@);
    }
    while i < lines_found.len()
        invariant
            i <= lines_found@.len(),
            entries(lines_found@) == all,
            wanted == marked_echo_of(expected@, marker@),
            plain_mark == (marker@ == "> "@),
            forall|j: int| 0 <= j < all.len() ==> stands_in(#[trigger] all[j], after@),
            offset_is(found, last_entry(all.take(i as int), wanted)),
            found matches Some(offset) ==> is_boundary(after@, offset as nat),
        decreases lines_found@.len() - i,
    {
        let (offset, line) = lines_found[i];
        proof {
            assert(all.take(i + 1).drop_last() =~= all.take(i as int));
            assert(all[i as int] == (offset as nat, line@));
            assert(stands_in(all[i as int], after@));
        }
        if !is_grok_input_box_line(line) && !(plain_mark && count_leading(line, ' ') > 2)
            && starts_with(trim_start(line), marker) {
            let echoed = compact_chars(prompt_echo_text(line).as_str());
            if !echoed.as_str().is_empty() && (starts_with(expected.as_str(), echoed.as_str())
                || starts_with(echoed.as_str(), expected.as_str())) {
                found = Some(offset);
            }
        }
        i = i + 1;
    }
    assert(all.take(i as int) =~= all);
    found
}

/// Whether an echo was cut short: it ends with `…` or `...`.
pub open spec fn truncated_echo(t: Seq<char>) -> bool {
    let end = trimmed_end(t);
    has_suffix(end, "…"@) || has_suffix(end, "..."@)
}

/// Whether an echo was cut short.
pub fn is_truncated_prompt_echo(text: &str) -> (r: bool)
    ensures
        r == truncated_echo(text@),
{
    let trimmed = trim_end(text);
    ends_with(trimmed, "…") || ends_with(trimmed, "...")
}

/// Where the lines after `index` end that continue a prompt whose first line has `indent` blanks
/// before it: each has more blanks and is no line that an agent draws.
pub open spec fn wrapped_end(lines: Seq<Seq<char>>, indent: nat, index: nat) -> nat
    decreases lines.len() - index,
{
    if index >= lines.len() {
        index
    } else {
        let line = lines[index as int];
        if is_blank(line) || tui_separator(line) || grok_chrome_line(line) || leading_count(
            line,
            ' ',
        ) <= indent || begins_with(trimmed_start(line), '❯') {
            index
        } else {
            wrapped_end(lines, indent, index + 1)
        }
    }
}

/// How many lines a prompt takes, by the indentation of the lines that continue it.
pub open spec fn wrapped_prompt_lines(lines: Seq<Seq<char>>) -> nat {
    if lines.len() == 0 {
        0
    } else {
        wrapped_end(lines, leading_count(lines[0], ' '), 1)
    }
}

/// How many lines a prompt takes, by the indentation of the lines that continue it.
pub fn grok_skip_wrapped_prompt(lines: &[&str]) -> (r: usize)
    ensures
        r == wrapped_prompt_lines(lines.deep_view()),
        r <= lines@.len(),
{
    if lines.len() == 0 {
        return 0;
    }
    let ghost all = lines.deep_view();
    assert(all[0] == lines@[0]@);
    let indent: usize = count_leading(lines[0], ' ');
    let mut index: usize = 1;
    while index < lines.len()
        invariant
            1 <= index <= lines@.len(),
            all == lines.deep_view(),
            wrapped_end(all, indent as nat, index as nat) == wrapped_end(all, indent as nat, 1),
            indent == leading_count(all[0], ' '),
        decreases lines@.len() - index,
    {
        let line: &str = lines[index];
        assert(all[index as int] == line@);
        if blank(line) || is_tui_separator(line) || is_grok_chrome_line(line) || count_leading(
            line,
            ' ',
        ) <= indent || starts_with_char(trim_start(line), '❯') {
            return index;
        }
        index = index + 1;
    }
    index
}

/// What `piece` of an echo says of its prompt: its characters without white space and without the
/// marks of a cut.
pub open spec fn echoed_chars(piece: Seq<char>) -> Seq<char> {
    compacted(without_suffixes(trimmed_end_of(piece, CharSet::Only('…')), "..."@))
}

/// Where the echo of a prompt ends whose lines before `index` have said `seen`, of the
/// `expected` characters.
pub open spec fn echo_end_from(
    lines: Seq<Seq<char>>,
    expected: Seq<char>,
    index: nat,
    seen: Seq<char>,
) -> nat
    decreases lines.len() - index,
{
    if index >= lines.len() {
        if lines.len() == 0 {
            0
        } else {
            1
        }
    } else {
        let line = lines[index as int];
        let piece = echo_text(line);
        let now = seen + echoed_chars(piece);
        if index > 0 && (tui_separator(line) || grok_chrome_line(line)) {
            index
        } else if piece.len() == 0 {
            echo_end_from(lines, expected, index + 1, seen)
        } else if truncated_echo(piece) || has_prefix(now, expected) {
            index + 1
        } else if has_prefix(expected, now) {
            echo_end_from(lines, expected, index + 1, now)
        } else if index == 0 {
            1
        } else {
            index
        }
    }
}

/// How many lines the echo of `prompt` takes at the start of `lines`.
pub open spec fn echo_lines(lines: Seq<Seq<char>>, prompt: Seq<char>) -> nat {
    if compacted(prompt).len() == 0 {
        wrapped_prompt_lines(lines)
    } else {
        echo_end_from(lines, compacted(prompt), 0, Seq::empty())
    }
}

/// How many lines the echo of `prompt` takes at the start of `lines`.
pub fn consume_prompt_echo(lines: &[&str], prompt: &str) -> (r: usize)
    ensures
        r == echo_lines(lines.deep_view(), prompt@),
        r <= lines@.len(),
{
    let expected = compact_chars(prompt);
    if expected.as_str().is_empty() {
        return grok_skip_wrapped_prompt(lines);
    }
    let ghost all = lines.deep_view();
    let mut seen = String::new();
    let mut index: usize = 0;
    while index < lines.len()
        invariant
            index <= lines@.len(),
            all == lines.deep_view(),
            expected@ == compacted(prompt@),
            expected@.len() > 0,
            echo_end_from(all, expected@, index as nat, seen@) == echo_lines(all, prompt@),
        decreases lines@.len() - index,
    {
        let line: &str = lines[index];
        assert(all[index as int] == line@);
        if index > 0 && (is_tui_separator(line) || is_grok_chrome_line(line)) {
            return index;
        }
        let piece = grok_echo_text(line);
        if !piece.as_str().is_empty() {
            let whole = trim_end_text(
                trim_end_of(piece.as_str(), CharSet::Only('…')),
                "...",
            );
            let compact_piece = compact_chars(whole);
            seen.append(compact_piece.as_str());
            if is_truncated_prompt_echo(piece.as_str()) || starts_with(
                seen.as_str(),
                expected.as_str(),
            ) {
                return index + 1;
            }
            if !starts_with(expected.as_str(), seen.as_str()) {
                return if index == 0 {
                    1
                } else {
                    index
                };
            }
        }
        index = index + 1;
    }
    if lines.len() == 0 {
        0
    } else {
        1
    }
}

/// What follows the echo of `prompt` in `region`.
pub open spec fn after_prompt_echo(region: Seq<char>, prompt: Seq<char>) -> Seq<char> {
    joined_lines(lines_of(region).skip(echo_lines(lines_of(region), prompt) as int))
}

/// What follows the echo of `prompt` in `region`.
pub fn slice_after_prompt_echo(region: &str, prompt: &str) -> (r: String)
    ensures
        r@ == after_prompt_echo(region@, prompt@),
{
    let all = lines(region);
    let start: usize = consume_prompt_echo(all.as_slice(), prompt);
    let rest = vstd::slice::slice_subrange(all.as_slice(), start, all.len());
    assert(rest.deep_view() =~= all.deep_view().skip(start as int));
    join_lines(rest)
}

} // verus!
