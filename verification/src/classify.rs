//! What a single line of a terminal screen is.

use crate::chars::{chars_of, is_digit, split_chars};
use crate::lines::{lines, lines_of};
use crate::text::{
    begins_with, contains_char, contains_text, has_prefix, has_text, holds_only, only_holds,
    same_text, starts_with, starts_with_char, trim, trim_start, trimmed, trimmed_start,
};
use vstd::prelude::*;

verus! {

/// A line that ends what an agent says: the closing line of a turn, the frame of the input
/// box, the hints below it, or a rule of at least 20 dashes.
pub open spec fn tui_separator(line: Seq<char>) -> bool {
    let t = trimmed(line);
    ||| has_prefix(t, "─ Worked for "@)
    ||| has_prefix(t, "Worked for "@)
    ||| has_prefix(t, "Help improve"@)
    ||| begins_with(t, '╭')
    ||| has_prefix(t, "Shift+Tab"@)
    ||| t.len() >= 20 && only_holds(t, '─')
}

/// Whether `line` ends what an agent says.
pub fn is_tui_separator(line: &str) -> (r: bool)
    ensures
        r == tui_separator(line@),
{
    let line = trim(line);
    starts_with(line, "─ Worked for ") || starts_with(line, "Worked for ") || starts_with(
        line,
        "Help improve",
    ) || starts_with_char(line, '╭') || starts_with(line, "Shift+Tab") || (line.unicode_len() >= 20
        && holds_only(line, '─'))
}

/// A line on which Codex shows a prompt.
pub open spec fn codex_prompt_line(line: Seq<char>) -> bool {
    begins_with(trimmed_start(line), '›')
}

/// Whether Codex shows a prompt on `line`.
pub fn is_codex_prompt_line(line: &str) -> (r: bool)
    ensures
        r == codex_prompt_line(line@),
{
    starts_with_char(trim_start(line), '›')
}

/// The line below the Codex prompt that names the model and the directory.
pub open spec fn codex_status_footer(line: Seq<char>) -> bool {
    let t = trimmed(line);
    t.contains('·') && (has_prefix(t, "gpt-"@) || has_text(t, "~/"@))
}

/// Whether `line` names the model and the directory of Codex.
pub fn is_codex_status_footer(line: &str) -> (r: bool)
    ensures
        r == codex_status_footer(line@),
{
    let trimmed = trim(line);
    (starts_with(trimmed, "gpt-") && contains_char(trimmed, '·')) || (contains_text(trimmed, "~/")
        && contains_char(trimmed, '·'))
}

/// A line on which Codex reports a tool or a notice.
pub open spec fn codex_tool_or_notice(line: Seq<char>) -> bool {
    let t = trimmed_start(line);
    ||| has_prefix(t, "• Ran "@)
    ||| has_prefix(t, "• Explored"@)
    ||| has_prefix(t, "• Thought"@)
    ||| has_prefix(t, "• Model changed"@)
    ||| begins_with(t, '⚠')
}

/// Whether Codex reports a tool or a notice on `line`.
pub fn is_codex_tool_or_notice(line: &str) -> (r: bool)
    ensures
        r == codex_tool_or_notice(line@),
{
    let trimmed = trim_start(line);
    starts_with(trimmed, "• Ran ") || starts_with(trimmed, "• Explored") || starts_with(
        trimmed,
        "• Thought",
    ) || starts_with(trimmed, "• Model changed") || starts_with_char(trimmed, '⚠')
}

/// The characters that frames and tables are drawn with.
pub open spec fn is_box_drawing(c: char) -> bool {
    ||| c == '┌'
    ||| c == '┐'
    ||| c == '└'
    ||| c == '┘'
    ||| c == '├'
    ||| c == '┤'
    ||| c == '┬'
    ||| c == '┴'
    ||| c == '┼'
    ||| c == '│'
    ||| c == '─'
    ||| c == '╭'
    ||| c == '╮'
    ||| c == '╰'
    ||| c == '╯'
}

/// A line of a frame or a table.
pub open spec fn box_drawing_line(line: Seq<char>) -> bool {
    let t = trimmed_start(line);
    t.len() > 0 && is_box_drawing(t[0])
}

/// Whether `line` belongs to a frame or a table.
pub fn is_box_drawing_line(line: &str) -> (r: bool)
    ensures
        r == box_drawing_line(line@),
{
    let trimmed = trim_start(line);
    let mut chars = trimmed.chars();
    match chars.next() {
        Some(c) => c == '┌' || c == '┐' || c == '└' || c == '┘' || c == '├' || c == '┤' || c == '┬'
            || c == '┴' || c == '┼' || c == '│' || c == '─' || c == '╭' || c == '╮' || c == '╰' || c
            == '╯',
        None => false,
    }
}

/// A line of the box in which Grok takes its next prompt.
pub open spec fn grok_input_box_line(line: Seq<char>) -> bool {
    let t = trimmed_start(line);
    ||| has_prefix(t, "│ ❯"@)
    ||| has_prefix(t, "│❯"@)
    ||| begins_with(t, '╭')
    ||| begins_with(t, '╰')
}

/// Whether `line` belongs to the box in which Grok takes its next prompt.
pub fn is_grok_input_box_line(line: &str) -> (r: bool)
    ensures
        r == grok_input_box_line(line@),
{
    let trimmed = trim_start(line);
    starts_with(trimmed, "│ ❯") || starts_with(trimmed, "│❯") || starts_with_char(trimmed, '╭')
        || starts_with_char(trimmed, '╰')
}

/// A line that Grok draws around its answer: tools, thoughts, and scroll marks.
pub open spec fn grok_chrome_line(line: Seq<char>) -> bool {
    let t = trimmed(line);
    ||| begins_with(t, '◆')
    ||| begins_with(t, '❙')
    ||| begins_with(t, '┃')
    ||| begins_with(t, '◈')
    ||| has_prefix(t, "Thought for "@)
    ||| t == "▼"@
    ||| t == "▲"@
}

/// Whether Grok draws `line` around its answer.
pub fn is_grok_chrome_line(line: &str) -> (r: bool)
    ensures
        r == grok_chrome_line(line@),
{
    let trimmed = trim(line);
    starts_with_char(trimmed, '◆') || starts_with_char(trimmed, '❙') || starts_with_char(
        trimmed,
        '┃',
    ) || starts_with_char(trimmed, '◈') || starts_with(trimmed, "Thought for ") || same_text(
        trimmed,
        "▼",
    ) || same_text(trimmed, "▲")
}

/// The line on which Grok shows its directory and how much of its context is used.
pub open spec fn grok_status_bar(line: Seq<char>) -> bool {
    let t = trimmed(line);
    ||| has_text(t, "K / "@) && (t.contains('✓') || t.contains('%'))
    ||| begins_with(t, '~') && t.contains('/')
    ||| t.contains('▲')
}

/// Whether Grok shows its status on `line`.
pub fn is_grok_status_bar(line: &str) -> (r: bool)
    ensures
        r == grok_status_bar(line@),
{
    let trimmed = trim(line);
    (contains_text(trimmed, "K / ") && (contains_char(trimmed, '✓') || contains_char(trimmed, '%')))
        || (starts_with_char(trimmed, '~') && contains_char(trimmed, '/')) || contains_char(
        trimmed,
        '▲',
    )
}

/// A line that Herdr repeats when it undoes the wrapping of the terminal.
pub open spec fn herdr_unwrap_duplicate(line: Seq<char>) -> bool {
    begins_with(trimmed_start(line), '┆')
}

/// Whether Herdr repeats `line` from the wrapped screen.
pub fn is_herdr_unwrap_duplicate(line: &str) -> (r: bool)
    ensures
        r == herdr_unwrap_duplicate(line@),
{
    starts_with_char(trim_start(line), '┆')
}

/// The first or the last line of a frame that has no columns.
pub open spec fn outer_quote_frame(line: Seq<char>) -> bool {
    let t = trimmed(line);
    &&& begins_with(t, '┌') || begins_with(t, '└')
    &&& !t.contains('┬')
    &&& !t.contains('┴')
}

/// Whether `line` opens or closes a frame that has no columns.
pub fn is_outer_quote_frame(line: &str) -> (r: bool)
    ensures
        r == outer_quote_frame(line@),
{
    let trimmed = trim(line);
    let starts_frame = starts_with_char(trimmed, '┌') || starts_with_char(trimmed, '└');
    starts_frame && !contains_char(trimmed, '┬') && !contains_char(trimmed, '┴')
}

/// A line that only Grok writes.
pub open spec fn grok_mark(line: Seq<char>) -> bool {
    let t = trimmed(line);
    has_prefix(t, "◆ "@) || has_prefix(t, "Thought for "@)
}

fn is_grok_mark(line: &str) -> (r: bool)
    ensures
        r == grok_mark(line@),
{
    let trimmed = trim(line);
    starts_with(trimmed, "◆ ") || starts_with(trimmed, "Thought for ")
}

/// A screen of Grok: it shows a mark of Grok, and no line of it is a Codex prompt.
pub open spec fn grok_tui(t: Seq<char>) -> bool {
    &&& t.contains('❯') || exists|i: int|
        0 <= i < lines_of(t).len() && grok_mark(#[trigger] lines_of(t)[i])
    &&& forall|i: int|
        0 <= i < lines_of(t).len() ==> !codex_prompt_line(#[trigger] lines_of(t)[i])
}

/// Whether `text` is a screen of Grok.
pub fn looks_like_grok_tui(text: &str) -> (r: bool)
    ensures
        r == grok_tui(text@),
{
    let all = lines(text);
    let mut grok_marks = contains_char(text, '❯');
    let mut i: usize = 0;
    while i < all.len()
        invariant
            i <= all@.len(),
            all.deep_view() == lines_of(text@),
            grok_marks == (text@.contains('❯') || exists|j: int|
                0 <= j < i && grok_mark(#[trigger] lines_of(text@)[j])),
            forall|j: int| 0 <= j < i ==> !codex_prompt_line(#[trigger] lines_of(text@)[j]),
        decreases all@.len() - i,
    {
        let line: &str = all[i];
        assert(lines_of(text@)[i as int] == line@);
        if is_codex_prompt_line(line) {
            return false;
        }
        if is_grok_mark(line) {
            grok_marks = true;
        }
        i = i + 1;
    }
    grok_marks
}

/// How many decimal digits `t` begins with.
pub open spec fn leading_digits(t: Seq<char>) -> nat
    decreases t.len(),
{
    if t.len() > 0 && is_digit(t[0]) {
        1 + leading_digits(t.drop_first())
    } else {
        0
    }
}

/// An item of a numbered list: a number, then `. ` or `) `.
pub open spec fn ordered_list_item(line: Seq<char>) -> bool {
    let rest = line.skip(leading_digits(line) as int);
    leading_digits(line) > 0 && (has_prefix(rest, ". "@) || has_prefix(rest, ") "@))
}

/// Whether `line` is an item of a numbered list.
pub fn is_ordered_list_item(line: &str) -> (r: bool)
    ensures
        r == ordered_list_item(line@),
{
    let chars = chars_of(line);
    let mut digits: usize = 0;
    assert(line@.skip(0) =~= line@);
    while digits < chars.len() && '0' <= chars[digits] && chars[digits] <= '9'
        invariant
            digits <= chars@.len(),
            chars@ == line@,
            leading_digits(line@) == digits + leading_digits(line@.skip(digits as int)),
        decreases chars@.len() - digits,
    {
        assert(line@.skip(digits as int).drop_first() =~= line@.skip(digits + 1));
        digits = digits + 1;
    }
    let suffix = split_chars(line, digits).1;
    digits > 0 && (starts_with(suffix, ". ") || starts_with(suffix, ") "))
}

/// A line of code by its indentation: it begins with a tab or four blanks.
pub open spec fn indented_code(line: Seq<char>) -> bool {
    begins_with(line, '\t') || has_prefix(line, "    "@)
}

/// A line with which a block of Markdown begins.
pub open spec fn markdown_block_start(line: Seq<char>) -> bool {
    let t = trimmed_start(line);
    ||| has_prefix(t, "```"@)
    ||| has_prefix(t, "~~~"@)
    ||| has_prefix(t, "# "@)
    ||| has_prefix(t, "## "@)
    ||| has_prefix(t, "### "@)
    ||| has_prefix(t, "#### "@)
    ||| has_prefix(t, "##### "@)
    ||| has_prefix(t, "###### "@)
    ||| has_prefix(t, "- "@)
    ||| has_prefix(t, "* "@)
    ||| has_prefix(t, "+ "@)
    ||| has_prefix(t, "• "@)
    ||| has_prefix(t, "> "@)
    ||| begins_with(t, '|')
    ||| box_drawing_line(t)
    ||| indented_code(line)
    ||| ordered_list_item(t)
}

/// Whether a block of Markdown begins with `line`.
pub fn is_markdown_block_start(line: &str) -> (r: bool)
    ensures
        r == markdown_block_start(line@),
{
    let is_indented_code = starts_with_char(line, '\t') || starts_with(line, "    ");
    let line = trim_start(line);
    starts_with(line, "```") || starts_with(line, "~~~") || starts_with(line, "# ") || starts_with(
        line,
        "## ",
    ) || starts_with(line, "### ") || starts_with(line, "#### ") || starts_with(line, "##### ")
        || starts_with(line, "###### ") || starts_with(line, "- ") || starts_with(line, "* ")
        || starts_with(line, "+ ") || starts_with(line, "• ") || starts_with(line, "> ")
        || starts_with_char(line, '|') || is_box_drawing_line(line) || is_indented_code
        || is_ordered_list_item(line)
}

/// A line that the next line does not continue: a heading, a quotation, a table, a fence, a
/// frame, or code.
pub open spec fn stands_alone(line: Seq<char>) -> bool {
    let t = trimmed_start(line);
    ||| begins_with(t, '#')
    ||| begins_with(t, '>')
    ||| begins_with(t, '|')
    ||| has_prefix(t, "```"@)
    ||| has_prefix(t, "~~~"@)
    ||| box_drawing_line(t)
    ||| indented_code(line)
}

/// Whether the next line does not continue `line`.
pub fn prevents_wrapped_continuation(line: &str) -> (r: bool)
    ensures
        r == stands_alone(line@),
{
    let is_indented_code = starts_with_char(line, '\t') || starts_with(line, "    ");
    let line = trim_start(line);
    starts_with_char(line, '#') || starts_with_char(line, '>') || starts_with_char(line, '|')
        || starts_with(line, "```") || starts_with(line, "~~~") || is_box_drawing_line(line)
        || is_indented_code
}

} // verus!
