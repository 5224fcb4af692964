//! What a line shows, told by its characters, decides what kind of line it is.

use crate::chars::{is_digit, is_white_space};
use crate::classify::{
    box_drawing_line, codex_prompt_line, codex_status_footer, codex_tool_or_notice,
    grok_chrome_line, grok_input_box_line, grok_mark, grok_status_bar, herdr_unwrap_duplicate,
    indented_code, leading_digits, markdown_block_start, ordered_list_item, outer_quote_frame,
    stands_alone, tui_separator,
};
use crate::response::{code_fence, codex_end, grok_end, legacy_marker};
use crate::text::{
    begins_with, has_prefix, has_text, is_blank, lemma_trimmed_end_of, lemma_trimmed_start,
    occurs_at, only_holds, trimmed, trimmed_start, CharSet,
};
use vstd::prelude::*;

verus! {

/// Whether nothing but white space stands in `line` before position `k`.
pub open spec fn blank_before(line: Seq<char>, k: int) -> bool {
    forall|i: int| 0 <= i < k ==> is_white_space(#[trigger] line[i])
}

/// Whether nothing but white space stands in `line` from position `k` on.
pub open spec fn blank_from(line: Seq<char>, k: int) -> bool {
    forall|i: int| k <= i < line.len() ==> is_white_space(#[trigger] line[i])
}

/// Whether `mark` stands in `line` at position `k`, with nothing but white space before it.
pub open spec fn mark_at(line: Seq<char>, mark: Seq<char>, k: int) -> bool {
    occurs_at(line, mark, k) && blank_before(line, k)
}

/// Whether what `line` shows begins with `mark`, white space before it apart.
pub open spec fn shows(line: Seq<char>, mark: Seq<char>) -> bool {
    exists|k: int| mark_at(line, mark, k)
}

/// Whether what `line` shows begins with `mark` and goes on with more than white space.
pub open spec fn shows_more(line: Seq<char>, mark: Seq<char>) -> bool {
    exists|k: int| #[trigger] mark_at(line, mark, k) && !blank_from(line, k + mark.len())
}

/// Whether `line` shows the characters `shown` and nothing else, white space around them apart.
pub open spec fn shows_only(line: Seq<char>, shown: Seq<char>) -> bool {
    exists|k: int| #[trigger] mark_at(line, shown, k) && blank_from(line, k + shown.len())
}

/// Where the text of a line begins and ends.
proof fn lemma_text_of(line: Seq<char>)
    ensures
        ({
            let k = line.len() - trimmed_start(line).len();
            let t = trimmed(line);
            &&& 0 <= k
            &&& trimmed_start(line) == line.skip(k)
            &&& blank_before(line, k)
            &&& k < line.len() ==> !is_white_space(line[k])
            &&& t.len() <= line.len() - k
            &&& t == line.subrange(k, k + t.len())
            &&& blank_from(line, k + t.len())
            &&& t.len() > 0 ==> !is_white_space(t[0]) && !is_white_space(t.last())
            &&& k < line.len() ==> t.len() > 0
        }),
{
    let begun = trimmed_start(line);
    let k = line.len() - begun.len();
    let t = trimmed(line);
    lemma_trimmed_start(line);
    lemma_trimmed_end_of(begun, CharSet::Space);
    assert(begun =~= line.skip(k));
    assert(t =~= begun.take(t.len() as int));
    assert(t =~= line.subrange(k, k + t.len()));
    assert forall|i: int| k + t.len() <= i < line.len() implies is_white_space(
        #[trigger] line[i],
    ) by {
        assert(begun[i - k] == line[i]);
        assert(CharSet::Space.contains(begun[i - k]));
    }
    if k < line.len() {
        assert(begun[0] == line[k]);
        if t.len() == 0 {
            assert(CharSet::Space.contains(begun[0]));
        } else {
            assert(t[0] == begun[0]);
        }
    }
}

/// A mark that begins with a character of the text stands where the text begins.
proof fn lemma_mark_place(line: Seq<char>, mark: Seq<char>, k: int)
    requires
        mark_at(line, mark, k),
        mark.len() > 0,
        !is_white_space(mark[0]),
    ensures
        k == line.len() - trimmed_start(line).len(),
{
    let start = line.len() - trimmed_start(line).len();
    lemma_text_of(line);
    assert(line.subrange(k, k + mark.len())[0] == line[k]);
    assert(!is_white_space(line[k]));
    if start < k {
        assert(is_white_space(line[start]));
    }
    if k < start {
        assert(is_white_space(line[k]));
    }
}

/// What a line shows first is what its text begins with.
pub proof fn lemma_shows(line: Seq<char>, mark: Seq<char>)
    requires
        mark.len() > 0,
        !is_white_space(mark[0]),
    ensures
        has_prefix(trimmed_start(line), mark) <==> shows(line, mark),
        !is_white_space(mark.last()) ==> (has_prefix(trimmed(line), mark) <==> shows(line, mark)),
        is_white_space(mark.last()) ==> (has_prefix(trimmed(line), mark) <==> shows_more(
            line,
            mark,
        )),
        trimmed(line) == mark ==> !is_white_space(mark.last()),
        !is_white_space(mark.last()) ==> (trimmed(line) == mark <==> shows_only(line, mark)),
{
    let begun = trimmed_start(line);
    let t = trimmed(line);
    let start = line.len() - begun.len();
    let n = mark.len() as int;
    lemma_text_of(line);
    if has_prefix(begun, mark) {
        assert(line.subrange(start, start + n) =~= begun.take(n));
        assert(mark_at(line, mark, start));
    }
    if has_prefix(t, mark) {
        assert(line.subrange(start, start + n) =~= t.take(n));
        assert(mark_at(line, mark, start));
        if is_white_space(mark.last()) {
            assert(t.take(n)[n - 1] == mark[n - 1]);
            assert(t.len() > n) by {
                if t.len() == n {
                    assert(t.last() == mark.last());
                }
            }
            assert(line[start + t.len() - 1] == t.last());
            assert(!blank_from(line, start + n));
        }
    }
    if t == mark {
        assert(t.last() == mark.last());
        assert(t.take(n) =~= mark);
    }
    assert forall|k: int| #[trigger] mark_at(line, mark, k) implies {
        &&& has_prefix(begun, mark)
        &&& !is_white_space(mark.last()) ==> has_prefix(t, mark)
        &&& !blank_from(line, k + n) ==> has_prefix(t, mark)
        &&& blank_from(line, k + n) && !is_white_space(mark.last()) ==> t == mark
    } by {
        lemma_mark_place(line, mark, k);
        assert(begun.take(n) =~= line.subrange(k, k + n));
        assert(line.subrange(k, k + n)[n - 1] == line[k + n - 1]);
        if !is_white_space(mark.last()) {
            if t.len() < n {
                assert(is_white_space(line[k + n - 1]));
            }
            assert(t.take(n) =~= line.subrange(k, k + n));
            if blank_from(line, k + n) {
                if t.len() > n {
                    assert(line[start + t.len() - 1] == t.last());
                    assert(is_white_space(line[start + t.len() - 1]));
                }
                assert(t =~= mark);
            }
        }
        if !blank_from(line, k + n) {
            let j = choose|j: int| k + n <= j < line.len() && !is_white_space(#[trigger] line[j]);
            if t.len() <= j - start {
                assert(is_white_space(line[j]));
            }
            assert(t.take(n) =~= line.subrange(k, k + n));
        }
    }
}

/// A character that is no white space stands in the text of a line if it stands in the line.
pub proof fn lemma_text_holds(line: Seq<char>, c: char)
    requires
        !is_white_space(c),
    ensures
        trimmed(line).contains(c) <==> line.contains(c),
        begins_with(trimmed(line), c) <==> shows(line, seq![c]),
        begins_with(trimmed_start(line), c) <==> shows(line, seq![c]),
{
    let t = trimmed(line);
    let begun = trimmed_start(line);
    let start = line.len() - begun.len();
    let mark = seq![c];
    lemma_text_of(line);
    lemma_shows(line, mark);
    if t.contains(c) {
        let i = choose|i: int| 0 <= i < t.len() && t[i] == c;
        assert(line[start + i] == c);
    }
    if line.contains(c) {
        let i = choose|i: int| 0 <= i < line.len() && line[i] == c;
        assert(start <= i < start + t.len()) by {
            if i < start {
                assert(is_white_space(line[i]));
            }
            if i >= start + t.len() {
                assert(is_white_space(line[i]));
            }
        }
        assert(t[i - start] == c);
    }
    if begins_with(t, c) {
        assert(t.take(1) =~= mark);
    }
    if begins_with(begun, c) {
        assert(begun.take(1) =~= mark);
    }
    if has_prefix(t, mark) {
        assert(t.take(1)[0] == c);
    }
    if has_prefix(begun, mark) {
        assert(begun.take(1)[0] == c);
    }
}

/// A part that begins with a character of the text stands in the text of a line if it stands in the
/// line; if it ends with white space, then if more than white space follows it there.
pub proof fn lemma_text_has(line: Seq<char>, part: Seq<char>)
    requires
        part.len() > 0,
        !is_white_space(part[0]),
    ensures
        !is_white_space(part.last()) ==> (has_text(trimmed(line), part) <==> has_text(line, part)),
        is_white_space(part.last()) ==> (has_text(trimmed(line), part) <==> exists|i: int|
            #[trigger] occurs_at(line, part, i) && !blank_from(line, i + part.len())),
{
    let t = trimmed(line);
    let start = line.len() - trimmed_start(line).len();
    let n = part.len() as int;
    lemma_text_of(line);
    if has_text(t, part) {
        let i = choose|i: int| occurs_at(t, part, i);
        assert(line.subrange(start + i, start + i + n) =~= t.subrange(i, i + n));
        assert(occurs_at(line, part, start + i));
        if is_white_space(part.last()) {
            assert(t.subrange(i, i + n)[n - 1] == t[i + n - 1]);
            assert(i + n < t.len());
            assert(line[start + t.len() - 1] == t.last());
            assert(!blank_from(line, start + i + n));
        }
    }
    assert forall|i: int| #[trigger] occurs_at(line, part, i) && (!is_white_space(part.last())
        || !blank_from(line, i + n)) implies has_text(t, part) by {
        assert(line.subrange(i, i + n)[0] == line[i]);
        assert(line.subrange(i, i + n)[n - 1] == line[i + n - 1]);
        if i < start {
            assert(is_white_space(line[i]));
        }
        if i + n > start + t.len() {
            if !is_white_space(part.last()) {
                assert(is_white_space(line[i + n - 1]));
            } else {
                assert(blank_from(line, i + n));
            }
        }
        assert(t.subrange(i - start, i - start + n) =~= line.subrange(i, i + n));
        assert(occurs_at(t, part, i - start));
    }
}

/// Whether `line` shows a rule of at least `least` strokes and nothing else.
pub open spec fn shows_rule(line: Seq<char>, least: int) -> bool {
    exists|k: int, n: int| #[trigger] rule_at(line, k, n) && n >= least
}

/// Whether `line` is a rule of `n` strokes from position `k` on, with white space around it.
pub open spec fn rule_at(line: Seq<char>, k: int, n: int) -> bool {
    &&& 0 <= k && 0 < n && k + n <= line.len()
    &&& blank_before(line, k)
    &&& forall|i: int| k <= i < k + n ==> #[trigger] line[i] == '─'
    &&& blank_from(line, k + n)
}

/// A separator is a line that tells how long an agent worked, one that asks for help or names a key,
/// the top of a box, or a rule of twenty strokes or more.
pub proof fn law_separators(line: Seq<char>)
    ensures
        tui_separator(line) <==> {
            ||| shows_more(line, "─ Worked for "@)
            ||| shows_more(line, "Worked for "@)
            ||| shows(line, "Help improve"@)
            ||| shows(line, seq!['╭'])
            ||| shows(line, "Shift+Tab"@)
            ||| shows_rule(line, 20)
        },
{
    reveal_strlit("─ Worked for ");
    reveal_strlit("Worked for ");
    reveal_strlit("Help improve");
    reveal_strlit("Shift+Tab");
    lemma_shows(line, "─ Worked for "@);
    lemma_shows(line, "Worked for "@);
    lemma_shows(line, "Help improve"@);
    lemma_shows(line, "Shift+Tab"@);
    lemma_text_holds(line, '╭');
    let t = trimmed(line);
    let start = line.len() - trimmed_start(line).len();
    lemma_text_of(line);
    if t.len() >= 20 && only_holds(t, '─') {
        assert forall|i: int| start <= i < start + t.len() implies #[trigger] line[i] == '─' by {
            assert(t[i - start] == line[i]);
        }
        assert(rule_at(line, start, t.len() as int));
    }
    if shows_rule(line, 20) {
        let (k, n) = choose|k: int, n: int| #[trigger] rule_at(line, k, n) && n >= 20;
        assert(line[k] == '─');
        assert(line[k + n - 1] == '─');
        assert(k == start) by {
            if start < k {
                assert(is_white_space(line[start]));
            }
        }
        assert(t.len() == n) by {
            if t.len() < n {
                assert(is_white_space(line[k + n - 1]));
            }
            if t.len() > n {
                assert(t.last() == line[start + t.len() - 1]);
            }
        }
        assert forall|i: int| 0 <= i < t.len() implies t[i] == '─' by {
            assert(t[i] == line[start + i]);
        }
    }
}

/// What Codex says ends with a line whose text begins with its prompt mark, or with the footer that
/// names a model or a directory beside a dot, and with no other.
pub proof fn law_end_of_codex(line: Seq<char>)
    ensures
        codex_prompt_line(line) <==> shows(line, seq!['›']),
        codex_status_footer(line) <==> line.contains('·') && (shows(line, "gpt-"@) || has_text(
            line,
            "~/"@,
        )),
        codex_end()(line) <==> shows(line, seq!['›']) || line.contains('·') && (shows(
            line,
            "gpt-"@,
        ) || has_text(line, "~/"@)),
{
    reveal_strlit("gpt-");
    reveal_strlit("~/");
    lemma_text_holds(line, '›');
    lemma_text_holds(line, '·');
    lemma_shows(line, "gpt-"@);
    lemma_text_has(line, "~/"@);
}

/// Tool calls and notices of Codex are told by how their line begins.
pub proof fn law_tools_of_codex(line: Seq<char>)
    ensures
        codex_tool_or_notice(line) <==> {
            ||| shows(line, "• Ran "@)
            ||| shows(line, "• Explored"@)
            ||| shows(line, "• Thought"@)
            ||| shows(line, "• Model changed"@)
            ||| shows(line, seq!['⚠'])
        },
{
    reveal_strlit("• Ran ");
    reveal_strlit("• Explored");
    reveal_strlit("• Thought");
    reveal_strlit("• Model changed");
    lemma_shows(line, "• Ran "@);
    lemma_shows(line, "• Explored"@);
    lemma_shows(line, "• Thought"@);
    lemma_shows(line, "• Model changed"@);
    lemma_text_holds(line, '⚠');
}

/// The lines that Grok draws around its answer are told by the characters that they show.
pub proof fn law_chrome_of_grok(line: Seq<char>)
    ensures
        grok_input_box_line(line) <==> {
            ||| shows(line, "│ ❯"@)
            ||| shows(line, "│❯"@)
            ||| shows(line, seq!['╭'])
            ||| shows(line, seq!['╰'])
        },
        grok_chrome_line(line) <==> {
            ||| shows(line, seq!['◆'])
            ||| shows(line, seq!['❙'])
            ||| shows(line, seq!['┃'])
            ||| shows(line, seq!['◈'])
            ||| shows_more(line, "Thought for "@)
            ||| shows_only(line, "▼"@)
            ||| shows_only(line, "▲"@)
        },
        herdr_unwrap_duplicate(line) <==> shows(line, seq!['┆']),
        outer_quote_frame(line) <==> (shows(line, seq!['┌']) || shows(line, seq!['└']))
            && !line.contains('┬') && !line.contains('┴'),
        grok_mark(line) <==> shows_more(line, "◆ "@) || shows_more(line, "Thought for "@),
{
    reveal_strlit("│ ❯");
    reveal_strlit("│❯");
    reveal_strlit("Thought for ");
    reveal_strlit("▼");
    reveal_strlit("▲");
    reveal_strlit("◆ ");
    lemma_shows(line, "│ ❯"@);
    lemma_shows(line, "│❯"@);
    lemma_shows(line, "Thought for "@);
    lemma_shows(line, "▼"@);
    lemma_shows(line, "▲"@);
    lemma_shows(line, "◆ "@);
    lemma_text_holds(line, '╭');
    lemma_text_holds(line, '╰');
    lemma_text_holds(line, '◆');
    lemma_text_holds(line, '❙');
    lemma_text_holds(line, '┃');
    lemma_text_holds(line, '◈');
    lemma_text_holds(line, '┆');
    lemma_text_holds(line, '┌');
    lemma_text_holds(line, '└');
    lemma_text_holds(line, '┬');
    lemma_text_holds(line, '┴');
}

/// The status bar of Grok shows how full its memory is, or a directory, or the scroll mark.
pub proof fn law_status_bar_of_grok(line: Seq<char>)
    ensures
        grok_status_bar(line) <==> {
            ||| (exists|i: int| #[trigger]
                occurs_at(line, "K / "@, i) && !blank_from(line, i + 4)) && (line.contains('✓')
                || line.contains('%'))
            ||| shows(line, seq!['~']) && line.contains('/')
            ||| line.contains('▲')
        },
{
    reveal_strlit("K / ");
    lemma_text_has(line, "K / "@);
    lemma_text_holds(line, '✓');
    lemma_text_holds(line, '%');
    lemma_text_holds(line, '~');
    lemma_text_holds(line, '/');
    lemma_text_holds(line, '▲');
}

/// What Grok says ends with a separator or with the box for the next prompt, and with nothing else.
pub proof fn law_end_of_grok(line: Seq<char>)
    ensures
        grok_end()(line) <==> {
            ||| shows_more(line, "─ Worked for "@)
            ||| shows_more(line, "Worked for "@)
            ||| shows(line, "Help improve"@)
            ||| shows(line, "Shift+Tab"@)
            ||| shows_rule(line, 20)
            ||| shows(line, "│ ❯"@)
            ||| shows(line, "│❯"@)
            ||| shows(line, seq!['╭'])
            ||| shows(line, seq!['╰'])
        },
{
    law_separators(line);
    law_chrome_of_grok(line);
}

/// Markers are lines whose text begins with one of two words; a fence is a line whose text begins
/// with three backquotes or tildes.
pub proof fn law_markers_and_fences(line: Seq<char>)
    ensures
        legacy_marker(line) <==> shows(line, "COKACDIR_RESPONSE_BEGIN_"@) || shows(
            line,
            "COKACDIR_RESPONSE_END_"@,
        ),
        code_fence(line) <==> shows(line, "```"@) || shows(line, "~~~"@),
{
    reveal_strlit("COKACDIR_RESPONSE_BEGIN_");
    reveal_strlit("COKACDIR_RESPONSE_END_");
    reveal_strlit("```");
    reveal_strlit("~~~");
    lemma_shows(line, "COKACDIR_RESPONSE_BEGIN_"@);
    lemma_shows(line, "COKACDIR_RESPONSE_END_"@);
    lemma_shows(line, "```"@);
    lemma_shows(line, "~~~"@);
}

/// Whether what `line` shows begins with a stroke of a frame or a table.
pub open spec fn shows_frame(line: Seq<char>) -> bool {
    ||| shows(line, seq!['┌'])
    ||| shows(line, seq!['┐'])
    ||| shows(line, seq!['└'])
    ||| shows(line, seq!['┘'])
    ||| shows(line, seq!['├'])
    ||| shows(line, seq!['┤'])
    ||| shows(line, seq!['┬'])
    ||| shows(line, seq!['┴'])
    ||| shows(line, seq!['┼'])
    ||| shows(line, seq!['│'])
    ||| shows(line, seq!['─'])
    ||| shows(line, seq!['╭'])
    ||| shows(line, seq!['╮'])
    ||| shows(line, seq!['╰'])
    ||| shows(line, seq!['╯'])
}

proof fn lemma_shows_frame(line: Seq<char>)
    ensures
        box_drawing_line(line) <==> shows_frame(line),
        box_drawing_line(trimmed_start(line)) <==> shows_frame(line),
{
    lemma_text_of(line);
    let begun = trimmed_start(line);
    assert(trimmed_start(begun) == begun) by {
        if begun.len() > 0 {
            assert(begun[0] == line[line.len() - begun.len()]);
        }
    }
    lemma_text_holds(line, '┌');
    lemma_text_holds(line, '┐');
    lemma_text_holds(line, '└');
    lemma_text_holds(line, '┘');
    lemma_text_holds(line, '├');
    lemma_text_holds(line, '┤');
    lemma_text_holds(line, '┬');
    lemma_text_holds(line, '┴');
    lemma_text_holds(line, '┼');
    lemma_text_holds(line, '│');
    lemma_text_holds(line, '─');
    lemma_text_holds(line, '╭');
    lemma_text_holds(line, '╮');
    lemma_text_holds(line, '╰');
    lemma_text_holds(line, '╯');
}

/// Whether `line` shows a number of `n` digits from position `k` on, then a full stop or a bracket,
/// and a blank.
pub open spec fn number_at(line: Seq<char>, k: int, n: int) -> bool {
    &&& 0 <= k && 0 < n && k + n + 2 <= line.len()
    &&& blank_before(line, k)
    &&& forall|i: int| k <= i < k + n ==> is_digit(#[trigger] line[i])
    &&& line[k + n] == '.' || line[k + n] == ')'
    &&& line[k + n + 1] == ' '
}

proof fn lemma_leading_digits(t: Seq<char>)
    ensures
        leading_digits(t) <= t.len(),
        forall|i: int| 0 <= i < leading_digits(t) ==> is_digit(#[trigger] t[i]),
        leading_digits(t) < t.len() ==> !is_digit(t[leading_digits(t) as int]),
    decreases t.len(),
{
    if t.len() > 0 && is_digit(t[0]) {
        let rest = t.drop_first();
        lemma_leading_digits(rest);
        assert forall|i: int| 0 <= i < leading_digits(t) implies is_digit(#[trigger] t[i]) by {
            if i > 0 {
                assert(t[i] == rest[i - 1]);
            }
        }
    }
}

proof fn lemma_numbered(line: Seq<char>)
    ensures
        ordered_list_item(trimmed_start(line)) <==> exists|k: int, n: int| number_at(line, k, n),
{
    reveal_strlit(". ");
    reveal_strlit(") ");
    let t = trimmed_start(line);
    let start = line.len() - t.len();
    let digits = leading_digits(t) as int;
    let rest = t.skip(digits);
    lemma_text_of(line);
    lemma_leading_digits(t);
    if ordered_list_item(t) {
        assert(rest.take(2)[0] == rest[0] && rest.take(2)[1] == rest[1]);
        assert(rest[0] == line[start + digits]);
        assert(rest[1] == line[start + digits + 1]);
        assert forall|i: int| start <= i < start + digits implies is_digit(#[trigger] line[i]) by {
            assert(t[i - start] == line[i]);
        }
        assert(number_at(line, start, digits));
    }
    if exists|k: int, n: int| number_at(line, k, n) {
        let (k, n) = choose|k: int, n: int| number_at(line, k, n);
        assert(is_digit(line[k]));
        assert(k == start) by {
            if start < k {
                assert(is_white_space(line[start]));
            }
            if k < start {
                assert(is_white_space(line[k]));
            }
        }
        assert(t[n] == line[k + n]);
        assert(digits == n) by {
            if digits < n {
                assert(is_digit(line[k + digits]));
                assert(t[digits] == line[k + digits]);
            }
            if digits > n {
                assert(is_digit(t[n]));
            }
        }
        assert(rest[0] == line[k + n] && rest[1] == line[k + n + 1]);
        if line[k + n] == '.' {
            assert(rest.take(2) =~= ". "@);
        } else {
            assert(rest.take(2) =~= ") "@);
        }
    }
}

/// Whether `line` is indented by a tab or by four blanks.
pub open spec fn far_indented(line: Seq<char>) -> bool {
    ||| line.len() >= 1 && line[0] == '\t'
    ||| line.len() >= 4 && line[0] == ' ' && line[1] == ' ' && line[2] == ' ' && line[3] == ' '
}

proof fn lemma_far_indented(line: Seq<char>)
    ensures
        indented_code(line) <==> far_indented(line),
{
    reveal_strlit("    ");
    if has_prefix(line, "    "@) {
        assert(line.take(4)[0] == line[0] && line.take(4)[1] == line[1]);
        assert(line.take(4)[2] == line[2] && line.take(4)[3] == line[3]);
    }
    if line.len() >= 4 && line[0] == ' ' && line[1] == ' ' && line[2] == ' ' && line[3] == ' ' {
        assert(line.take(4) =~= "    "@);
    }
}

/// A Markdown block begins with a fence, a heading, a list item, a quotation, a table, a frame,
/// indented code or a numbered item, and with nothing else.
pub proof fn law_markdown_blocks(line: Seq<char>)
    ensures
        markdown_block_start(line) <==> {
            ||| shows(line, "```"@)
            ||| shows(line, "~~~"@)
            ||| shows(line, "# "@)
            ||| shows(line, "## "@)
            ||| shows(line, "### "@)
            ||| shows(line, "#### "@)
            ||| shows(line, "##### "@)
            ||| shows(line, "###### "@)
            ||| shows(line, "- "@)
            ||| shows(line, "* "@)
            ||| shows(line, "+ "@)
            ||| shows(line, "• "@)
            ||| shows(line, "> "@)
            ||| shows(line, seq!['|'])
            ||| shows_frame(line)
            ||| far_indented(line)
            ||| (exists|k: int, n: int| number_at(line, k, n))
        },
{
    reveal_strlit("```");
    reveal_strlit("~~~");
    reveal_strlit("# ");
    reveal_strlit("## ");
    reveal_strlit("### ");
    reveal_strlit("#### ");
    reveal_strlit("##### ");
    reveal_strlit("###### ");
    reveal_strlit("- ");
    reveal_strlit("* ");
    reveal_strlit("+ ");
    reveal_strlit("• ");
    reveal_strlit("> ");
    lemma_shows(line, "```"@);
    lemma_shows(line, "~~~"@);
    lemma_shows(line, "# "@);
    lemma_shows(line, "## "@);
    lemma_shows(line, "### "@);
    lemma_shows(line, "#### "@);
    lemma_shows(line, "##### "@);
    lemma_shows(line, "###### "@);
    lemma_shows(line, "- "@);
    lemma_shows(line, "* "@);
    lemma_shows(line, "+ "@);
    lemma_shows(line, "• "@);
    lemma_shows(line, "> "@);
    lemma_text_holds(line, '|');
    lemma_shows_frame(line);
    lemma_far_indented(line);
    lemma_numbered(line);
}

/// Nothing is put behind a heading, a quotation, a table, a fence, a frame or indented code.
pub proof fn law_lines_that_stand_alone(line: Seq<char>)
    ensures
        stands_alone(line) <==> {
            ||| shows(line, seq!['#'])
            ||| shows(line, seq!['>'])
            ||| shows(line, seq!['|'])
            ||| shows(line, "```"@)
            ||| shows(line, "~~~"@)
            ||| shows_frame(line)
            ||| far_indented(line)
        },
{
    reveal_strlit("```");
    reveal_strlit("~~~");
    lemma_shows(line, "```"@);
    lemma_shows(line, "~~~"@);
    lemma_text_holds(line, '#');
    lemma_text_holds(line, '>');
    lemma_text_holds(line, '|');
    lemma_shows_frame(line);
    lemma_far_indented(line);
}

/// A line is blank if and only if it holds nothing but white space.
pub proof fn law_blank_lines(line: Seq<char>)
    ensures
        is_blank(line) <==> blank_from(line, 0),
        is_blank(line) <==> blank_before(line, line.len() as int),
{
    lemma_text_of(line);
    let start = line.len() - trimmed_start(line).len();
    if start < line.len() {
        assert(!is_white_space(line[start]));
    }
}

} // verus!
