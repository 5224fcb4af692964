//! Which lines of a screen come into an answer, and how.

use crate::answer_laws::lemma_nothing_is_marked;
use crate::chars::{is_digit, is_white_space};
use crate::classify::{
    codex_prompt_line, grok_chrome_line, grok_mark, grok_status_bar, grok_tui,
    herdr_unwrap_duplicate, outer_quote_frame,
};
use crate::classify_laws::{
    blank_from, far_indented, law_blank_lines, law_chrome_of_grok, law_end_of_codex,
    law_lines_that_stand_alone, law_markdown_blocks, law_markers_and_fences, law_status_bar_of_grok,
    law_tools_of_codex, lemma_text_holds, mark_at, number_at, shows, shows_frame, shows_more,
};
use crate::clock::{law_padded_clock_is_stripped, without_clock, without_gutter};
use crate::grok_line::{cleaned_line, inside_frame, unquoted_line};
use crate::line_laws::{law_joined_lines_are_lines, lemma_joined_first, one_line, one_line_each};
use crate::lines::{
    joined_lines, lemma_line_end, lemma_lines_before, line_end, lines_before, lines_of,
};
use crate::preview::preview_of;
use crate::response::{
    codex_answer, codex_end, codex_response, final_response, grok_answer, grok_response,
    unless_blank, unmarked, unwrapped, unwrapped_text, without_last_gaps, without_markers,
};
use crate::response_laws::{lemma_trimmed_last, no_markers};
use crate::text::{
    count_of, has_text, is_blank, law_trimming_is_final, lemma_trimmed_end_of,
    lemma_trimmed_end_of_padding, lemma_trimmed_start_padding, occurs_at, only_holds, trimmed,
    trimmed_end, trimmed_end_of, trimmed_start, CharSet,
};
use vstd::prelude::*;

verus! {

/// Lines are read until the first at which they stop, and none before it is left out.
pub proof fn law_lines_before_a_stop(lines: Seq<Seq<char>>, stop: spec_fn(Seq<char>) -> bool)
    ensures
        lines_before(lines, stop).len() <= lines.len(),
        lines_before(lines, stop) == lines.take(lines_before(lines, stop).len() as int),
        forall|i: int| 0 <= i < lines_before(lines, stop).len() ==> !stop(#[trigger] lines[i]),
        lines_before(lines, stop).len() < lines.len() ==> stop(
            lines[lines_before(lines, stop).len() as int],
        ),
    decreases lines.len(),
{
    let found = lines_before(lines, stop);
    if lines.len() > 0 && !stop(lines[0]) {
        let rest = lines.drop_first();
        law_lines_before_a_stop(rest, stop);
        assert(found =~= lines.take(found.len() as int)) by {
            assert forall|i: int| 0 <= i < found.len() implies found[i] == lines[i] by {
                if i > 0 {
                    assert(found[i] == lines_before(rest, stop)[i - 1]);
                    assert(rest[i - 1] == lines[i]);
                }
            }
        }
        assert forall|i: int| 0 <= i < found.len() implies !stop(#[trigger] lines[i]) by {
            if i > 0 {
                assert(!stop(rest[i - 1]));
            }
        }
    } else {
        assert(found =~= lines.take(0));
    }
}

/// Whether Codex says something on `line`: it is indented or has a bullet, and is no tool call and no
/// notice.
pub open spec fn codex_says(line: Seq<char>) -> bool {
    &&& line.len() > 0 && (line[0] == ' ' || line[0] == '\t') || shows(line, seq!['•'])
    &&& !shows(line, "• Ran "@)
    &&& !shows(line, "• Explored"@)
    &&& !shows(line, "• Thought"@)
    &&& !shows(line, "• Model changed"@)
    &&& !shows(line, seq!['⚠'])
}

/// Each further line adds to an answer of Codex what Codex says on it, or a gap if it is blank and
/// not indented, or nothing.
pub proof fn law_codex_line_by_line(lines: Seq<Seq<char>>, line: Seq<char>)
    ensures
        codex_says(line) ==> codex_answer(lines.push(line)) == codex_answer(lines).push(
            trimmed_start(line),
        ),
        !codex_says(line) && blank_from(line, 0) ==> codex_answer(lines.push(line))
            == codex_answer(lines).push(Seq::empty()),
        !codex_says(line) && !blank_from(line, 0) ==> codex_answer(lines.push(line))
            == codex_answer(lines),
{
    reveal_strlit("• Ran ");
    reveal_strlit("• Explored");
    reveal_strlit("• Thought");
    reveal_strlit("• Model changed");
    assert(lines.push(line).drop_last() =~= lines);
    assert(lines.push(line).last() == line);
    law_tools_of_codex(line);
    lemma_text_holds(line, '•');
    law_blank_lines(line);
    if blank_from(line, 0) {
        lemma_blank_shows_nothing(line, "• Ran "@);
        lemma_blank_shows_nothing(line, "• Explored"@);
        lemma_blank_shows_nothing(line, "• Thought"@);
        lemma_blank_shows_nothing(line, "• Model changed"@);
        lemma_blank_shows_nothing(line, seq!['⚠']);
    }
}

proof fn lemma_blank_shows_nothing(line: Seq<char>, mark: Seq<char>)
    requires
        blank_from(line, 0),
        mark.len() > 0,
        !is_white_space(mark[0]),
    ensures
        !shows(line, mark),
{
    assert forall|k: int| !(#[trigger] mark_at(line, mark, k)) by {
        if mark_at(line, mark, k) {
            assert(line.subrange(k, k + mark.len())[0] == line[k]);
            assert(is_white_space(line[k]));
        }
    }
}

/// Everything that Codex says on a line stands in its answer.
pub proof fn law_codex_answer_is_complete(lines: Seq<Seq<char>>, at: int)
    requires
        0 <= at < lines.len(),
        codex_says(lines[at]),
    ensures
        codex_answer(lines).contains(trimmed_start(lines[at])),
    decreases lines.len(),
{
    let shorter = lines.drop_last();
    let said = trimmed_start(lines[at]);
    law_codex_line_by_line(shorter, lines.last());
    assert(shorter.push(lines.last()) =~= lines);
    let before = codex_answer(shorter);
    if at < shorter.len() {
        assert(shorter[at] == lines[at]);
        law_codex_answer_is_complete(shorter, at);
        let i = choose|i: int| 0 <= i < before.len() && before[i] == said;
        assert(codex_answer(lines)[i] == said);
    } else {
        assert(codex_answer(lines)[before.len() as int] == said);
    }
}

/// Codex is read until its next prompt or its footer: what stands behind that does not matter, and
/// everything before it does.
pub proof fn law_codex_is_read_until_its_end(said: Seq<Seq<char>>, rest: Seq<Seq<char>>)
    requires
        one_line_each(said),
        one_line_each(rest),
        forall|i: int| #![trigger said[i]]
            0 <= i < said.len() ==> !shows(said[i], seq!['›']) && !(said[i].contains('·') && (shows(
                said[i],
                "gpt-"@,
            ) || has_text(said[i], "~/"@))),
        rest.len() > 0,
        shows(rest[0], seq!['›']) || rest[0].contains('·') && (shows(rest[0], "gpt-"@) || has_text(
            rest[0],
            "~/"@,
        )),
    ensures
        codex_response(joined_lines(said + rest)) == unless_blank(
            without_markers(joined_lines(codex_answer(said))),
        ),
{
    let all = said + rest;
    assert forall|i: int| 0 <= i < all.len() implies one_line(#[trigger] all[i]) by {
        if i < said.len() {
            assert(all[i] == said[i]);
        } else {
            assert(all[i] == rest[i - said.len()]);
        }
    }
    law_joined_lines_are_lines(all);
    law_end_of_codex(rest[0]);
    let read = lines_of(joined_lines(all));
    assert(rest[0].len() > 0) by {
        if rest[0].len() == 0 {
            assert(!rest[0].contains('·'));
            lemma_blank_shows_nothing(rest[0], seq!['›']);
        }
    }
    assert(read.len() > said.len());
    assert forall|i: int| 0 <= i < said.len() implies !codex_end()(#[trigger] read[i]) by {
        assert(read[i] == said[i]);
        law_end_of_codex(said[i]);
    }
    assert(read[said.len() as int] == rest[0]);
    lemma_lines_before(read, codex_end(), said.len() as int);
    assert(read.take(said.len() as int) =~= said);
}

/// Whether `line` of a screen of Grok shows something that is not drawn around an answer.
pub open spec fn grok_says(line: Seq<char>) -> bool {
    &&& !has_text(line, "❯ "@)
    &&& !grok_status_bar(line)
    &&& !herdr_unwrap_duplicate(line)
    &&& !grok_chrome_line(line)
    &&& !blank_from(line, 0)
}

/// A line that shows text is kept in an answer of Grok, unless it is the same as the one directly
/// before it.
pub proof fn law_grok_keeps_text(lines: Seq<Seq<char>>, line: Seq<char>, text: Seq<char>)
    requires
        grok_says(line),
        unquoted_line(line) == Some(text),
        text.len() > 0,
        text != "▼"@,
        text != "▲"@,
    ensures
        grok_answer(lines.push(line)) == if grok_answer(lines).len() > 0 && grok_answer(
            lines,
        ).last() == text {
            grok_answer(lines)
        } else {
            grok_answer(lines).push(text)
        },
{
    law_blank_lines(line);
    assert(lines.push(line).drop_last() =~= lines);
    assert(lines.push(line).last() == line);
}

/// A blank line, and a line with nothing in its frame, leave one gap behind text; a frame and a
/// scroll mark leave nothing.
pub proof fn law_grok_gaps(lines: Seq<Seq<char>>, line: Seq<char>)
    ensures
        blank_from(line, 0) || grok_says(line) && unquoted_line(line) == Some(Seq::<char>::empty())
            ==> grok_answer(lines.push(line)) == if grok_answer(lines).len() > 0 && grok_answer(
            lines,
        ).last().len() > 0 {
            grok_answer(lines).push(Seq::empty())
        } else {
            grok_answer(lines)
        },
        grok_says(line) && (unquoted_line(line) is None || unquoted_line(line) == Some("▼"@)
            || unquoted_line(line) == Some("▲"@)) ==> grok_answer(lines.push(line)) == grok_answer(
            lines,
        ),
{
    reveal_strlit("❯ ");
    reveal_strlit("K / ");
    reveal_strlit("▼");
    reveal_strlit("▲");
    law_blank_lines(line);
    assert(lines.push(line).drop_last() =~= lines);
    assert(lines.push(line).last() == line);
    if blank_from(line, 0) {
        law_status_bar_of_grok(line);
        law_chrome_of_grok(line);
        lemma_blank_shows_nothing(line, seq!['~']);
        lemma_blank_shows_nothing(line, seq!['┆']);
        assert forall|i: int| !(#[trigger] occurs_at(line, "❯ "@, i)) by {
            if occurs_at(line, "❯ "@, i) {
                assert(line.subrange(i, i + 2)[0] == line[i]);
                assert(is_white_space(line[i]));
            }
        }
        assert forall|i: int| !(#[trigger] occurs_at(line, "K / "@, i)) by {
            if occurs_at(line, "K / "@, i) {
                assert(line.subrange(i, i + 4)[0] == line[i]);
                assert(is_white_space(line[i]));
            }
        }
        assert(!line.contains('▲')) by {
            if line.contains('▲') {
                let i = choose|i: int| 0 <= i < line.len() && line[i] == '▲';
                assert(is_white_space(line[i]));
            }
        }
    }
}

/// Whether `text` needs no cleaning: it begins and ends with a character of its own, not with a bar or
/// the scroll bar, and is none of what Grok draws.
pub open spec fn plain_text(text: Seq<char>) -> bool {
    &&& text.len() > 0
    &&& !is_white_space(text[0])
    &&& !is_white_space(text.last())
    &&& text.last() != '█'
    &&& text.last() != '│'
    &&& text[0] != '│'
    &&& text[0] != '┆'
    &&& text[0] != '┌'
    &&& text[0] != '└'
    &&& !grok_status_bar(text)
}

proof fn lemma_padded_text(indent: Seq<char>, text: Seq<char>)
    requires
        blank_from(indent, 0),
        text.len() > 0,
        !is_white_space(text[0]),
        !is_white_space(text.last()),
    ensures
        trimmed(indent + text) == text,
        trimmed(text) == text,
        trimmed_start(text) == text,
        trimmed_end(indent + text) == indent + text,
{
    lemma_trimmed_start_padding(indent, text);
    assert((indent + text).last() == text.last());
}

proof fn lemma_plain_is_unquoted(text: Seq<char>)
    requires
        plain_text(text),
    ensures
        trimmed(text) == text,
        !herdr_unwrap_duplicate(text),
        !outer_quote_frame(text),
{
    let none: Seq<char> = Seq::empty();
    lemma_padded_text(none, text);
    assert(none + text =~= text);
}

/// Text is kept as it stands, without its indent and without the scroll bar behind it.
pub proof fn law_plain_text_is_kept(indent: Seq<char>, text: Seq<char>, gutter: Seq<char>)
    requires
        blank_from(indent, 0),
        plain_text(text),
        without_clock(indent + text) == indent + text,
        forall|i: int|
            0 <= i < gutter.len() ==> CharSet::SpaceOr('█').contains(#[trigger] gutter[i]),
    ensures
        unquoted_line(indent + text + gutter) == Some(text),
{
    let line = indent + text;
    lemma_padded_text(indent, text);
    lemma_plain_is_unquoted(text);
    lemma_trimmed_end_of_padding(line, gutter, CharSet::SpaceOr('█'));
    assert(line.last() == text.last());
    assert(without_gutter(line + gutter) == line);
    assert(trimmed_end_of(line, CharSet::Only('│')) == line);
    assert(cleaned_line(line + gutter) == text);
}

/// Text before a padded clock is kept, and the clock is not.
pub proof fn law_text_before_a_clock_is_kept(
    indent: Seq<char>,
    text: Seq<char>,
    blanks: Seq<char>,
    hour: Seq<char>,
    minute: Seq<char>,
    meridiem: Seq<char>,
    gutter: Seq<char>,
)
    requires
        blank_from(indent, 0),
        plain_text(text),
        blanks.len() >= 2,
        only_holds(blanks, ' '),
        1 <= hour.len() <= 2,
        forall|i: int| 0 <= i < hour.len() ==> is_digit(#[trigger] hour[i]),
        minute.len() == 2,
        forall|i: int| 0 <= i < minute.len() ==> is_digit(#[trigger] minute[i]),
        meridiem == " AM"@ || meridiem == " PM"@,
        forall|i: int|
            0 <= i < gutter.len() ==> CharSet::SpaceOr('█').contains(#[trigger] gutter[i]),
    ensures
        unquoted_line(
            indent + text + blanks + hour + seq![':'] + minute + meridiem + gutter,
        ) == Some(text),
{
    reveal_strlit(" AM");
    reveal_strlit(" PM");
    let line = indent + text;
    let none: Seq<char> = Seq::empty();
    let stamped = line + blanks + hour + seq![':'] + minute + meridiem;
    lemma_padded_text(indent, text);
    lemma_plain_is_unquoted(text);
    lemma_trimmed_end_of_padding(stamped, gutter, CharSet::SpaceOr('█'));
    assert(stamped.last() == 'M');
    assert(without_gutter(stamped + gutter) == stamped);
    assert(trimmed_end_of(stamped, CharSet::Only('│')) == stamped);
    assert(trimmed_end(stamped) == stamped);
    law_padded_clock_is_stripped(line, blanks, hour, minute, meridiem, none);
    assert(stamped + none =~= stamped);
    assert(cleaned_line(stamped + gutter) == text);
}

proof fn lemma_count_none(t: Seq<char>, c: char)
    requires
        !t.contains(c),
    ensures
        count_of(t, c) == 0,
    decreases t.len(),
{
    if t.len() > 0 {
        assert(t.contains(t.last()));
        let shorter = t.drop_last();
        assert(!shorter.contains(c)) by {
            if shorter.contains(c) {
                let i = choose|i: int| 0 <= i < shorter.len() && shorter[i] == c;
                assert(t[i] == c);
            }
        }
        lemma_count_none(shorter, c);
    }
}

proof fn lemma_count_first(c: char, t: Seq<char>)
    ensures
        count_of(seq![c] + t, c) == 1 + count_of(t, c),
    decreases t.len(),
{
    let all = seq![c] + t;
    if t.len() == 0 {
        assert(all.drop_last() =~= seq![]);
        assert(count_of(all.drop_last(), c) == 0);
    } else {
        assert(all.drop_last() =~= seq![c] + t.drop_last());
        assert(all.last() == t.last());
        lemma_count_first(c, t.drop_last());
    }
}

/// The frame of a quotation is taken off the text in it.
pub proof fn law_quotation_is_unframed(
    indent: Seq<char>,
    left: Seq<char>,
    text: Seq<char>,
    right: Seq<char>,
    gutter: Seq<char>,
)
    requires
        blank_from(indent, 0),
        blank_from(left, 0),
        blank_from(right, 0),
        plain_text(text),
        text[0] != '├',
        !text.contains('│'),
        !text.contains('┼'),
        !text.contains('┬'),
        !text.contains('├'),
        !grok_status_bar(seq!['│'] + left + text),
        without_clock(indent + (seq!['│'] + left + text)) == indent + (seq!['│'] + left + text),
        forall|i: int|
            0 <= i < gutter.len() ==> CharSet::SpaceOr('█').contains(#[trigger] gutter[i]),
    ensures
        unquoted_line(
            indent + (seq!['│'] + left + text) + right + seq!['│'] + gutter,
        ) == Some(text),
{
    let bar: Seq<char> = seq!['│'];
    let shown = bar + left + text;
    let open = indent + shown;
    let closed = open + right + bar;
    lemma_trimmed_end_of_padding(closed, gutter, CharSet::SpaceOr('█'));
    assert(closed.last() == '│');
    assert(without_gutter(closed + gutter) == closed);
    assert(closed.drop_last() =~= open + right);
    lemma_bar_is_taken_off(open, right);
    assert(shown[0] == '│');
    assert(shown.last() == text.last());
    lemma_padded_text(indent, shown);
    assert(cleaned_line(closed + gutter) == shown) by {
        let without_bar = trimmed_end(trimmed_end_of(closed, CharSet::Only('│')));
        assert(without_bar == open);
    }
    let inner = left + text;
    assert(shown.skip(1) =~= inner);
    assert(inner.last() == text.last());
    assert(trimmed_end_of(inner, CharSet::Only('│')) == inner);
    lemma_padded_text(left, text);
    assert(inside_frame(shown) == text);
    assert(!inner.contains('│')) by {
        if inner.contains('│') {
            let i = choose|i: int| 0 <= i < inner.len() && inner[i] == '│';
            if i < left.len() {
                assert(is_white_space(left[i]));
            } else {
                assert(text[i - left.len()] == '│');
            }
        }
    }
    lemma_count_none(inner, '│');
    lemma_count_first('│', inner);
    assert(shown =~= bar + inner);
    lemma_shown_holds(left, text, '┼');
    lemma_shown_holds(left, text, '┬');
    lemma_shown_holds(left, text, '├');
    assert(trimmed(shown) == shown);
}

proof fn lemma_shown_holds(left: Seq<char>, text: Seq<char>, c: char)
    requires
        blank_from(left, 0),
        !text.contains(c),
        !is_white_space(c),
        c != '│',
    ensures
        !(seq!['│'] + left + text).contains(c),
{
    let shown = seq!['│'] + left + text;
    if shown.contains(c) {
        let i = choose|i: int| 0 <= i < shown.len() && shown[i] == c;
        if i == 0 {
        } else if i < 1 + left.len() {
            assert(shown[i] == left[i - 1]);
            assert(is_white_space(left[i - 1]));
        } else {
            assert(text[i - 1 - left.len()] == c);
        }
    }
}

/// A bar at the end goes, with the white space before it.
proof fn lemma_bar_is_taken_off(open: Seq<char>, right: Seq<char>)
    requires
        open.len() > 0,
        !is_white_space(open.last()),
        open.last() != '│',
        blank_from(right, 0),
    ensures
        trimmed_end(trimmed_end_of(open + right + seq!['│'], CharSet::Only('│'))) == open,
{
    let bar: Seq<char> = seq!['│'];
    let body = open + right;
    lemma_trimmed_end_of_padding(body, bar, CharSet::Only('│'));
    assert(body.last() != '│') by {
        if right.len() > 0 {
            assert(is_white_space(right[right.len() - 1]));
            assert(body.last() == right[right.len() - 1]);
        } else {
            assert(body.last() == open.last());
        }
    }
    assert forall|i: int| 0 <= i < right.len() implies CharSet::Space.contains(
        #[trigger] right[i],
    ) by {
        assert(is_white_space(right[i]));
    }
    lemma_trimmed_end_of_padding(open, right, CharSet::Space);
}

/// A row of a table keeps its bars; any other line that begins with a bar loses its frame, and so does one
/// with another frame in it. The frame around a quotation shows nothing, and the rest is kept.
pub proof fn law_rows_and_frames(line: Seq<char>)
    ensures
        ({
            let t = cleaned_line(line);
            let inner = inside_frame(t);
            let row = t.len() > 0 && t[0] == '│' && (count_of(t, '│') > 2 || t.contains('┼')
                || t.contains('┬') || t.contains('├'));
            let nested = inner.len() > 0 && (inner[0] == '┌' || inner[0] == '├' || inner[0] == '└'
                || inner[0] == '│');
            &&& t.len() > 0 && outer_quote_frame(t) ==> unquoted_line(line) is None
            &&& t.len() > 0 && (herdr_unwrap_duplicate(t) || grok_status_bar(t)) ==> unquoted_line(
                line,
            ) is None
            &&& row && !nested && !grok_status_bar(t) ==> unquoted_line(line) == Some(t)
            &&& row && nested && !grok_status_bar(t) ==> unquoted_line(line) == Some(inner)
            &&& t.len() > 0 && t[0] == '│' && !row && !grok_status_bar(t) ==> unquoted_line(line)
                == Some(inner)
            &&& t.len() > 0 && t[0] != '│' && !grok_status_bar(t) && !outer_quote_frame(t)
                && !herdr_unwrap_duplicate(t) ==> unquoted_line(line) == Some(t)
            &&& t.len() == 0 ==> unquoted_line(line) == Some(Seq::<char>::empty())
            &&& inner == trimmed(trimmed_end_of(t.skip(1), CharSet::Only('│')))
        }),
{
    let t = cleaned_line(line);
    law_trimming_is_final(
        without_clock(trimmed_end(trimmed_end_of(without_gutter(line), CharSet::Only('│')))),
    );
    if t.len() > 0 {
        lemma_plain_trim(t);
    } else {
        assert(t =~= Seq::<char>::empty());
    }
}

proof fn lemma_plain_trim(t: Seq<char>)
    requires
        trimmed(t) == t,
        t.len() > 0,
    ensures
        trimmed_start(t) == t,
{
    law_trimming_is_final(t);
    assert(!is_white_space(trimmed(t)[0]));
}

/// A screen is one of Grok if it shows the mark of its prompt, or a tool call or a thought, and no
/// prompt of Codex.
pub proof fn law_screens_of_grok(t: Seq<char>)
    ensures
        grok_tui(t) <==> {
            &&& t.contains('❯') || exists|i: int|
                0 <= i < lines_of(t).len() && (shows_more(#[trigger] lines_of(t)[i], "◆ "@)
                    || shows_more(lines_of(t)[i], "Thought for "@))
            &&& forall|i: int|
                0 <= i < lines_of(t).len() ==> !shows(#[trigger] lines_of(t)[i], seq!['›'])
        },
{
    assert forall|i: int| 0 <= i < lines_of(t).len() implies {
        &&& codex_prompt_line(#[trigger] lines_of(t)[i]) <==> shows(lines_of(t)[i], seq!['›'])
        &&& grok_mark(lines_of(t)[i]) <==> shows_more(lines_of(t)[i], "◆ "@) || shows_more(
            lines_of(t)[i],
            "Thought for "@,
        )
    } by {
        law_end_of_codex(lines_of(t)[i]);
        law_chrome_of_grok(lines_of(t)[i]);
    }
    if exists|i: int| 0 <= i < lines_of(t).len() && grok_mark(#[trigger] lines_of(t)[i]) {
        let i = choose|i: int| 0 <= i < lines_of(t).len() && grok_mark(#[trigger] lines_of(t)[i]);
        assert(shows_more(lines_of(t)[i], "◆ "@) || shows_more(lines_of(t)[i], "Thought for "@));
    }
}

/// Gaps at the end of an answer go, and nothing else does.
pub proof fn law_last_gaps_go(lines: Seq<Seq<char>>)
    ensures
        ({
            let kept = without_last_gaps(lines);
            &&& kept.len() <= lines.len()
            &&& kept == lines.take(kept.len() as int)
            &&& kept.len() > 0 ==> kept.last().len() > 0
            &&& forall|i: int| kept.len() <= i < lines.len() ==> (#[trigger] lines[i]).len() == 0
        }),
    decreases lines.len(),
{
    let kept = without_last_gaps(lines);
    if lines.len() > 0 && lines.last().len() == 0 {
        let shorter = lines.drop_last();
        law_last_gaps_go(shorter);
        assert(shorter.take(kept.len() as int) =~= lines.take(kept.len() as int));
        assert forall|i: int| kept.len() <= i < lines.len() implies (#[trigger] lines[i]).len()
            == 0 by {
            if i < shorter.len() {
                assert(shorter[i] == lines[i]);
            }
        }
    } else {
        assert(lines.take(lines.len() as int) =~= lines);
    }
}

/// The lines that markers are taken out of lose those, and no other.
pub proof fn law_only_markers_go(lines: Seq<Seq<char>>, line: Seq<char>)
    ensures
        unmarked(lines.push(line)) == if shows(line, "COKACDIR_RESPONSE_BEGIN_"@) || shows(
            line,
            "COKACDIR_RESPONSE_END_"@,
        ) {
            unmarked(lines)
        } else {
            unmarked(lines).push(line)
        },
{
    law_markers_and_fences(line);
    assert(lines.push(line).drop_last() =~= lines);
    assert(lines.push(line).last() == line);
}

proof fn lemma_lines_joined_again(t: Seq<char>)
    requires
        !t.contains('\r'),
    ensures
        joined_lines(lines_of(t)) == t || joined_lines(lines_of(t)).push('\n') == t,
    decreases t.len(),
{
    lemma_line_end(t);
    let end = line_end(t) as int;
    if t.len() == 0 {
        assert(joined_lines(lines_of(t)) =~= t);
    } else if end < t.len() {
        let line = t.take(end);
        let rest = t.skip(end + 1);
        if line.len() > 0 {
            assert(line.last() == t[end - 1]);
            assert(t.contains(t[end - 1]));
        }
        assert(!rest.contains('\r')) by {
            if rest.contains('\r') {
                let i = choose|i: int| 0 <= i < rest.len() && rest[i] == '\r';
                assert(t[i + end + 1] == '\r');
            }
        }
        lemma_lines_joined_again(rest);
        assert(t =~= line + seq!['\n'] + rest);
        if rest.len() == 0 {
            assert(lines_of(t) =~= seq![line]);
            assert(joined_lines(seq![line]) == line);
            assert(line.push('\n') =~= t);
        } else {
            lemma_line_end(rest);
            lemma_joined_first(line, lines_of(rest), '\n');
            let joined = joined_lines(lines_of(rest));
            if joined == rest {
                assert(joined_lines(lines_of(t)) =~= t);
            } else {
                assert(joined_lines(lines_of(t)).push('\n') =~= t);
            }
        }
    }
}

/// A text without markers is left as it is, but for white space around it.
pub proof fn law_text_without_markers_is_kept(t: Seq<char>)
    requires
        !t.contains('\r'),
        no_markers(t),
    ensures
        without_markers(t) == trimmed(t),
{
    lemma_nothing_is_marked(lines_of(t));
    lemma_lines_joined_again(t);
    let joined = joined_lines(lines_of(t));
    if joined.push('\n') == t {
        lemma_trimmed_last(joined, '\n');
    }
}

/// Whether `line` begins a Markdown block: a fence, a heading, a list item, a quotation, a table, a
/// frame, indented code or a numbered item.
pub open spec fn begins_block(line: Seq<char>) -> bool {
    ||| shows(line, "```"@)
    ||| shows(line, "~~~"@)
    ||| shows(line, "# "@)
    ||| shows(line, "## "@)
    ||| shows(line, "### "@)
    ||| shows(line, "#### "@)
    ||| shows(line, "##### "@)
    ||| shows(line, "###### "@)
    ||| shows(line, "- "@)
    ||| shows(line, "* "@)
    ||| shows(line, "+ "@)
    ||| shows(line, "• "@)
    ||| shows(line, "> "@)
    ||| shows(line, seq!['|'])
    ||| shows_frame(line)
    ||| far_indented(line)
    ||| (exists|k: int, n: int| number_at(line, k, n))
}

/// Whether nothing may be put behind `line`: it is empty, a heading, a quotation, a row of a table, a
/// fence, a frame or indented code.
pub open spec fn takes_nothing(line: Seq<char>) -> bool {
    ||| line.len() == 0
    ||| shows(line, seq!['#'])
    ||| shows(line, seq!['>'])
    ||| shows(line, seq!['|'])
    ||| shows(line, "```"@)
    ||| shows(line, "~~~"@)
    ||| shows_frame(line)
    ||| far_indented(line)
}

/// Outside code, a line with which a block begins begins a line of the text; so does a line behind one
/// that takes nothing, and the first line. Any other is put behind the last line, with one blank
/// between.
pub proof fn law_wrapped_lines_are_put_together(lines: Seq<Seq<char>>, raw: Seq<char>)
    requires
        !unwrapped(lines).in_code_fence,
        !blank_from(raw, 0),
    ensures
        ({
            let line = trimmed_end(raw);
            let before = unwrapped(lines).lines;
            let now = unwrapped(lines.push(raw)).lines;
            if begins_block(line) || before.len() == 0 || takes_nothing(before.last()) {
                now == before.push(line)
            } else {
                now == before.drop_last().push(before.last().push(' ') + trimmed(line))
            }
        }),
        unwrapped(lines.push(raw)).in_code_fence <==> shows(trimmed_end(raw), "```"@) || shows(
            trimmed_end(raw),
            "~~~"@,
        ),
{
    let line = trimmed_end(raw);
    let before = unwrapped(lines).lines;
    assert(lines.push(raw).drop_last() =~= lines);
    assert(lines.push(raw).last() == raw);
    law_markdown_blocks(line);
    law_markers_and_fences(line);
    law_blank_lines(raw);
    law_blank_lines(line);
    lemma_trimmed_end_of(raw, CharSet::Space);
    assert(!is_blank(line)) by {
        if is_blank(line) {
            assert forall|i: int| 0 <= i < raw.len() implies is_white_space(#[trigger] raw[i]) by {
                if i < line.len() {
                    assert(is_white_space(line[i]));
                    assert(raw.take(line.len() as int)[i] == raw[i]);
                } else {
                    assert(CharSet::Space.contains(raw[i]));
                }
            }
        }
    }
    if before.len() > 0 {
        law_lines_that_stand_alone(before.last());
    }
}

/// Outside code, blank lines leave one gap behind text; in code every line is kept, and the fence ends
/// it.
pub proof fn law_gaps_and_code(lines: Seq<Seq<char>>, raw: Seq<char>)
    ensures
        !unwrapped(lines).in_code_fence && blank_from(raw, 0) ==> {
            let before = unwrapped(lines).lines;
            &&& unwrapped(lines.push(raw)).lines == if before.len() > 0 && before.last().len() > 0 {
                before.push(Seq::empty())
            } else {
                before
            }
            &&& !unwrapped(lines.push(raw)).in_code_fence
        },
        unwrapped(lines).in_code_fence ==> {
            &&& unwrapped(lines.push(raw)).lines == unwrapped(lines).lines.push(trimmed_end(raw))
            &&& unwrapped(lines.push(raw)).in_code_fence <==> !shows(trimmed_end(raw), "```"@)
                && !shows(trimmed_end(raw), "~~~"@)
        },
{
    let line = trimmed_end(raw);
    assert(lines.push(raw).drop_last() =~= lines);
    assert(lines.push(raw).last() == raw);
    law_markers_and_fences(line);
    if blank_from(raw, 0) {
        lemma_trimmed_end_of(raw, CharSet::Space);
        assert(line.len() == 0) by {
            if line.len() > 0 {
                assert(raw.take(line.len() as int)[line.len() - 1] == raw[line.len() - 1]);
                assert(is_white_space(raw[line.len() - 1]));
            }
        }
    }
}

/// What is unwrapped is shown line by line, without gaps at its end.
pub proof fn law_unwrapped_lines_are_shown(lines: Seq<Seq<char>>, count: int)
    requires
        0 <= count <= unwrapped(lines).lines.len(),
        count > 0 ==> unwrapped(lines).lines[count - 1].len() > 0,
        forall|i: int|
            count <= i < unwrapped(lines).lines.len() ==> (
            #[trigger] unwrapped(lines).lines[i]).len() == 0,
    ensures
        unwrapped_text(lines) == joined_lines(unwrapped(lines).lines.take(count)),
{
    let all = unwrapped(lines).lines;
    let kept = without_last_gaps(all);
    law_last_gaps_go(all);
    if kept.len() < count {
        assert(all[count - 1].len() == 0);
    }
    if kept.len() > count {
        assert(all[kept.len() - 1].len() == 0);
        assert(all.take(kept.len() as int).last() == all[kept.len() - 1]);
    }
}

/// A screen is read as one of Grok first, then as one of Codex, and then as it stands.
pub proof fn law_readers_take_turns(t: Seq<char>, prompt: Seq<char>)
    ensures
        grok_response(t, prompt) matches Some(answer) ==> final_response(t, prompt) == answer,
        grok_response(t, prompt) is None ==> (codex_response(t) matches Some(answer)
            ==> final_response(t, prompt) == answer),
        grok_response(t, prompt) is None && codex_response(t) is None ==> final_response(t, prompt)
            == unwrapped_text(lines_of(without_markers(t))),
{
}

/// A preview is Grok's answer to whatever was asked last, or else Codex's, or else the last thirty
/// lines; of more than twelve hundred characters it shows the first and that they were cut.
pub proof fn law_preview(t: Seq<char>)
    ensures
        ({
            let shown = |answer: Seq<char>|
                if answer.len() > 1200 {
                    answer.take(1200) + seq!['\n', '…']
                } else {
                    answer
                };
            let found = lines_of(t);
            &&& grok_response(t, Seq::empty()) matches Some(answer) ==> preview_of(t) == shown(
                answer,
            )
            &&& grok_response(t, Seq::empty()) is None ==> (codex_response(t) matches Some(answer)
                ==> preview_of(t) == shown(answer))
            &&& grok_response(t, Seq::empty()) is None && codex_response(t) is None ==> preview_of(
                t,
            ) == shown(
                trimmed(
                    joined_lines(
                        if found.len() > 30 {
                            found.skip(found.len() - 30)
                        } else {
                            found
                        },
                    ),
                ),
            )
        }),
{
    reveal_strlit("\n…");
    assert("\n…"@ =~= seq!['\n', '…']);
}

} // verus!
