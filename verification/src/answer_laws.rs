//! What an agent wrote on the screen is what comes back as its answer.

use crate::chars::{is_white_space, lemma_suffix_at_prefix, suffix_at};
use crate::classify::{codex_prompt_line, grok_tui, tui_separator};
use crate::echo::{
    any_echo, echo_lines, echo_of, grok_turn_offset, marked_echo_of, marked_prompt_offset,
};
use crate::echo_laws::{law_beginning_of_the_turn_is_taken, turn_begins_at};
use crate::line_laws::{
    law_joined_lines_are_lines, lemma_joined_first, lemma_joined_holds_no_return,
    lemma_lines_hold_no_return, lemma_lines_of_first, one_line, one_line_each, whole_lines,
};
use crate::lines::{
    compacted, joined_lines, lemma_line_end, line_end, lines_before, lines_of, offset_lines,
};
use crate::response::{
    codex_answer, codex_end, codex_response, final_response, first_line_of, grok_answer, grok_end,
    grok_region, grok_response, legacy_marker, unless_blank, unmarked, unwrapped_text, with_gap,
    with_grok_line, without_last_gaps, without_markers,
};
use crate::response_laws::{lemma_return_is_white_space, lemma_trimmed_last};
use crate::session::{step_after_reading, TurnStepView};
use crate::text::{
    has_text, is_blank, lemma_trimmed_start, occurs_at, trimmed, trimmed_end, trimmed_start,
};
use crate::turn::{separator, turn_output};
use crate::turn_laws::{
    law_agy_turn, law_codex_turn, lemma_from_echo, lemma_lines_before_are_lines,
    lemma_lines_before_behind, lemma_lines_of_both, lemma_prompt_line, no_line, prompt_line,
    screen_of, without_empty_end,
};
use vstd::prelude::*;

verus! {

/// A line feed behind a text adds an empty line to it at most.
proof fn lemma_line_feed(t: Seq<char>)
    requires
        !t.contains('\r'),
    ensures
        lines_of(t.push('\n')) == lines_of(t) || lines_of(t.push('\n')) == lines_of(t).push(
            Seq::empty(),
        ),
    decreases t.len(),
{
    lemma_line_end(t);
    let end = line_end(t) as int;
    let line = t.take(end);
    let none: Seq<char> = Seq::empty();
    assert(!line.contains('\n'));
    if line.len() > 0 {
        assert(line.last() == t[end - 1]);
        assert(t.contains(t[end - 1]));
    }
    if end < t.len() {
        let rest = t.skip(end + 1);
        assert(!rest.contains('\r')) by {
            if rest.contains('\r') {
                let i = choose|i: int| 0 <= i < rest.len() && rest[i] == '\r';
                assert(t[i + end + 1] == '\r');
            }
        }
        lemma_line_feed(rest);
        assert(t =~= line + seq!['\n'] + rest);
        assert(t.push('\n') =~= line + seq!['\n'] + rest.push('\n'));
        lemma_lines_of_first(line, rest);
        lemma_lines_of_first(line, rest.push('\n'));
        assert(seq![line] + lines_of(rest).push(none) =~= (seq![line] + lines_of(rest)).push(none));
    } else {
        assert(line =~= t);
        assert(t.push('\n') =~= t + seq!['\n'] + none);
        lemma_lines_of_first(t, none);
        assert(lines_of(none) =~= seq![]);
        if t.len() > 0 {
            assert(lines_of(t.push('\n')) =~= lines_of(t));
        } else {
            assert(t =~= none);
            assert(lines_of(t.push('\n')) =~= lines_of(t).push(none));
        }
    }
}

/// An empty line at the end leaves no trace once white space around the text is taken off.
proof fn lemma_empty_end_leaves_no_trace(lines: Seq<Seq<char>>)
    requires
        one_line_each(lines),
    ensures
        without_markers(joined_lines(lines.push(Seq::empty()))) == without_markers(
            joined_lines(lines),
        ),
{
    let none: Seq<char> = Seq::empty();
    let t = joined_lines(lines);
    let longer = lines.push(none);
    assert(longer.drop_last() =~= lines);
    if lines.len() == 0 {
        assert(joined_lines(longer) =~= t);
    } else {
        assert(joined_lines(longer) =~= t.push('\n'));
        lemma_joined_holds_no_return(lines);
        lemma_line_feed(t);
        let found = lines_of(t);
        if lines_of(t.push('\n')) == found.push(none) {
            reveal_strlit("COKACDIR_RESPONSE_BEGIN_");
            reveal_strlit("COKACDIR_RESPONSE_END_");
            assert(found.push(none).drop_last() =~= found);
            assert(trimmed(none) =~= none);
            let kept = unmarked(found);
            assert(unmarked(found.push(none)) == kept.push(none));
            assert(kept.push(none).drop_last() =~= kept);
            if kept.len() == 0 {
                assert(joined_lines(kept.push(none)) =~= joined_lines(kept));
            } else {
                assert(joined_lines(kept.push(none)) =~= joined_lines(kept).push('\n'));
                lemma_trimmed_last(joined_lines(kept), '\n');
            }
        }
    }
}

proof fn lemma_trimmed_start_is_one_line(line: Seq<char>)
    requires
        one_line(line),
    ensures
        one_line(trimmed_start(line)),
{
    lemma_trimmed_start(line);
    let begun = trimmed_start(line);
    let skipped = line.len() - begun.len();
    assert forall|i: int| 0 <= i < begun.len() implies #[trigger] begun[i] == line[skipped + i] by {
        assert(line.skip(skipped)[i] == line[skipped + i]);
    }
}

proof fn lemma_codex_answer_is_lines(lines: Seq<Seq<char>>)
    requires
        one_line_each(lines),
    ensures
        one_line_each(codex_answer(lines)),
    decreases lines.len(),
{
    if lines.len() > 0 {
        let shorter = lines.drop_last();
        assert forall|i: int| 0 <= i < shorter.len() implies one_line(#[trigger] shorter[i]) by {
            assert(shorter[i] == lines[i]);
        }
        lemma_codex_answer_is_lines(shorter);
        assert(one_line(lines[lines.len() - 1]));
        lemma_trimmed_start_is_one_line(lines.last());
        let before = codex_answer(shorter);
        let now = codex_answer(lines);
        assert forall|i: int| 0 <= i < now.len() implies one_line(#[trigger] now[i]) by {
            if i < before.len() {
                assert(now[i] == before[i]);
            }
        }
    }
}

proof fn lemma_codex_empty_end(lines: Seq<Seq<char>>)
    requires
        one_line_each(lines),
    ensures
        without_markers(joined_lines(codex_answer(without_empty_end(lines)))) == without_markers(
            joined_lines(codex_answer(lines)),
        ),
        one_line_each(without_empty_end(lines)),
{
    if lines.len() > 0 && lines.last().len() == 0 {
        reveal_strlit("• Ran ");
        reveal_strlit("• Explored");
        reveal_strlit("• Thought");
        reveal_strlit("• Model changed");
        let shorter = lines.drop_last();
        let none: Seq<char> = Seq::empty();
        assert(lines.last() =~= none);
        assert(trimmed_start(none) == none);
        assert(codex_answer(lines) == codex_answer(shorter).push(none));
        assert forall|i: int| 0 <= i < shorter.len() implies one_line(#[trigger] shorter[i]) by {
            assert(shorter[i] == lines[i]);
        }
        lemma_codex_answer_is_lines(shorter);
        lemma_empty_end_leaves_no_trace(codex_answer(shorter));
    }
}

/// Lines that nothing stops are all before the stop.
proof fn lemma_nothing_stops(lines: Seq<Seq<char>>, stop: spec_fn(Seq<char>) -> bool)
    ensures
        forall|i: int|
            0 <= i < lines_before(lines, stop).len() ==> !stop(
                #[trigger] lines_before(lines, stop)[i],
            ),
        (forall|i: int| 0 <= i < lines.len() ==> !stop(#[trigger] lines[i])) ==> lines_before(
            lines,
            stop,
        ) == lines,
    decreases lines.len(),
{
    if lines.len() > 0 && !stop(lines[0]) {
        let rest = lines.drop_first();
        lemma_nothing_stops(rest, stop);
        assert forall|i: int| 0 <= i < lines_before(lines, stop).len() implies !stop(
            #[trigger] lines_before(lines, stop)[i],
        ) by {
            if i > 0 {
                assert(lines_before(lines, stop)[i] == lines_before(rest, stop)[i - 1]);
            }
        }
        if forall|i: int| 0 <= i < lines.len() ==> !stop(#[trigger] lines[i]) {
            assert forall|i: int| 0 <= i < rest.len() implies !stop(#[trigger] rest[i]) by {
                assert(rest[i] == lines[i + 1]);
            }
            assert(seq![lines[0]] + rest =~= lines);
        }
    } else if lines.len() == 0 {
        assert(lines_before(lines, stop) =~= lines);
    }
}

/// With Codex, what comes back is the agent's own words behind the last echo of the prompt, until
/// the next prompt or the footer.
pub proof fn law_codex_answer_comes_back(
    before: Seq<char>,
    head: Seq<char>,
    echo: Seq<Seq<char>>,
    tail: Seq<char>,
    prompt: Seq<char>,
)
    requires
        whole_lines(head),
        echo.len() > 0,
        one_line_each(echo),
        echo.last().len() > 0,
        !tail.contains('\r'),
        !is_blank(prompt),
        marked_echo_of(compacted(prompt_line(prompt)), "› "@)(echo[0]),
        forall|i: int| 1 <= i < echo.len() ==> !codex_end()(#[trigger] echo[i]),
        no_line(tail, marked_echo_of(compacted(prompt_line(prompt)), "› "@)),
        echo_lines(
            echo + without_empty_end(lines_before(lines_of(tail), codex_end())),
            trimmed(prompt),
        ) == echo.len(),
    ensures
        ({
            let turn = turn_output(before, screen_of(head, echo, tail), prompt);
            let answer = without_markers(
                joined_lines(codex_answer(lines_before(lines_of(tail), codex_end()))),
            );
            &&& codex_response(turn) == unless_blank(answer)
            &&& grok_response(turn, prompt) is None && !is_blank(answer) ==> final_response(
                turn,
                prompt,
            ) == answer && step_after_reading(before, screen_of(head, echo, tail), prompt)
                == TurnStepView::Publish(answer)
        }),
{
    let answer = lines_before(lines_of(tail), codex_end());
    let shown = without_empty_end(answer);
    let turn = joined_lines(shown);
    law_codex_turn(before, head, echo, tail, prompt);
    lemma_lines_hold_no_return(tail);
    lemma_lines_before_are_lines(lines_of(tail), codex_end());
    lemma_nothing_stops(lines_of(tail), codex_end());
    lemma_codex_empty_end(answer);
    lemma_codex_empty_end(shown);
    law_joined_lines_are_lines(shown);
    let read = without_empty_end(shown);
    assert(lines_of(turn) == read);
    assert forall|i: int| 0 <= i < read.len() implies !codex_end()(#[trigger] read[i]) by {
        assert(read[i] == answer[i]);
    }
    lemma_nothing_stops(read, codex_end());
}

/// The answer that `shown`, the lines of a turn behind its echo, hold where neither Grok nor Codex is
/// recognised: all that they show but markers, with wrapped lines put together.
pub open spec fn plain_answer_text(shown: Seq<Seq<char>>) -> Seq<char> {
    unwrapped_text(lines_of(without_markers(joined_lines(shown))))
}

/// The answer that `shown`, the lines of a turn behind its echo, hold in the way of Codex: its
/// indented lines and those with a bullet, until the next prompt or the footer.
pub open spec fn indented_answer_text(shown: Seq<Seq<char>>) -> Seq<char> {
    without_markers(joined_lines(codex_answer(lines_before(shown, codex_end()))))
}

/// An empty line at the end leaves no trace in an answer in the way of Codex.
proof fn lemma_indented_empty_end(lines: Seq<Seq<char>>)
    requires
        one_line_each(lines),
    ensures
        indented_answer_text(without_empty_end(lines)) == indented_answer_text(lines),
        one_line_each(without_empty_end(lines)),
{
    if lines.len() > 0 && lines.last().len() == 0 {
        let shorter = lines.drop_last();
        let none: Seq<char> = Seq::empty();
        assert(lines.last() =~= none);
        assert(lines =~= shorter.push(none));
        assert forall|i: int| 0 <= i < shorter.len() implies one_line(#[trigger] shorter[i]) by {
            assert(shorter[i] == lines[i]);
        }
        lemma_push_before_stop(shorter, none, codex_end());
        lemma_lines_before_are_lines(lines, codex_end());
        let shown = lines_before(shorter, codex_end());
        if lines_before(lines, codex_end()) == shown.push(none) {
            lemma_codex_empty_end(shown.push(none));
            assert(without_empty_end(shown.push(none)) =~= shown);
        }
    }
}

/// With AGY, what comes back and is published is what the screen shows behind the last echo of the
/// prompt, until a separator: of an indented answer the indented lines, as with Codex, and of any
/// other all of it.
pub proof fn law_agy_answer_comes_back(
    before: Seq<char>,
    head: Seq<char>,
    echo: Seq<Seq<char>>,
    tail: Seq<char>,
    prompt: Seq<char>,
)
    requires
        whole_lines(head),
        echo.len() > 0,
        one_line_each(echo),
        echo.last().len() > 0,
        !tail.contains('\r'),
        !is_blank(prompt),
        marked_prompt_offset(screen_of(head, echo, tail), prompt_line(prompt), "› "@) is None,
        marked_echo_of(compacted(prompt_line(prompt)), "> "@)(echo[0]),
        forall|i: int| #![trigger echo[i]]
            1 <= i < echo.len() ==> !tui_separator(echo[i]) && !marked_echo_of(
                compacted(prompt_line(prompt)),
                "> "@,
            )(echo[i]),
        no_line(tail, marked_echo_of(compacted(prompt_line(prompt)), "> "@)),
        echo_lines(
            echo + without_empty_end(lines_before(lines_of(tail), separator())),
            trimmed(prompt),
        ) == echo.len(),
    ensures
        ({
            let screen = screen_of(head, echo, tail);
            let turn = turn_output(before, screen, prompt);
            let shown = lines_before(lines_of(tail), separator());
            let answer = if is_blank(indented_answer_text(shown)) {
                plain_answer_text(shown)
            } else {
                indented_answer_text(shown)
            };
            &&& codex_response(turn) == unless_blank(indented_answer_text(shown))
            &&& grok_response(turn, prompt) is None ==> final_response(turn, prompt) == answer
            &&& grok_response(turn, prompt) is None && !is_blank(answer) ==> step_after_reading(
                before,
                screen,
                prompt,
            ) == TurnStepView::Publish(answer)
        }),
{
    let shown = lines_before(lines_of(tail), separator());
    let kept = without_empty_end(shown);
    law_agy_turn(before, head, echo, tail, prompt);
    lemma_lines_hold_no_return(tail);
    lemma_lines_before_are_lines(lines_of(tail), separator());
    lemma_indented_empty_end(shown);
    lemma_indented_empty_end(kept);
    law_joined_lines_are_lines(kept);
    assert(lines_of(joined_lines(kept)) == without_empty_end(kept));
    if shown.len() > 0 && shown.last().len() == 0 {
        let shorter = shown.drop_last();
        assert(shown.last() =~= Seq::<char>::empty());
        assert(shown =~= shorter.push(Seq::empty()));
        lemma_empty_end_leaves_no_trace(shorter);
    }
}

/// Lines without markers that begin and end with text are unwrapped as they stand.
pub proof fn law_plain_answer_is_unwrapped(shown: Seq<Seq<char>>)
    requires
        shown.len() > 0,
        one_line_each(shown),
        forall|i: int| 0 <= i < shown.len() ==> !legacy_marker(#[trigger] shown[i]),
        shown[0].len() > 0,
        !is_white_space(shown[0][0]),
        shown.last().len() > 0,
        !is_white_space(shown.last().last()),
    ensures
        plain_answer_text(shown) == unwrapped_text(shown),
{
    let t = joined_lines(shown);
    law_joined_lines_are_lines(shown);
    lemma_nothing_is_marked(shown);
    let rest = shown.drop_first();
    assert(shown =~= seq![shown[0]] + rest);
    lemma_joined_begins(shown[0], rest);
    assert(t[0] == shown[0][0]);
    assert(t.last() == shown.last().last());
    assert(trimmed(t) == t);
}

pub proof fn lemma_nothing_is_marked(lines: Seq<Seq<char>>)
    requires
        forall|i: int| 0 <= i < lines.len() ==> !legacy_marker(#[trigger] lines[i]),
    ensures
        unmarked(lines) == lines,
    decreases lines.len(),
{
    if lines.len() > 0 {
        let shorter = lines.drop_last();
        assert forall|i: int| 0 <= i < shorter.len() implies !legacy_marker(
            #[trigger] shorter[i],
        ) by {
            assert(shorter[i] == lines[i]);
        }
        lemma_nothing_is_marked(shorter);
        assert(!legacy_marker(lines[lines.len() - 1]));
        assert(shorter.push(lines.last()) =~= lines);
    } else {
        assert(unmarked(lines) =~= lines);
    }
}

/// With Grok, the turn is what stands on the screen from the prompt on, until a separator: the
/// last prompt line that work follows, or the first where work follows none.
pub proof fn law_grok_turn(
    before: Seq<char>,
    head: Seq<char>,
    echo: Seq<Seq<char>>,
    tail: Seq<char>,
    prompt: Seq<char>,
)
    requires
        whole_lines(head),
        echo.len() > 0,
        one_line_each(echo),
        !tail.contains('\r'),
        !is_blank(prompt),
        forall|i: int| 0 <= i < echo.len() ==> !tui_separator(#[trigger] echo[i]),
        turn_begins_at(
            screen_of(head, echo, tail),
            offset_lines(screen_of(head, echo, tail)),
            offset_lines(head).len() as int,
            echo_of(prompt_line(prompt)),
        ),
        marked_prompt_offset(screen_of(head, echo, tail), prompt_line(prompt), "› "@) is None,
        marked_prompt_offset(screen_of(head, echo, tail), prompt_line(prompt), "> "@) is None,
    ensures
        turn_output(before, screen_of(head, echo, tail), prompt) == joined_lines(
            echo + lines_before(lines_of(tail), separator()),
        ),
{
    lemma_prompt_line(prompt);
    lemma_from_echo(head, echo, tail);
    law_beginning_of_the_turn_is_taken(
        screen_of(head, echo, tail),
        offset_lines(head).len() as int,
        echo_of(prompt_line(prompt)),
    );
    assert forall|i: int| 0 <= i < echo.len() implies !separator()(#[trigger] echo[i]) by {}
    lemma_lines_before_behind(echo, lines_of(tail), separator());
}

/// An empty line at the end leaves no trace in an answer of Grok.
proof fn lemma_grok_empty_end(lines: Seq<Seq<char>>)
    ensures
        without_last_gaps(grok_answer(lines_before(without_empty_end(lines), grok_end())))
            == without_last_gaps(grok_answer(lines_before(lines, grok_end()))),
{
    if lines.len() > 0 && lines.last().len() == 0 {
        let shorter = lines.drop_last();
        let none: Seq<char> = Seq::empty();
        assert(lines.last() =~= none);
        assert(lines =~= shorter.push(none));
        lemma_push_before_stop(shorter, none, grok_end());
        let shown = lines_before(shorter, grok_end());
        if lines_before(lines, grok_end()) == shown.push(none) {
            reveal_strlit("❯ ");
            reveal_strlit("K / ");
            let body = grok_answer(shown);
            assert(shown.push(none).drop_last() =~= shown);
            assert(grok_answer(shown.push(none)) == with_grok_line(body, none));
            assert(trimmed(none) =~= none);
            assert(trimmed_start(none) =~= none);
            assert(!has_text(none, "❯ "@));
            assert(!has_text(none, "K / "@));
            assert(!none.contains('▲'));
            assert(with_grok_line(body, none) == with_gap(body));
            if body.len() > 0 && body.last().len() > 0 {
                assert(body.push(none).drop_last() =~= body);
            }
        }
    }
}

proof fn lemma_push_before_stop(
    lines: Seq<Seq<char>>,
    line: Seq<char>,
    stop: spec_fn(Seq<char>) -> bool,
)
    ensures
        lines_before(lines.push(line), stop) == lines_before(lines, stop) || lines_before(
            lines.push(line),
            stop,
        ) == lines_before(lines, stop).push(line),
    decreases lines.len(),
{
    let longer = lines.push(line);
    if lines.len() == 0 {
        assert(longer.drop_first() =~= lines);
        assert(lines_before(longer, stop) =~= lines_before(lines, stop) || lines_before(
            longer,
            stop,
        ) =~= lines_before(lines, stop).push(line));
    } else if !stop(lines[0]) {
        let rest = lines.drop_first();
        lemma_push_before_stop(rest, line, stop);
        assert(longer.drop_first() =~= rest.push(line));
        assert(longer[0] == lines[0]);
        assert(seq![lines[0]] + lines_before(rest, stop).push(line) =~= (seq![lines[0]]
            + lines_before(rest, stop)).push(line));
    }
}

/// The answer that `shown`, the lines of a turn of Grok behind its prompt, hold.
pub open spec fn grok_answer_text(shown: Seq<Seq<char>>) -> Seq<char> {
    without_markers(
        joined_lines(without_last_gaps(grok_answer(lines_before(shown, grok_end())))),
    )
}

/// The lines that show the prompt in a turn of Grok: those that echo its first line, or any prompt if
/// that line is blank.
pub open spec fn shows_prompt(prompt: Seq<char>) -> spec_fn(Seq<char>) -> bool {
    if is_blank(first_line_of(prompt)) {
        any_echo()
    } else {
        echo_of(trimmed(first_line_of(prompt)))
    }
}

/// A screen of Grok is read from the line with which its turn begins, or from its first line if it shows
/// no prompt. The lines that echo the prompt are left out if the first of them bears the mark of Grok;
/// else nothing is taken for an echo. A screen that is none of Grok gives no answer.
pub proof fn law_grok_reads_its_turn(t: Seq<char>, prompt: Seq<char>)
    ensures
        !grok_tui(t) ==> grok_response(t, prompt) is None,
        grok_tui(t) ==> {
            let turn = lines_of(
                match grok_turn_offset(t, shows_prompt(prompt)) {
                    Some(offset) => suffix_at(t, offset),
                    None => t,
                },
            );
            &&& turn.len() > 0 && has_text(turn[0], "❯ "@) ==> grok_response(t, prompt)
                == unless_blank(grok_answer_text(turn.skip(echo_lines(turn, prompt) as int)))
            &&& turn.len() > 0 && !has_text(turn[0], "❯ "@) ==> grok_response(t, prompt)
                == unless_blank(grok_answer_text(turn))
            &&& turn.len() == 0 ==> grok_response(t, prompt) == unless_blank(
                grok_answer_text(turn),
            )
        },
{
    let turn = lines_of(grok_region(t, prompt));
    assert(turn.skip(0) =~= turn);
}

/// With Grok, what comes back of a turn is what its lines show behind the echo of the prompt, until a
/// separator or the box for the next prompt.
pub proof fn law_grok_answer_comes_back(
    echo: Seq<Seq<char>>,
    shown: Seq<Seq<char>>,
    prompt: Seq<char>,
)
    requires
        echo.len() > 0,
        one_line_each(echo),
        one_line_each(shown),
        echo.last().len() > 0,
        has_text(echo[0], "❯ "@),
        turn_begins_at(
            joined_lines(echo + shown),
            offset_lines(joined_lines(echo + shown)),
            0,
            shows_prompt(prompt),
        ),
        forall|i: int| 0 <= i < echo.len() ==> !codex_prompt_line(#[trigger] echo[i]),
        forall|i: int| 0 <= i < shown.len() ==> !codex_prompt_line(#[trigger] shown[i]),
        echo_lines(echo + without_empty_end(shown), prompt) == echo.len(),
    ensures
        ({
            let turn = joined_lines(echo + shown);
            let answer = grok_answer_text(shown);
            &&& grok_response(turn, prompt) == unless_blank(answer)
            &&& !is_blank(answer) ==> final_response(turn, prompt) == answer
        }),
{
    reveal_strlit("❯ ");
    let line = echo[0];
    let all = echo + shown;
    let turn = joined_lines(all);
    let wanted = shows_prompt(prompt);
    let read = without_empty_end(shown);
    lemma_lines_of_both(echo, shown);
    assert(lines_of(turn) == echo + read);
    let at = choose|i: int| occurs_at(line, "❯ "@, i);
    assert(line.subrange(at, at + 2)[0] == '❯');
    assert(all =~= seq![line] + all.drop_first());
    lemma_joined_begins(line, all.drop_first());
    assert(turn[at] == '❯');
    assert(turn.contains('❯'));
    assert forall|i: int| 0 <= i < lines_of(turn).len() implies !codex_prompt_line(
        #[trigger] lines_of(turn)[i],
    ) by {
        if i < echo.len() {
            assert(lines_of(turn)[i] == echo[i]);
        } else {
            assert(lines_of(turn)[i] == shown[i - echo.len()]);
        }
    }
    assert(grok_tui(turn));
    lemma_line_end(turn);
    assert(offset_lines(turn)[0].0 == 0);
    law_beginning_of_the_turn_is_taken(turn, 0, wanted);
    let none: Seq<char> = Seq::empty();
    lemma_suffix_at_prefix(none, turn);
    assert(none + turn =~= turn);
    assert(grok_region(turn, prompt) == turn);
    assert((echo + read).skip(echo.len() as int) =~= read);
    lemma_grok_empty_end(shown);
}

/// With Grok, what is published of a turn is what the screen shows behind the echo of the prompt,
/// until a separator or the box for the next prompt. The turn is looked for by the first line of the
/// prompt that is not blank, the answer in it by its first line.
pub proof fn law_grok_turn_is_published(
    before: Seq<char>,
    head: Seq<char>,
    echo: Seq<Seq<char>>,
    tail: Seq<char>,
    prompt: Seq<char>,
)
    requires
        whole_lines(head),
        echo.len() > 0,
        one_line_each(echo),
        echo.last().len() > 0,
        !tail.contains('\r'),
        !is_blank(prompt),
        has_text(echo[0], "❯ "@),
        forall|i: int| #![trigger echo[i]]
            0 <= i < echo.len() ==> !tui_separator(echo[i]) && !codex_prompt_line(echo[i]),
        forall|i: int|
            0 <= i < lines_of(tail).len() ==> !codex_prompt_line(#[trigger] lines_of(tail)[i]),
        turn_begins_at(
            screen_of(head, echo, tail),
            offset_lines(screen_of(head, echo, tail)),
            offset_lines(head).len() as int,
            echo_of(prompt_line(prompt)),
        ),
        marked_prompt_offset(screen_of(head, echo, tail), prompt_line(prompt), "› "@) is None,
        marked_prompt_offset(screen_of(head, echo, tail), prompt_line(prompt), "> "@) is None,
        turn_begins_at(
            joined_lines(echo + lines_before(lines_of(tail), separator())),
            offset_lines(joined_lines(echo + lines_before(lines_of(tail), separator()))),
            0,
            shows_prompt(prompt),
        ),
        echo_lines(
            echo + without_empty_end(lines_before(lines_of(tail), separator())),
            prompt,
        ) == echo.len(),
        !is_blank(grok_answer_text(lines_before(lines_of(tail), separator()))),
    ensures
        step_after_reading(before, screen_of(head, echo, tail), prompt) == TurnStepView::Publish(
            grok_answer_text(lines_before(lines_of(tail), separator())),
        ),
{
    let shown = lines_before(lines_of(tail), separator());
    law_grok_turn(before, head, echo, tail, prompt);
    lemma_lines_hold_no_return(tail);
    lemma_lines_before_are_lines(lines_of(tail), separator());
    lemma_before_stop_is_beginning(lines_of(tail), separator());
    assert forall|i: int| 0 <= i < shown.len() implies !codex_prompt_line(
        #[trigger] shown[i],
    ) by {
        assert(shown[i] == lines_of(tail)[i]);
    }
    law_grok_answer_comes_back(echo, shown, prompt);
}

/// Where the first line of a prompt is not blank, the turn and the answer in it are looked for by the
/// same lines.
pub proof fn law_turn_and_answer_share_the_prompt(prompt: Seq<char>)
    requires
        !is_blank(first_line_of(prompt)),
    ensures
        !is_blank(prompt),
        shows_prompt(prompt) == echo_of(prompt_line(prompt)),
{
    lemma_first_line_is_prompt_line(prompt);
}

/// The first line of a text is what stands before its first line feed, but for white space.
proof fn lemma_first_line(t: Seq<char>)
    ensures
        trimmed(first_line_of(t)) == trimmed(t.take(line_end(t) as int)),
{
    lemma_line_end(t);
    let line = t.take(line_end(t) as int);
    if t.len() == 0 {
        assert(first_line_of(t) =~= line);
    } else if line_end(t) < t.len() {
        lemma_return_is_white_space(line);
    } else {
        assert(line =~= t);
    }
}

/// A first line that says something is the same without the white space around the text.
proof fn lemma_first_line_begins(t: Seq<char>)
    requires
        !is_blank(first_line_of(t)),
    ensures
        trimmed(first_line_of(trimmed_start(t))) == trimmed(first_line_of(t)),
    decreases t.len(),
{
    if t.len() > 0 && is_white_space(t[0]) {
        let shorter = t.drop_first();
        let end = line_end(t) as int;
        lemma_line_end(t);
        lemma_line_end(shorter);
        lemma_first_line(t);
        lemma_first_line(shorter);
        if end == 0 {
            assert(t.take(0) =~= seq![]);
            assert(trimmed(t.take(0)).len() == 0);
        } else {
            assert(line_end(shorter) == end - 1);
            assert(t.take(end).drop_first() =~= shorter.take(end - 1));
            assert(trimmed(t.take(end)) == trimmed(shorter.take(end - 1)));
            lemma_first_line_begins(shorter);
        }
    }
}

proof fn lemma_first_line_ends(t: Seq<char>)
    ensures
        trimmed(first_line_of(trimmed_end(t))) == trimmed(first_line_of(t)),
    decreases t.len(),
{
    if t.len() > 0 && is_white_space(t.last()) {
        let shorter = t.drop_last();
        let end = line_end(t) as int;
        lemma_line_end(t);
        lemma_line_end(shorter);
        lemma_first_line(t);
        lemma_first_line(shorter);
        lemma_first_line_ends(shorter);
        if end < t.len() {
            assert(line_end(shorter) == end) by {
                let other = line_end(shorter) as int;
                if other < end {
                    assert(shorter[other] == t[other]);
                } else if end < shorter.len() {
                    assert(shorter[end] == '\n');
                }
            }
            assert(t.take(end) =~= shorter.take(end));
        } else {
            assert(line_end(shorter) == shorter.len()) by {
                let other = line_end(shorter) as int;
                if other < shorter.len() {
                    assert(shorter[other] == t[other]);
                }
            }
            assert(t.take(end) =~= shorter.push(t.last()));
            assert(shorter.take(end - 1) =~= shorter);
            lemma_trimmed_last(shorter, t.last());
        }
    }
}

/// A prompt whose first line says something is looked for by that line.
proof fn lemma_first_line_is_prompt_line(prompt: Seq<char>)
    requires
        !is_blank(first_line_of(prompt)),
    ensures
        !is_blank(prompt),
        prompt_line(prompt) == trimmed(first_line_of(prompt)),
{
    lemma_first_line_begins(prompt);
    lemma_first_line_ends(trimmed_start(prompt));
    if is_blank(prompt) {
        assert(trimmed(prompt) =~= seq![]);
        assert(first_line_of(trimmed(prompt)) =~= seq![]);
        assert(trimmed(first_line_of(trimmed(prompt))).len() == 0);
    }
}

/// The lines before a stop are the first ones.
proof fn lemma_before_stop_is_beginning(lines: Seq<Seq<char>>, stop: spec_fn(Seq<char>) -> bool)
    ensures
        lines_before(lines, stop).len() <= lines.len(),
        forall|i: int|
            0 <= i < lines_before(lines, stop).len() ==> #[trigger] lines_before(lines, stop)[i]
                == lines[i],
    decreases lines.len(),
{
    if lines.len() > 0 && !stop(lines[0]) {
        let rest = lines.drop_first();
        lemma_before_stop_is_beginning(rest, stop);
        assert forall|i: int| 0 <= i < lines_before(lines, stop).len() implies
            #[trigger] lines_before(lines, stop)[i] == lines[i] by {
            if i > 0 {
                assert(lines_before(lines, stop)[i] == lines_before(rest, stop)[i - 1]);
            }
        }
    }
}

/// Joined lines begin with the first of them.
proof fn lemma_joined_begins(line: Seq<char>, rest: Seq<Seq<char>>)
    ensures
        line.len() <= joined_lines(seq![line] + rest).len(),
        forall|i: int|
            0 <= i < line.len() ==> #[trigger] joined_lines(seq![line] + rest)[i] == line[i],
{
    if rest.len() > 0 {
        lemma_joined_first(line, rest, '\n');
    } else {
        assert(seq![line] + rest =~= seq![line]);
    }
}

} // verus!
