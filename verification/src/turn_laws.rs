//! What belongs to a turn: what came behind the last echo of its prompt, or what is new.

use crate::chars::{lemma_suffix_at_prefix, suffix_at, utf8_len};
use crate::classify::{grok_chrome_line, tui_separator};
use crate::classify_laws::{blank_from, law_blank_lines};
use crate::clock::without_gutter;
use crate::echo::{
    after_prompt_echo, echo_lines, echo_of, echo_text, last_entry, marked_echo_of,
    marked_prompt_offset, truncated_echo,
};
use crate::echo_laws::{
    echo_in_pieces, echo_pieces, law_last_marked_prompt_is_taken, law_real_turn_is_preferred,
    law_wrapped_echo_is_consumed, lemma_echoed_chars, none_wanted,
};
use crate::line_laws::{
    compacted_parts, law_joined_lines_are_lines, law_lines_keep_the_characters,
    law_spacing_is_ignored, lemma_joined_holds_no_return, lemma_lines_hold_no_return,
    lemma_lines_of_joined, lemma_lines_of_parts, one_line, one_line_each, whole_lines,
};
use crate::lines::{
    compacted, joined_lines, lemma_line_end, lemma_lines_before, line_end, lines_before, lines_of,
    offset_lines, offset_lines_from, without_return, words_of,
};
use crate::response::{codex_end, first_line_of};
use crate::text::{
    has_prefix, is_blank, law_trimming_is_final, leading_count, lemma_trimmed_end_of,
    lemma_trimmed_start, trimmed, trimmed_start, CharSet,
};
use crate::turn::{
    before_codex_end, before_separator, delta, largest_overlap, overlaps, separator,
    snapshot_overlap, turn_output,
};
use vstd::prelude::*;

verus! {

proof fn lemma_largest_overlap(before: Seq<Seq<char>>, after: Seq<Seq<char>>, count: int)
    requires
        0 <= count <= before.len(),
        count <= after.len(),
    ensures
        0 <= largest_overlap(before, after, count) <= count,
        overlaps(before, after, largest_overlap(before, after, count)),
        forall|more: int|
            largest_overlap(before, after, count) < more <= count ==> !overlaps(
                before,
                after,
                more,
            ),
    decreases count,
{
    if count == 0 {
        assert(before.skip(before.len() as int) =~= after.take(0));
    } else if !overlaps(before, after, count) {
        lemma_largest_overlap(before, after, count - 1);
    }
}

/// Of all the ways in which the end of one screen is the beginning of the next, the one with
/// most lines is taken.
pub proof fn law_overlap_is_the_largest(before: Seq<Seq<char>>, after: Seq<Seq<char>>)
    ensures
        overlaps(before, after, snapshot_overlap(before, after)),
        forall|more: int| overlaps(before, after, more) ==> more <= snapshot_overlap(before, after),
{
    lemma_largest_overlap(
        before,
        after,
        if before.len() <= after.len() {
            before.len() as int
        } else {
            after.len() as int
        },
    );
}

/// Lines that came behind those of the screen before are what is new.
pub proof fn law_appended_lines_are_new(before: Seq<char>, after: Seq<char>, new: Seq<Seq<char>>)
    requires
        lines_of(before).len() > 0,
        lines_of(after) == lines_of(before) + new,
    ensures
        delta(before, after) == trimmed(joined_lines(new)),
{
    let old_lines = lines_of(before);
    let all = lines_of(after);
    assert(old_lines.skip(0) =~= all.take(old_lines.len() as int));
    assert(overlaps(old_lines, all, old_lines.len() as int));
    law_overlap_is_the_largest(old_lines, all);
    assert(all.skip(old_lines.len() as int) =~= new);
}

/// Nothing is new on a screen that did not change.
pub proof fn law_unchanged_screen_has_nothing_new(screen: Seq<char>)
    ensures
        delta(screen, screen).len() == 0,
{
    if screen.len() > 0 {
        lemma_line_end(screen);
        let none: Seq<Seq<char>> = seq![];
        assert(lines_of(screen) + none =~= lines_of(screen));
        law_appended_lines_are_new(screen, screen, none);
    } else {
        assert(trimmed(screen) =~= screen);
    }
}

/// `lines` as they come back from a text that they were joined to: an empty last line is lost.
pub open spec fn without_empty_end(lines: Seq<Seq<char>>) -> Seq<Seq<char>> {
    if lines.len() > 0 && lines.last().len() == 0 {
        lines.drop_last()
    } else {
        lines
    }
}

/// In a text without carriage returns, the lines with their offsets are its lines.
pub proof fn lemma_offset_lines_are_lines(t: Seq<char>, base: nat)
    requires
        !t.contains('\r'),
    ensures
        offset_lines_from(t, base).len() == lines_of(t).len(),
        forall|i: int|
            0 <= i < lines_of(t).len() ==> (#[trigger] offset_lines_from(t, base)[i]).1
                == lines_of(t)[i],
    decreases t.len(),
{
    lemma_line_end(t);
    let end = line_end(t) as int;
    if t.len() > 0 && end < t.len() {
        let first = t.take(end);
        let more = t.skip(end + 1);
        if first.len() > 0 {
            assert(first.last() == t[end - 1]);
            assert(t.contains(t[end - 1]));
        }
        assert(without_return(first) == first);
        assert(!more.contains('\r')) by {
            if more.contains('\r') {
                let i = choose|i: int| 0 <= i < more.len() && more[i] == '\r';
                assert(t[i + end + 1] == '\r');
            }
        }
        let next = base + utf8_len(t.take(end + 1));
        lemma_offset_lines_are_lines(more, next);
        assert forall|i: int| 0 <= i < lines_of(t).len() implies (#[trigger] offset_lines_from(
            t,
            base,
        )[i]).1 == lines_of(t)[i] by {
            if i > 0 {
                assert(offset_lines_from(t, base)[i] == offset_lines_from(more, next)[i - 1]);
                assert(lines_of(t)[i] == lines_of(more)[i - 1]);
            }
        }
    }
}

/// Entries that are not wanted do not move the last that is.
proof fn lemma_last_entry_stays(
    entries: Seq<(nat, Seq<char>)>,
    extra: Seq<(nat, Seq<char>)>,
    wanted: spec_fn(Seq<char>) -> bool,
)
    requires
        none_wanted(extra, 0, extra.len() as int, wanted),
    ensures
        last_entry(entries + extra, wanted) == last_entry(entries, wanted),
    decreases extra.len(),
{
    if extra.len() == 0 {
        assert(entries + extra =~= entries);
    } else {
        let shorter = extra.drop_last();
        assert((entries + extra).drop_last() =~= entries + shorter);
        assert((entries + extra).last() == extra[extra.len() - 1]);
        assert forall|j: int| #![trigger shorter[j]] 0 <= j < shorter.len() implies !wanted(
            shorter[j].1,
        ) by {
            assert(shorter[j] == extra[j]);
        }
        lemma_last_entry_stays(entries, shorter, wanted);
    }
}

/// Whether none of the lines of `t` is `wanted`.
pub open spec fn no_line(t: Seq<char>, wanted: spec_fn(Seq<char>) -> bool) -> bool {
    forall|i: int| 0 <= i < lines_of(t).len() ==> !wanted(#[trigger] lines_of(t)[i])
}

/// The line of a prompt that is looked for on a screen: the first that is not blank.
pub open spec fn prompt_line(prompt: Seq<char>) -> Seq<char> {
    trimmed(first_line_of(trimmed(prompt)))
}

/// The first line of a prompt says something, if the prompt does, and the prompt begins with it.
pub proof fn lemma_prompt_line(prompt: Seq<char>)
    requires
        !is_blank(prompt),
    ensures
        prompt_line(prompt).len() > 0,
        compacted(prompt_line(prompt)).len() > 0,
        has_prefix(compacted(prompt), compacted(prompt_line(prompt))),
        compacted(trimmed(prompt)) == compacted(prompt),
        compacted(prompt).len() > 0,
{
    let asked = trimmed(prompt);
    law_spacing_is_ignored(prompt);
    law_trimming_is_final(prompt);
    lemma_line_end(asked);
    let first = first_line_of(asked);
    let found = lines_of(asked);
    assert(first == found[0]);
    assert(first.len() > 0 && first[0] == asked[0]);
    assert(trimmed_start(first) == first);
    lemma_trimmed_end_of(first, CharSet::Space);
    assert(prompt_line(prompt).len() > 0) by {
        if trimmed(first).len() == 0 {
            assert(CharSet::Space.contains(first[0]));
        }
    }
    law_spacing_is_ignored(first);
    law_lines_keep_the_characters(asked);
    let more = compacted_parts(found.drop_first());
    assert(compacted(asked) == compacted(first) + more);
    assert(compacted(asked).take(compacted(first).len() as int) =~= compacted(first));
    law_spacing_is_ignored(prompt_line(prompt));
    law_trimming_is_final(first);
}

/// The screen that shows `head`, the lines `echo`, and `tail`.
pub open spec fn screen_of(head: Seq<char>, echo: Seq<Seq<char>>, tail: Seq<char>) -> Seq<char> {
    head + (joined_lines(echo) + seq!['\n'] + tail)
}

/// What a screen shows from the echo on.
pub proof fn lemma_from_echo(head: Seq<char>, echo: Seq<Seq<char>>, tail: Seq<char>)
    requires
        whole_lines(head),
        echo.len() > 0,
        one_line_each(echo),
        !tail.contains('\r'),
    ensures
        ({
            let rest = joined_lines(echo) + seq!['\n'] + tail;
            let found = offset_lines_from(rest, utf8_len(head));
            &&& suffix_at(screen_of(head, echo, tail), utf8_len(head)) == rest
            &&& lines_of(rest) == echo + lines_of(tail)
            &&& offset_lines(screen_of(head, echo, tail)) == offset_lines(head) + found
            &&& found.len() == echo.len() + lines_of(tail).len()
            &&& found[0].0 == utf8_len(head)
            &&& forall|i: int|
                0 <= i < found.len() ==> (#[trigger] found[i]).1 == (echo + lines_of(tail))[i]
        }),
{
    let shown = joined_lines(echo);
    let rest = shown + seq!['\n'] + tail;
    let start = utf8_len(head);
    lemma_suffix_at_prefix(head, rest);
    lemma_lines_of_joined(echo, tail);
    lemma_lines_of_parts(head, rest, 0);
    lemma_joined_holds_no_return(echo);
    assert(!rest.contains('\r')) by {
        if rest.contains('\r') {
            let i = choose|i: int| 0 <= i < rest.len() && rest[i] == '\r';
            if i < shown.len() {
                assert(shown[i] == '\r');
            } else {
                assert(tail[i - shown.len() - 1] == '\r');
            }
        }
    }
    lemma_offset_lines_are_lines(rest, start);
    lemma_line_end(rest);
}

/// Where the last line that shows a prompt stands on a screen.
proof fn lemma_last_marked_line(
    head: Seq<char>,
    echo: Seq<Seq<char>>,
    tail: Seq<char>,
    wanted: spec_fn(Seq<char>) -> bool,
)
    requires
        whole_lines(head),
        echo.len() > 0,
        one_line_each(echo),
        !tail.contains('\r'),
        wanted(echo[0]),
        forall|i: int| 1 <= i < echo.len() ==> !wanted(#[trigger] echo[i]),
        no_line(tail, wanted),
    ensures
        last_entry(offset_lines(screen_of(head, echo, tail)), wanted) == Some(utf8_len(head)),
{
    let rest = joined_lines(echo) + seq!['\n'] + tail;
    let start = utf8_len(head);
    lemma_from_echo(head, echo, tail);
    let found = offset_lines_from(rest, start);
    let extra = found.drop_first();
    lemma_none_wanted_behind(found, echo, tail, wanted);
    let entries = offset_lines(head).push(found[0]);
    assert(offset_lines(screen_of(head, echo, tail)) =~= entries + extra);
    lemma_last_entry_stays(entries, extra, wanted);
    assert(found[0].1 == (echo + lines_of(tail))[0]);
}

/// No line behind the first of an echo is wanted, if none of the echo and none of the rest is.
pub proof fn lemma_none_wanted_behind(
    found: Seq<(nat, Seq<char>)>,
    echo: Seq<Seq<char>>,
    tail: Seq<char>,
    wanted: spec_fn(Seq<char>) -> bool,
)
    requires
        echo.len() > 0,
        found.len() == echo.len() + lines_of(tail).len(),
        forall|i: int|
            0 <= i < found.len() ==> (#[trigger] found[i]).1 == (echo + lines_of(tail))[i],
        forall|i: int| 1 <= i < echo.len() ==> !wanted(#[trigger] echo[i]),
        no_line(tail, wanted),
    ensures
        none_wanted(found.drop_first(), 0, found.len() - 1, wanted),
{
    let extra = found.drop_first();
    assert forall|j: int| #![trigger extra[j]] 0 <= j < extra.len() implies !wanted(
        extra[j].1,
    ) by {
        assert(extra[j] == found[j + 1]);
        assert(found[j + 1].1 == (echo + lines_of(tail))[j + 1]);
        if j + 1 < echo.len() {
            assert(found[j + 1].1 == echo[j + 1]);
        } else {
            assert(found[j + 1].1 == lines_of(tail)[j + 1 - echo.len()]);
        }
    }
}

/// What is left of a region once the lines of the echo are taken off.
proof fn lemma_after_echo(echo: Seq<Seq<char>>, answer: Seq<Seq<char>>, prompt: Seq<char>)
    requires
        echo.len() > 0,
        one_line_each(echo),
        one_line_each(answer),
        echo.last().len() > 0,
        echo_lines(echo + without_empty_end(answer), prompt) == echo.len(),
    ensures
        after_prompt_echo(joined_lines(echo + answer), prompt) == joined_lines(
            without_empty_end(answer),
        ),
{
    lemma_lines_of_both(echo, answer);
    let kept = without_empty_end(answer);
    assert((echo + kept).skip(echo.len() as int) =~= kept);
}

/// The lines of an echo and an answer that were joined.
pub proof fn lemma_lines_of_both(echo: Seq<Seq<char>>, answer: Seq<Seq<char>>)
    requires
        echo.len() > 0,
        one_line_each(echo),
        one_line_each(answer),
        echo.last().len() > 0,
    ensures
        one_line_each(echo + answer),
        lines_of(joined_lines(echo + answer)) == echo + without_empty_end(answer),
{
    let all = echo + answer;
    assert forall|i: int| 0 <= i < all.len() implies one_line(#[trigger] all[i]) by {
        if i < echo.len() {
            assert(all[i] == echo[i]);
        } else {
            assert(all[i] == answer[i - echo.len()]);
        }
    }
    law_joined_lines_are_lines(all);
    if answer.len() > 0 {
        assert(all.last() == answer.last());
        assert(all.drop_last() =~= echo + answer.drop_last());
    } else {
        assert(all =~= echo);
        assert(echo + without_empty_end(answer) =~= echo);
    }
}

pub proof fn lemma_lines_before_are_lines(
    lines: Seq<Seq<char>>,
    stop: spec_fn(Seq<char>) -> bool,
)
    requires
        forall|i: int| 0 <= i < lines.len() ==> one_line(#[trigger] lines[i]),
    ensures
        forall|i: int|
            0 <= i < lines_before(lines, stop).len() ==> one_line(
                #[trigger] lines_before(lines, stop)[i],
            ),
    decreases lines.len(),
{
    if lines.len() > 0 && !stop(lines[0]) {
        let rest = lines.drop_first();
        assert forall|i: int| 0 <= i < rest.len() implies one_line(#[trigger] rest[i]) by {
            assert(rest[i] == lines[i + 1]);
        }
        lemma_lines_before_are_lines(rest, stop);
        assert forall|i: int| 0 <= i < lines_before(lines, stop).len() implies one_line(
            #[trigger] lines_before(lines, stop)[i],
        ) by {
            if i > 0 {
                assert(lines_before(lines, stop)[i] == lines_before(rest, stop)[i - 1]);
            }
        }
    }
}

/// Lines that stop nothing come before those that are left of the rest.
pub proof fn lemma_lines_before_behind(
    first: Seq<Seq<char>>,
    rest: Seq<Seq<char>>,
    stop: spec_fn(Seq<char>) -> bool,
)
    requires
        forall|i: int| 0 <= i < first.len() ==> !stop(#[trigger] first[i]),
    ensures
        lines_before(first + rest, stop) == first + lines_before(rest, stop),
    decreases first.len(),
{
    if first.len() == 0 {
        assert(first + rest =~= rest);
        assert(first + lines_before(rest, stop) =~= lines_before(rest, stop));
    } else {
        let more = first.drop_first();
        assert forall|i: int| 0 <= i < more.len() implies !stop(#[trigger] more[i]) by {
            assert(more[i] == first[i + 1]);
        }
        lemma_lines_before_behind(more, rest, stop);
        assert((first + rest).drop_first() =~= more + rest);
        assert((first + rest)[0] == first[0]);
        assert(seq![first[0]] + (more + lines_before(rest, stop)) =~= first + lines_before(
            rest,
            stop,
        ));
    }
}

/// With Codex, what the agent says in a turn is what stands on the screen behind the last echo of
/// the prompt, until the next prompt or the footer. What the screen showed before does not matter,
/// and neither does what stands before the echo.
pub proof fn law_codex_turn(
    before: Seq<char>,
    head: Seq<char>,
    echo: Seq<Seq<char>>,
    tail: Seq<char>,
    prompt: Seq<char>,
)
    requires
        whole_lines(head),
        echo.len() > 0,
        one_line_each(echo),
        echo.last().len() > 0,
        !tail.contains('\r'),
        !is_blank(prompt),
        marked_echo_of(compacted(prompt_line(prompt)), "› "@)(echo[0]),
        forall|i: int| 1 <= i < echo.len() ==> !codex_end()(#[trigger] echo[i]),
        no_line(tail, marked_echo_of(compacted(prompt_line(prompt)), "› "@)),
        echo_lines(
            echo + without_empty_end(lines_before(lines_of(tail), codex_end())),
            trimmed(prompt),
        ) == echo.len(),
    ensures
        turn_output(before, screen_of(head, echo, tail), prompt) == joined_lines(
            without_empty_end(lines_before(lines_of(tail), codex_end())),
        ),
{
    reveal_strlit("› ");
    let rest = joined_lines(echo) + seq!['\n'] + tail;
    let wanted = marked_echo_of(compacted(prompt_line(prompt)), "› "@);
    let answer = lines_before(lines_of(tail), codex_end());
    lemma_prompt_line(prompt);
    lemma_from_echo(head, echo, tail);
    assert forall|i: int| 1 <= i < echo.len() implies !wanted(#[trigger] echo[i]) by {
        if wanted(echo[i]) {
            assert(trimmed_start(echo[i]).take(2)[0] == '›');
            assert(codex_end()(echo[i]));
        }
    }
    lemma_last_marked_line(head, echo, tail, wanted);
    let more = echo.drop_first();
    assert((echo + lines_of(tail)).drop_first() =~= more + lines_of(tail));
    assert forall|i: int| 0 <= i < more.len() implies !codex_end()(#[trigger] more[i]) by {
        assert(more[i] == echo[i + 1]);
    }
    lemma_lines_before_behind(more, lines_of(tail), codex_end());
    assert(seq![echo[0]] + (more + answer) =~= echo + answer);
    assert(before_codex_end(rest) == joined_lines(echo + answer));
    lemma_lines_hold_no_return(tail);
    lemma_lines_before_are_lines(lines_of(tail), codex_end());
    lemma_after_echo(echo, answer, trimmed(prompt));
}

/// With AGY, what the agent says in a turn is what stands on the screen behind the last echo of
/// the prompt, until a separator.
pub proof fn law_agy_turn(
    before: Seq<char>,
    head: Seq<char>,
    echo: Seq<Seq<char>>,
    tail: Seq<char>,
    prompt: Seq<char>,
)
    requires
        whole_lines(head),
        echo.len() > 0,
        one_line_each(echo),
        echo.last().len() > 0,
        !tail.contains('\r'),
        !is_blank(prompt),
        marked_prompt_offset(screen_of(head, echo, tail), prompt_line(prompt), "› "@) is None,
        marked_echo_of(compacted(prompt_line(prompt)), "> "@)(echo[0]),
        forall|i: int| #![trigger echo[i]]
            1 <= i < echo.len() ==> !tui_separator(echo[i]) && !marked_echo_of(
                compacted(prompt_line(prompt)),
                "> "@,
            )(echo[i]),
        no_line(tail, marked_echo_of(compacted(prompt_line(prompt)), "> "@)),
        echo_lines(
            echo + without_empty_end(lines_before(lines_of(tail), separator())),
            trimmed(prompt),
        ) == echo.len(),
    ensures
        turn_output(before, screen_of(head, echo, tail), prompt) == joined_lines(
            without_empty_end(lines_before(lines_of(tail), separator())),
        ),
{
    let rest = joined_lines(echo) + seq!['\n'] + tail;
    let wanted = marked_echo_of(compacted(prompt_line(prompt)), "> "@);
    let answer = lines_before(lines_of(tail), separator());
    lemma_prompt_line(prompt);
    lemma_from_echo(head, echo, tail);
    lemma_last_marked_line(head, echo, tail, wanted);
    lemma_marked_line_is_no_separator(echo[0]);
    assert forall|i: int| 0 <= i < echo.len() implies !separator()(#[trigger] echo[i]) by {}
    lemma_lines_before_behind(echo, lines_of(tail), separator());
    assert(before_separator(rest) == joined_lines(echo + answer));
    lemma_lines_hold_no_return(tail);
    lemma_lines_before_are_lines(lines_of(tail), separator());
    lemma_after_echo(echo, answer, trimmed(prompt));
}

/// A line behind the mark of AGY is no separator.
proof fn lemma_marked_line_is_no_separator(line: Seq<char>)
    requires
        has_prefix(trimmed_start(line), "> "@),
    ensures
        !tui_separator(line),
{
    reveal_strlit("> ");
    reveal_strlit("─ Worked for ");
    reveal_strlit("Worked for ");
    reveal_strlit("Help improve");
    reveal_strlit("Shift+Tab");
    let begun = trimmed_start(line);
    let t = trimmed(line);
    lemma_trimmed_start(line);
    lemma_trimmed_end_of(begun, CharSet::Space);
    assert(begun.take(2)[0] == '>');
    assert(t.len() > 0) by {
        if t.len() == 0 {
            assert(CharSet::Space.contains(begun[0]));
        }
    }
    assert(t[0] == begun.take(t.len() as int)[0]);
    if has_prefix(t, "─ Worked for "@) {
        assert(t.take(13)[0] == '─');
    }
    if has_prefix(t, "Worked for "@) {
        assert(t.take(11)[0] == 'W');
    }
    if has_prefix(t, "Help improve"@) {
        assert(t.take(12)[0] == 'H');
    }
    if has_prefix(t, "Shift+Tab"@) {
        assert(t.take(9)[0] == 'S');
    }
}

/// An empty line echoes nothing.
proof fn lemma_echo_is_not_empty(line: Seq<char>)
    requires
        echo_text(line).len() > 0,
    ensures
        line.len() > 0,
{
    if line.len() == 0 {
        reveal_strlit("❯ ");
        reveal_strlit("› ");
        reveal_strlit("> ");
        reveal_strlit(" AM");
        reveal_strlit(" PM");
        assert(trimmed_start(line) == line);
        assert(without_gutter(line) == line);
        assert(words_of(line) =~= seq![]);
    }
}

/// The lines that together show the whole prompt behind a marker, wherever the screen broke it, are
/// found as its echo and taken for it.
pub proof fn law_wrapped_echo_is_found(
    echo: Seq<Seq<char>>,
    rest: Seq<Seq<char>>,
    prompt: Seq<char>,
    marker: Seq<char>,
)
    requires
        !is_blank(prompt),
        marker == "› "@ || marker == "> "@,
        echo_in_pieces(echo, echo.len()),
        compacted_parts(echo_pieces(echo)) == compacted(prompt),
        has_prefix(trimmed_start(echo[0]), marker),
        marker == "> "@ ==> leading_count(echo[0], ' ') <= 2,
    ensures
        marked_echo_of(compacted(prompt_line(prompt)), marker)(echo[0]),
        echo_lines(echo + rest, trimmed(prompt)) == echo.len(),
        echo.last().len() > 0,
{
    lemma_echo_is_not_empty(echo[echo.len() - 1]);
    reveal_strlit("› ");
    reveal_strlit("> ");
    reveal_strlit("│ ❯");
    reveal_strlit("│❯");
    let line = echo[0];
    let t = trimmed_start(line);
    let expected = compacted(prompt_line(prompt));
    lemma_prompt_line(prompt);
    assert(t.take(2)[0] == marker[0]);
    if has_prefix(t, "│ ❯"@) {
        assert(t.take(3)[0] == '│');
    }
    if has_prefix(t, "│❯"@) {
        assert(t.take(2)[0] == '│');
    }
    lemma_echoed_chars(line);
    let pieces = echo_pieces(echo);
    let said = compacted(echo_text(line));
    assert(pieces[0] == echo_text(line));
    assert(compacted(prompt) == said + compacted_parts(pieces.drop_first()));
    assert(compacted(prompt).take(said.len() as int) =~= said);
    assert(compacted(prompt).take(expected.len() as int) =~= expected);
    if said.len() <= expected.len() {
        assert(expected.take(said.len() as int) =~= said);
    } else {
        assert(said.take(expected.len() as int) =~= expected);
    }
    let all = echo + rest;
    assert forall|i: int| #![trigger all[i]] 0 <= i < echo.len() implies {
        &&& echo_text(all[i]).len() > 0
        &&& !truncated_echo(echo_text(all[i]))
        &&& i > 0 ==> !tui_separator(all[i]) && !grok_chrome_line(all[i])
    } by {
        assert(all[i] == echo[i]);
    }
    assert(all.take(echo.len() as int) =~= echo);
    law_wrapped_echo_is_consumed(all, trimmed(prompt), echo.len());
}

/// Where no line of the screen shows the prompt, and where the prompt is blank, the turn is what is new
/// on the screen.
pub proof fn law_turn_without_an_echo(before: Seq<char>, after: Seq<char>, prompt: Seq<char>)
    ensures
        blank_from(prompt, 0) ==> turn_output(before, after, prompt) == delta(before, after),
        !blank_from(prompt, 0) && (forall|i: int| #![trigger offset_lines(after)[i]]
            0 <= i < offset_lines(after).len() ==> {
                let line = offset_lines(after)[i].1;
                &&& !marked_echo_of(compacted(prompt_line(prompt)), "› "@)(line)
                &&& !marked_echo_of(compacted(prompt_line(prompt)), "> "@)(line)
                &&& !echo_of(prompt_line(prompt))(line)
            }) ==> turn_output(before, after, prompt) == delta(before, after),
{
    law_blank_lines(prompt);
    let entries = offset_lines(after);
    if blank_from(prompt, 0) {
        assert(trimmed(prompt) =~= seq![]);
        assert(first_line_of(trimmed(prompt)) =~= seq![]);
        assert(trimmed(first_line_of(trimmed(prompt))).len() == 0);
    } else {
        lemma_prompt_line(prompt);
        let codex = marked_echo_of(compacted(prompt_line(prompt)), "› "@);
        let agy = marked_echo_of(compacted(prompt_line(prompt)), "> "@);
        let grok = echo_of(prompt_line(prompt));
        if forall|i: int| #![trigger entries[i]]
            0 <= i < entries.len() ==> !codex(entries[i].1) && !agy(entries[i].1) && !grok(
                entries[i].1,
            ) {
            law_last_marked_prompt_is_taken(after, prompt_line(prompt), "› "@);
            law_last_marked_prompt_is_taken(after, prompt_line(prompt), "> "@);
            law_real_turn_is_preferred(after, grok);
        }
    }
}

/// A screen that shares no line with the end of the one before is new as a whole.
pub proof fn law_other_screen_is_new(before: Seq<char>, after: Seq<char>)
    requires
        forall|count: int| count > 0 ==> !overlaps(lines_of(before), lines_of(after), count),
    ensures
        delta(before, after) == trimmed(after),
{
    law_overlap_is_the_largest(lines_of(before), lines_of(after));
}

/// A region ends before the first separator; what stands behind that does not matter.
pub proof fn law_separator_ends_a_region(said: Seq<Seq<char>>, rest: Seq<Seq<char>>)
    requires
        one_line_each(said),
        one_line_each(rest),
        forall|i: int| 0 <= i < said.len() ==> !tui_separator(#[trigger] said[i]),
        rest.len() > 0,
        tui_separator(rest[0]),
    ensures
        before_separator(joined_lines(said + rest)) == joined_lines(said),
{
    reveal_strlit("─ Worked for ");
    reveal_strlit("Worked for ");
    reveal_strlit("Help improve");
    reveal_strlit("Shift+Tab");
    let all = said + rest;
    assert forall|i: int| 0 <= i < all.len() implies one_line(#[trigger] all[i]) by {
        if i < said.len() {
            assert(all[i] == said[i]);
        } else {
            assert(all[i] == rest[i - said.len()]);
        }
    }
    law_joined_lines_are_lines(all);
    let read = lines_of(joined_lines(all));
    assert(rest[0].len() > 0) by {
        if rest[0].len() == 0 {
            assert(trimmed(rest[0]).len() == 0);
        }
    }
    assert forall|i: int| 0 <= i < said.len() implies !separator()(#[trigger] read[i]) by {
        assert(read[i] == said[i]);
    }
    assert(read[said.len() as int] == rest[0]);
    lemma_lines_before(read, separator(), said.len() as int);
    assert(read.take(said.len() as int) =~= said);
}

} // verus!
