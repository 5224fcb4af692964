//! What holds of every answer that is read off a screen.

use crate::chars::is_white_space;
use crate::classify::{
    codex_prompt_line, codex_tool_or_notice, grok_chrome_line, grok_mark, grok_status_bar,
    herdr_unwrap_duplicate,
};
use crate::clock::{without_clock, without_gutter};
use crate::grok_line::{cleaned_line, unquoted_line};
use crate::line_laws::{
    compacted_parts, law_lines_hold_no_line_feed, law_lines_keep_the_characters,
    law_spacing_is_ignored, lemma_compacted_joined, lemma_compacted_parts_last, lemma_joined_first,
    lemma_line_end_of, lemma_lines_of_first, lemma_without_chars_parts,
};
use crate::lines::{
    compacted, joined_lines, lemma_line_end, line_end, lines_before, lines_of, without_return,
};
use crate::response::{
    code_fence, codex_answer, codex_end, codex_response, continues, final_response, grok_answer,
    grok_body_start, grok_end, grok_region, grok_response, legacy_marker, unmarked, unwrapped,
    unwrapped_text, without_last_gaps, without_markers,
};
use crate::text::{
    begins_with, has_text, law_trimming_is_final, lemma_trimmed_end_of_padding, trimmed,
    trimmed_end, trimmed_end_of, trimmed_start, CharSet,
};
use vstd::prelude::*;

verus! {

/// An answer that was found is not blank, and no white space stands around it.
pub proof fn law_answers_are_not_blank(t: Seq<char>, prompt: Seq<char>)
    ensures
        codex_response(t) matches Some(answer) ==> answer.len() > 0 && trimmed(answer) == answer,
        grok_response(t, prompt) matches Some(answer) ==> answer.len() > 0 && trimmed(answer)
            == answer,
{
    let said = codex_answer(lines_before(lines_of(t), codex_end()));
    let codex = joined_lines(unmarked(lines_of(joined_lines(said))));
    law_trimming_is_final(codex);
    let all = lines_of(grok_region(t, prompt));
    let shown = lines_before(
        all.skip(grok_body_start(all, prompt) as int),
        grok_end(),
    );
    let grok = joined_lines(
        unmarked(lines_of(joined_lines(without_last_gaps(grok_answer(shown))))),
    );
    law_trimming_is_final(grok);
}

/// A screen with a Codex prompt is not read as one of Grok, and neither is one that shows no sign
/// of Grok.
pub proof fn law_grok_leaves_other_screens_alone(t: Seq<char>, prompt: Seq<char>)
    ensures
        (exists|i: int| 0 <= i < lines_of(t).len() && codex_prompt_line(#[trigger] lines_of(t)[i]))
            ==> grok_response(t, prompt) is None,
        !t.contains('❯') && (forall|i: int|
            0 <= i < lines_of(t).len() ==> !grok_mark(#[trigger] lines_of(t)[i])) ==> grok_response(
            t,
            prompt,
        ) is None,
{
}

/// Status bars, prompts, copies that Herdr made and chrome add nothing to an answer of Grok.
pub proof fn law_chrome_adds_nothing(lines: Seq<Seq<char>>, line: Seq<char>)
    requires
        has_text(line, "❯ "@) || grok_status_bar(line) || herdr_unwrap_duplicate(line)
            || grok_chrome_line(line),
    ensures
        grok_answer(lines.push(line)) == grok_answer(lines),
{
    reveal_strlit("Thought for ");
    reveal_strlit("▼");
    reveal_strlit("▲");
    assert(lines.push(line).drop_last() =~= lines);
    assert(lines.push(line).last() == line);
}

proof fn lemma_unquoted_is_trimmed(line: Seq<char>)
    ensures
        unquoted_line(line) matches Some(text) ==> trimmed(text) == text,
{
    let t = cleaned_line(line);
    law_trimming_is_final(
        without_clock(
            trimmed_end(
                trimmed_end_of(
                    without_gutter(line),
                    CharSet::Only('│'),
                ),
            ),
        ),
    );
    law_trimming_is_final(trimmed_end_of(t.skip(1), CharSet::Only('│')));
}

/// An answer of Grok begins with text, has no white space around its lines, and never shows the
/// same line twice in a row: not a text, and not a gap.
pub proof fn law_grok_answer_repeats_no_line(lines: Seq<Seq<char>>)
    ensures
        grok_answer(lines).len() > 0 ==> grok_answer(lines)[0].len() > 0,
        forall|i: int|
            0 <= i < grok_answer(lines).len() ==> trimmed(#[trigger] grok_answer(lines)[i])
                == grok_answer(lines)[i],
        forall|i: int, j: int|
            0 <= i && j == i + 1 && j < grok_answer(lines).len() ==> #[trigger] grok_answer(
                lines,
            )[i] != #[trigger] grok_answer(lines)[j],
    decreases lines.len(),
{
    if lines.len() > 0 {
        let before = grok_answer(lines.drop_last());
        let now = grok_answer(lines);
        law_grok_answer_repeats_no_line(lines.drop_last());
        lemma_unquoted_is_trimmed(lines.last());
        let gap: Seq<char> = Seq::empty();
        assert(trimmed(gap) =~= gap);
        assert(now == before || now == before.push(now.last()));
        assert forall|i: int| 0 <= i < now.len() implies trimmed(#[trigger] now[i]) == now[i] by {
            if i < before.len() {
                assert(now[i] == before[i]);
            }
        }
        assert forall|i: int, j: int|
            0 <= i && j == i + 1 && j < now.len() implies #[trigger] now[i]
            != #[trigger] now[j] by {
            if j < before.len() {
                assert(now[i] == before[i] && now[j] == before[j]);
            }
        }
    }
}

/// Whether `shown` is what Codex shows of `line` in its answer: its text, which is no prompt, no
/// footer, no tool call and no notice.
pub open spec fn codex_shows(line: Seq<char>, shown: Seq<char>) -> bool {
    shown == trimmed_start(line) && !codex_tool_or_notice(line) && !codex_end()(line)
}

/// Nothing but the agent's own words comes into an answer of Codex: each line that is not a gap is
/// a line of the screen, and no prompt, footer, tool call or notice.
pub proof fn law_codex_answer_is_of_the_agent(lines: Seq<Seq<char>>)
    requires
        forall|j: int| 0 <= j < lines.len() ==> !codex_end()(#[trigger] lines[j]),
    ensures
        forall|i: int| #![trigger codex_answer(lines)[i]]
            0 <= i < codex_answer(lines).len() ==> codex_answer(lines)[i].len() == 0 || exists|
                j: int,
            |
                0 <= j < lines.len() && #[trigger] codex_shows(lines[j], codex_answer(lines)[i]),
    decreases lines.len(),
{
    if lines.len() > 0 {
        let shorter = lines.drop_last();
        let before = codex_answer(shorter);
        let now = codex_answer(lines);
        assert forall|j: int| 0 <= j < shorter.len() implies !codex_end()(
            #[trigger] shorter[j],
        ) by {
            assert(shorter[j] == lines[j]);
        }
        law_codex_answer_is_of_the_agent(shorter);
        assert forall|i: int| #![trigger now[i]] 0 <= i < now.len() implies now[i].len() == 0
            || exists|j: int| 0 <= j < lines.len() && #[trigger] codex_shows(lines[j], now[i]) by {
            if i < before.len() {
                assert(now[i] == before[i]);
                if before[i].len() > 0 {
                    let j = choose|j: int|
                        0 <= j < shorter.len() && #[trigger] codex_shows(shorter[j], before[i]);
                    assert(codex_shows(lines[j], now[i]));
                }
            } else {
                let j = lines.len() - 1;
                assert(!codex_end()(lines[j]));
                assert(codex_shows(lines[j], trimmed_start(lines[j])));
            }
        }
    }
}

/// An indented line that is no tool call and no notice is kept, without its indent.
pub proof fn law_codex_keeps_indented_lines(lines: Seq<Seq<char>>, line: Seq<char>)
    requires
        begins_with(line, ' ') || begins_with(line, '\t') || begins_with(trimmed_start(line), '•'),
        !codex_tool_or_notice(line),
    ensures
        codex_answer(lines.push(line)) == codex_answer(lines).push(trimmed_start(line)),
{
    assert(lines.push(line).drop_last() =~= lines);
    assert(lines.push(line).last() == line);
}

/// White space at the end of a text does not matter to what is inside.
pub proof fn lemma_trimmed_last(t: Seq<char>, c: char)
    requires
        is_white_space(c),
    ensures
        trimmed(t.push(c)) == trimmed(t),
    decreases t.len(),
{
    if t.len() == 0 {
        let one = t.push(c);
        assert(one.drop_first() =~= t);
        assert(trimmed_start(one) == trimmed_start(t));
    } else if is_white_space(t[0]) {
        assert(t.push(c).drop_first() =~= t.drop_first().push(c));
        lemma_trimmed_last(t.drop_first(), c);
    } else {
        let end: Seq<char> = seq![c];
        assert(t.push(c) =~= t + end);
        lemma_trimmed_end_of_padding(t, end, CharSet::Space);
    }
}

/// Whether no line of `t` is a marker.
pub open spec fn no_markers(t: Seq<char>) -> bool {
    forall|i: int| 0 <= i < lines_of(t).len() ==> !legacy_marker(#[trigger] lines_of(t)[i])
}

/// A carriage return at the end of a line is white space like any other.
pub proof fn lemma_return_is_white_space(line: Seq<char>)
    ensures
        legacy_marker(without_return(line)) == legacy_marker(line),
        trimmed(without_return(line)) == trimmed(line),
{
    if line.len() > 0 && line.last() == '\r' {
        lemma_trimmed_last(line.drop_last(), '\r');
        assert(line.drop_last().push('\r') =~= line);
    }
}

/// Whether a text of a first line and more lines is without markers.
proof fn lemma_no_markers_first(line: Seq<char>, rest: Seq<char>)
    requires
        !line.contains('\n'),
    ensures
        no_markers(line + seq!['\n'] + rest) <==> !legacy_marker(line) && no_markers(rest),
{
    let t = line + seq!['\n'] + rest;
    lemma_lines_of_first(line, rest);
    lemma_return_is_white_space(line);
    assert(lines_of(t)[0] == without_return(line));
    if no_markers(t) {
        assert forall|i: int| 0 <= i < lines_of(rest).len() implies !legacy_marker(
            #[trigger] lines_of(rest)[i],
        ) by {
            assert(lines_of(t)[i + 1] == lines_of(rest)[i]);
        }
    }
    if !legacy_marker(line) && no_markers(rest) {
        assert forall|i: int| 0 <= i < lines_of(t).len() implies !legacy_marker(
            #[trigger] lines_of(t)[i],
        ) by {
            if i > 0 {
                assert(lines_of(t)[i] == lines_of(rest)[i - 1]);
            }
        }
    }
}

/// Whether a text of one line is without markers.
proof fn lemma_no_markers_alone(line: Seq<char>)
    requires
        !line.contains('\n'),
    ensures
        no_markers(line) <==> !legacy_marker(line),
{
    lemma_line_end_of(line, seq![]);
    if line.len() == 0 {
        reveal_strlit("COKACDIR_RESPONSE_BEGIN_");
        reveal_strlit("COKACDIR_RESPONSE_END_");
    } else {
        assert(lines_of(line)[0] == line);
    }
}

/// Taking white space off the start of a text brings no marker.
proof fn lemma_no_markers_behind(t: Seq<char>)
    requires
        no_markers(t),
        t.len() > 0,
        is_white_space(t[0]),
    ensures
        no_markers(t.drop_first()),
{
    lemma_line_end(t);
    let end = line_end(t) as int;
    let line = t.take(end);
    assert(!line.contains('\n'));
    if end < t.len() {
        let rest = t.skip(end + 1);
        assert(t =~= line + seq!['\n'] + rest);
        lemma_no_markers_first(line, rest);
        if end == 0 {
            assert(t.drop_first() =~= rest);
        } else {
            let shorter = line.drop_first();
            assert(t.drop_first() =~= shorter + seq!['\n'] + rest);
            assert(!shorter.contains('\n')) by {
                if shorter.contains('\n') {
                    let i = choose|i: int| 0 <= i < shorter.len() && shorter[i] == '\n';
                    assert(line[i + 1] == '\n');
                }
            }
            assert(trimmed(line) == trimmed(shorter));
            lemma_no_markers_first(shorter, rest);
        }
    } else {
        assert(line =~= t);
        lemma_no_markers_alone(t);
        let shorter = t.drop_first();
        assert(!shorter.contains('\n')) by {
            if shorter.contains('\n') {
                let i = choose|i: int| 0 <= i < shorter.len() && shorter[i] == '\n';
                assert(t[i + 1] == '\n');
            }
        }
        assert(trimmed(t) == trimmed(shorter));
        lemma_no_markers_alone(shorter);
    }
}

/// Taking white space off the end of a text brings no marker.
proof fn lemma_no_markers_ahead(t: Seq<char>)
    requires
        no_markers(t),
        t.len() > 0,
        is_white_space(t.last()),
    ensures
        no_markers(t.drop_last()),
    decreases t.len(),
{
    lemma_line_end(t);
    let end = line_end(t) as int;
    let line = t.take(end);
    assert(!line.contains('\n'));
    if end < t.len() {
        let rest = t.skip(end + 1);
        assert(t =~= line + seq!['\n'] + rest);
        lemma_no_markers_first(line, rest);
        if rest.len() == 0 {
            assert(t.drop_last() =~= line);
            lemma_no_markers_alone(line);
        } else {
            assert(rest.last() == t.last());
            lemma_no_markers_ahead(rest);
            assert(t.drop_last() =~= line + seq!['\n'] + rest.drop_last());
            lemma_no_markers_first(line, rest.drop_last());
        }
    } else {
        assert(line =~= t);
        lemma_no_markers_alone(t);
        let shorter = t.drop_last();
        assert(!shorter.contains('\n')) by {
            if shorter.contains('\n') {
                let i = choose|i: int| 0 <= i < shorter.len() && shorter[i] == '\n';
                assert(t[i] == '\n');
            }
        }
        assert(shorter.push(t.last()) =~= t);
        lemma_trimmed_last(shorter, t.last());
        lemma_no_markers_alone(shorter);
    }
}

proof fn lemma_no_markers_from(t: Seq<char>)
    requires
        no_markers(t),
    ensures
        no_markers(trimmed_start(t)),
    decreases t.len(),
{
    if t.len() > 0 && is_white_space(t[0]) {
        lemma_no_markers_behind(t);
        lemma_no_markers_from(t.drop_first());
    }
}

proof fn lemma_no_markers_until(t: Seq<char>)
    requires
        no_markers(t),
    ensures
        no_markers(trimmed_end(t)),
    decreases t.len(),
{
    if t.len() > 0 && is_white_space(t.last()) {
        lemma_no_markers_ahead(t);
        lemma_no_markers_until(t.drop_last());
    }
}

proof fn lemma_joined_without_markers(parts: Seq<Seq<char>>)
    requires
        forall|i: int| #![trigger parts[i]]
            0 <= i < parts.len() ==> !parts[i].contains('\n') && !legacy_marker(parts[i]),
    ensures
        no_markers(joined_lines(parts)),
    decreases parts.len(),
{
    if parts.len() == 1 {
        lemma_no_markers_alone(parts[0]);
    } else if parts.len() > 1 {
        let rest = parts.drop_first();
        assert(parts =~= seq![parts[0]] + rest);
        assert forall|i: int| #![trigger rest[i]] 0 <= i < rest.len() implies !rest[i].contains(
            '\n',
        ) && !legacy_marker(rest[i]) by {
            assert(rest[i] == parts[i + 1]);
        }
        lemma_joined_without_markers(rest);
        lemma_joined_first(parts[0], rest, '\n');
        lemma_no_markers_first(parts[0], joined_lines(rest));
    }
}

proof fn lemma_unmarked(lines: Seq<Seq<char>>)
    requires
        forall|i: int| 0 <= i < lines.len() ==> !(#[trigger] lines[i]).contains('\n'),
    ensures
        forall|i: int| #![trigger unmarked(lines)[i]]
            0 <= i < unmarked(lines).len() ==> !unmarked(lines)[i].contains('\n')
                && !legacy_marker(unmarked(lines)[i]),
    decreases lines.len(),
{
    if lines.len() > 0 {
        let shorter = lines.drop_last();
        let before = unmarked(shorter);
        assert forall|i: int| 0 <= i < shorter.len() implies !(#[trigger] shorter[i]).contains(
            '\n',
        ) by {
            assert(shorter[i] == lines[i]);
        }
        lemma_unmarked(shorter);
        assert(lines.last() == lines[lines.len() - 1]);
        assert forall|i: int| #![trigger unmarked(lines)[i]]
            0 <= i < unmarked(lines).len() implies !unmarked(lines)[i].contains('\n')
            && !legacy_marker(unmarked(lines)[i]) by {
            if i < before.len() {
                assert(unmarked(lines)[i] == before[i]);
            }
        }
    }
}

/// No line of a text that markers were taken out of is a marker, and so no answer shows one.
pub proof fn law_markers_are_gone(t: Seq<char>)
    ensures
        no_markers(without_markers(t)),
{
    law_lines_hold_no_line_feed(t);
    lemma_unmarked(lines_of(t));
    let kept = joined_lines(unmarked(lines_of(t)));
    lemma_joined_without_markers(unmarked(lines_of(t)));
    lemma_no_markers_from(kept);
    lemma_no_markers_until(trimmed_start(kept));
}

/// In a code fence each line is kept as it stands, but for white space at its end.
pub proof fn law_code_is_kept(lines: Seq<Seq<char>>, raw: Seq<char>)
    requires
        unwrapped(lines).in_code_fence,
    ensures
        unwrapped(lines.push(raw)).lines == unwrapped(lines).lines.push(trimmed_end(raw)),
{
    assert(lines.push(raw).drop_last() =~= lines);
    assert(lines.push(raw).last() == raw);
}

proof fn lemma_compacted_push(parts: Seq<Seq<char>>, part: Seq<char>)
    ensures
        compacted_parts(parts.push(part)) == compacted_parts(parts) + compacted(part),
{
    lemma_compacted_parts_last(parts.push(part));
    assert(parts.push(part).drop_last() =~= parts);
}

proof fn lemma_compacted_end(t: Seq<char>)
    ensures
        compacted(trimmed_end(t)) == compacted(t),
    decreases t.len(),
{
    if t.len() > 0 && is_white_space(t.last()) {
        lemma_compacted_end(t.drop_last());
    }
}

proof fn lemma_unwrapped_characters(lines: Seq<Seq<char>>)
    ensures
        compacted_parts(unwrapped(lines).lines) == compacted_parts(lines),
    decreases lines.len(),
{
    if lines.len() > 0 {
        let shorter = lines.drop_last();
        let raw = lines.last();
        let line = trimmed_end(raw);
        let state = unwrapped(shorter);
        let gap: Seq<char> = Seq::empty();
        lemma_unwrapped_characters(shorter);
        lemma_compacted_parts_last(lines);
        lemma_compacted_end(raw);
        lemma_compacted_push(state.lines, line);
        lemma_compacted_push(state.lines, gap);
        law_spacing_is_ignored(line);
        assert(compacted(gap) =~= gap);
        assert(compacted_parts(state.lines) + gap =~= compacted_parts(state.lines));
        if !state.in_code_fence && trimmed(line).len() == 0 {
            assert(compacted_parts(shorter) + compacted(raw) =~= compacted_parts(shorter));
        } else if !state.in_code_fence && !code_fence(line) && continues(
            state.lines,
            line,
        ) {
            let last = state.lines.last();
            let spaced = last.push(' ') + trimmed(line);
            lemma_compacted_parts_last(state.lines);
            lemma_compacted_push(state.lines.drop_last(), spaced);
            lemma_without_chars_parts(last.push(' '), trimmed(line), CharSet::Space);
            assert(last.push(' ').drop_last() =~= last);
            assert(compacted(last.push(' ')) == compacted(last));
            assert(compacted_parts(state.lines.drop_last()) + (compacted(last) + compacted(raw))
                =~= compacted_parts(state.lines) + compacted(raw));
        }
    }
}

proof fn lemma_gaps_hold_nothing(lines: Seq<Seq<char>>)
    ensures
        compacted_parts(without_last_gaps(lines)) == compacted_parts(lines),
    decreases lines.len(),
{
    if lines.len() > 0 && lines.last().len() == 0 {
        lemma_gaps_hold_nothing(lines.drop_last());
        lemma_compacted_parts_last(lines);
        assert(compacted(lines.last()) =~= seq![]);
        assert(compacted_parts(lines.drop_last()) + Seq::<char>::empty() =~= compacted_parts(
            lines.drop_last(),
        ));
    }
}

/// Unwrapping lines that a terminal broke changes nothing but white space.
pub proof fn law_unwrapping_keeps_the_characters(lines: Seq<Seq<char>>)
    ensures
        compacted(unwrapped_text(lines)) == compacted(joined_lines(lines)),
{
    lemma_unwrapped_characters(lines);
    lemma_gaps_hold_nothing(unwrapped(lines).lines);
    lemma_compacted_joined(without_last_gaps(unwrapped(lines).lines), '\n');
    lemma_compacted_joined(lines, '\n');
}

/// Where neither Grok nor Codex is recognised, the answer is all that the screen shows, but for
/// markers and white space.
pub proof fn law_other_screens_are_kept(t: Seq<char>, prompt: Seq<char>)
    requires
        grok_response(t, prompt) is None,
        codex_response(t) is None,
    ensures
        compacted(final_response(t, prompt)) == compacted(without_markers(t)),
        compacted(final_response(t, prompt)) == compacted_parts(unmarked(lines_of(t))),
{
    let kept = without_markers(t);
    law_unwrapping_keeps_the_characters(lines_of(kept));
    law_lines_keep_the_characters(kept);
    law_spacing_is_ignored(joined_lines(unmarked(lines_of(t))));
    lemma_compacted_joined(unmarked(lines_of(t)), '\n');
}

} // verus!
