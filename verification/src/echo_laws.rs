//! What holds of the echo of a prompt, wherever it stands on a screen.

use crate::chars::{is_white_space, suffix_at};
use crate::classify::{grok_chrome_line, grok_input_box_line, tui_separator};
use crate::classify_laws::{blank_from, law_blank_lines, lemma_text_holds, shows};
use crate::clock::without_clock;
use crate::echo::{
    agree, any_echo, echo_end_from, echo_lines, echo_of, echo_text, echoed_chars, first_entry,
    grok_turn_offset, last_entry, last_real_entry, marked_echo_of, marked_prompt_offset,
    real_grok_turn, truncated_echo, without_prompt_mark, wrapped_end,
};
use crate::line_laws::{
    compacted_parts, lemma_compacted_alike, lemma_compacted_parts_last, lemma_words_are_words,
};
use crate::lines::{compacted, joined, joined_lines, lines_of, normalized, offset_lines, words_of};
use crate::text::{
    has_prefix, has_suffix, has_text, leading_count, lemma_position_of, lemma_trimmed_end_of,
    lemma_trimmed_start, lemma_trimmed_start_padding, occurs_at, position_of, trimmed_end,
    trimmed_end_of, trimmed_start, without_suffixes, CharSet,
};
use vstd::prelude::*;

verus! {

/// The marks of Grok, Codex and AGY before a prompt do not belong to its text, nor does the
/// white space before a mark.
pub proof fn law_prompt_marks_are_dropped(indent: Seq<char>, mark: Seq<char>, text: Seq<char>)
    requires
        forall|i: int| 0 <= i < indent.len() ==> is_white_space(#[trigger] indent[i]),
        mark == "❯ "@ || mark == "› "@ || mark == "> "@,
    ensures
        echo_text(indent + (mark + text)) == normalized(without_clock(text)),
{
    reveal_strlit("❯ ");
    reveal_strlit("› ");
    reveal_strlit("> ");
    let marked = mark + text;
    lemma_trimmed_start_padding(indent, marked);
    assert(marked[0] == mark[0]);
    assert(trimmed_start(marked) == marked);
    assert(marked.take(2) =~= mark);
    assert(marked.skip(2) =~= text);
    assert(without_prompt_mark(marked) == text);
}

/// Words joined by single blanks do not end with white space.
proof fn lemma_normalized_end(t: Seq<char>)
    ensures
        normalized(t).len() > 0 ==> !is_white_space(normalized(t).last()),
{
    let words = words_of(t);
    lemma_words_are_words(t);
    if words.len() > 0 {
        let last = words[words.len() - 1];
        assert(last.len() > 0);
        assert(joined(words, ' ').last() == last[last.len() - 1]);
    }
}

/// A piece of an echo that is not cut off counts with every character that is no white space.
pub proof fn lemma_echoed_chars(line: Seq<char>)
    requires
        echo_text(line).len() > 0,
        !truncated_echo(echo_text(line)),
    ensures
        echoed_chars(echo_text(line)) == compacted(echo_text(line)),
        compacted(echo_text(line)).len() > 0,
{
    reveal_strlit("…");
    let piece = echo_text(line);
    lemma_normalized_end(without_clock(without_prompt_mark(trimmed_start(line))));
    assert(trimmed_end(piece) == piece);
    assert(piece.last() != '…') by {
        if piece.last() == '…' {
            assert(piece.skip(piece.len() - 1) =~= "…"@);
        }
    }
    assert(trimmed_end_of(piece, CharSet::Only('…')) == piece);
    assert(without_suffixes(piece, "..."@) == piece);
    assert(compacted(piece) == compacted(piece.drop_last()).push(piece.last()));
}

/// The texts that `lines` echo.
pub open spec fn echo_pieces(lines: Seq<Seq<char>>) -> Seq<Seq<char>> {
    Seq::new(lines.len(), |i: int| echo_text(lines[i]))
}

/// Whether the first `count` of `lines` show an echo in pieces: none is empty or cut off, and no
/// separator or chrome stands between them.
pub open spec fn echo_in_pieces(lines: Seq<Seq<char>>, count: nat) -> bool {
    &&& 0 < count <= lines.len()
    &&& forall|i: int| #![trigger lines[i]]
        0 <= i < count ==> {
            &&& echo_text(lines[i]).len() > 0
            &&& !truncated_echo(echo_text(lines[i]))
            &&& i > 0 ==> !tui_separator(lines[i]) && !grok_chrome_line(lines[i])
        }
}

proof fn lemma_echo_in_pieces(
    lines: Seq<Seq<char>>,
    expected: Seq<char>,
    count: nat,
    index: nat,
)
    requires
        echo_in_pieces(lines, count),
        compacted_parts(echo_pieces(lines.take(count as int))) == expected,
        index < count,
    ensures
        echo_end_from(
            lines,
            expected,
            index,
            compacted_parts(echo_pieces(lines.take(count as int)).take(index as int)),
        ) == count,
    decreases count - index,
{
    let pieces = echo_pieces(lines.take(count as int));
    let line = lines[index as int];
    let seen = compacted_parts(pieces.take(index as int));
    let now = compacted_parts(pieces.take(index as int + 1));
    lemma_echoed_chars(line);
    assert(pieces.take(index as int + 1).drop_last() =~= pieces.take(index as int));
    lemma_compacted_parts_last(pieces.take(index as int + 1));
    assert(now == seen + echoed_chars(echo_text(line)));
    if index + 1 == count {
        assert(pieces.take(index as int + 1) =~= pieces);
        assert(now.take(expected.len() as int) =~= expected);
    } else {
        lemma_compacted_parts_grow(pieces, index as int + 1);
        let next = lines[index as int + 1];
        lemma_echoed_chars(next);
        assert(pieces[index as int + 1] == echo_text(next));
        lemma_echo_in_pieces(lines, expected, count, index + 1);
    }
}

/// The characters of the first pieces are a beginning of those of all pieces, and a shorter one
/// if the next piece has any.
proof fn lemma_compacted_parts_grow(parts: Seq<Seq<char>>, count: int)
    requires
        0 <= count < parts.len(),
    ensures
        has_prefix(compacted_parts(parts), compacted_parts(parts.take(count))),
        compacted_parts(parts.take(count)).len() + compacted(parts[count]).len()
            <= compacted_parts(parts).len(),
    decreases parts.len(),
{
    let shorter = parts.drop_last();
    lemma_compacted_parts_last(parts);
    let first = compacted_parts(parts.take(count));
    if count == shorter.len() {
        assert(parts.take(count) =~= shorter);
        assert(compacted_parts(parts).take(first.len() as int) =~= first);
    } else {
        lemma_compacted_parts_grow(shorter, count);
        assert(shorter.take(count) =~= parts.take(count));
        assert(compacted_parts(parts).take(first.len() as int) =~= compacted_parts(shorter).take(
            first.len() as int,
        ));
    }
}

/// An echo is taken off as a whole, wherever the screen broke it into lines, within a word too:
/// the lines that together show the prompt are those that go.
pub proof fn law_wrapped_echo_is_consumed(lines: Seq<Seq<char>>, prompt: Seq<char>, count: nat)
    requires
        compacted(prompt).len() > 0,
        echo_in_pieces(lines, count),
        compacted_parts(echo_pieces(lines.take(count as int))) == compacted(prompt),
    ensures
        echo_lines(lines, prompt) == count,
{
    lemma_echo_in_pieces(lines, compacted(prompt), count, 0);
    assert(echo_pieces(lines.take(count as int)).take(0) =~= seq![]);
    assert(compacted_parts(seq![]) =~= Seq::<char>::empty());
}

/// An echo that the screen cut off ends with the line that was cut.
pub proof fn law_cut_echo_ends_there(lines: Seq<Seq<char>>, prompt: Seq<char>)
    requires
        compacted(prompt).len() > 0,
        lines.len() > 0,
        echo_text(lines[0]).len() > 0,
        truncated_echo(echo_text(lines[0])),
    ensures
        echo_lines(lines, prompt) == 1,
{
}

/// At least the first line is taken for the echo, and never more than there are.
pub proof fn law_echo_is_within_the_lines(lines: Seq<Seq<char>>, prompt: Seq<char>)
    requires
        lines.len() > 0,
    ensures
        1 <= echo_lines(lines, prompt) <= lines.len(),
{
    if compacted(prompt).len() == 0 {
        lemma_wrapped_end(lines, leading_count(lines[0], ' '), 1);
    } else {
        lemma_echo_end(lines, compacted(prompt), 0, Seq::empty());
    }
}

proof fn lemma_wrapped_end(lines: Seq<Seq<char>>, indent: nat, index: nat)
    requires
        index <= lines.len(),
    ensures
        index <= wrapped_end(lines, indent, index) <= lines.len(),
    decreases lines.len() - index,
{
    if index < lines.len() {
        lemma_wrapped_end(lines, indent, index + 1);
    }
}

proof fn lemma_echo_end(lines: Seq<Seq<char>>, expected: Seq<char>, index: nat, seen: Seq<char>)
    requires
        lines.len() > 0,
    ensures
        1 <= echo_end_from(lines, expected, index, seen),
        index <= lines.len() ==> echo_end_from(lines, expected, index, seen) <= lines.len(),
    decreases lines.len() - index,
{
    if index < lines.len() {
        let now = seen + echoed_chars(echo_text(lines[index as int]));
        lemma_echo_end(lines, expected, index + 1, seen);
        lemma_echo_end(lines, expected, index + 1, now);
    }
}

/// Whether the `i`th of `entries` starts at `offset` and is `wanted`.
pub open spec fn entry_fits(
    entries: Seq<(nat, Seq<char>)>,
    i: int,
    offset: nat,
    wanted: spec_fn(Seq<char>) -> bool,
) -> bool {
    0 <= i < entries.len() && entries[i].0 == offset && wanted(entries[i].1)
}

/// Whether none of `entries` from `start` until `end` is `wanted`.
pub open spec fn none_wanted(
    entries: Seq<(nat, Seq<char>)>,
    start: int,
    end: int,
    wanted: spec_fn(Seq<char>) -> bool,
) -> bool {
    forall|j: int| #![trigger entries[j]] start <= j < end ==> !wanted(entries[j].1)
}

/// Whether work of Grok follows none of the `wanted` of `entries` from `start` on.
pub open spec fn none_worked(
    t: Seq<char>,
    entries: Seq<(nat, Seq<char>)>,
    start: int,
    wanted: spec_fn(Seq<char>) -> bool,
) -> bool {
    forall|j: int| #![trigger entries[j]]
        start <= j < entries.len() ==> !(wanted(entries[j].1) && real_grok_turn(t, entries[j].0))
}

/// Whether `offset` is where the first `wanted` of `entries` starts.
pub open spec fn starts_first(
    entries: Seq<(nat, Seq<char>)>,
    offset: nat,
    wanted: spec_fn(Seq<char>) -> bool,
) -> bool {
    exists|i: int| #[trigger]
        entry_fits(entries, i, offset, wanted) && none_wanted(entries, 0, i, wanted)
}

proof fn lemma_first_entry(entries: Seq<(nat, Seq<char>)>, wanted: spec_fn(Seq<char>) -> bool)
    ensures
        match first_entry(entries, wanted) {
            Some(offset) => starts_first(entries, offset, wanted),
            None => none_wanted(entries, 0, entries.len() as int, wanted),
        },
    decreases entries.len(),
{
    if entries.len() > 0 {
        let shorter = entries.drop_last();
        let n = entries.len() as int;
        lemma_first_entry(shorter, wanted);
        match first_entry(shorter, wanted) {
            Some(offset) => {
                let i = choose|i: int| #[trigger]
                    entry_fits(shorter, i, offset, wanted) && none_wanted(shorter, 0, i, wanted);
                assert forall|j: int| #![trigger entries[j]] 0 <= j < i implies !wanted(
                    entries[j].1,
                ) by {
                    assert(shorter[j] == entries[j]);
                }
                assert(entry_fits(entries, i, offset, wanted));
                assert(starts_first(entries, offset, wanted));
            },
            None => {
                assert forall|j: int| #![trigger entries[j]] 0 <= j < n - 1 implies !wanted(
                    entries[j].1,
                ) by {
                    assert(shorter[j] == entries[j]);
                }
                if wanted(entries.last().1) {
                    assert(entry_fits(entries, n - 1, entries.last().0, wanted));
                    assert(starts_first(entries, entries.last().0, wanted));
                }
            },
        }
    }
}

/// Whether `offset` is where the last `wanted` of `entries` starts.
pub open spec fn starts_last(
    entries: Seq<(nat, Seq<char>)>,
    offset: nat,
    wanted: spec_fn(Seq<char>) -> bool,
) -> bool {
    exists|i: int| #[trigger]
        entry_fits(entries, i, offset, wanted) && none_wanted(
            entries,
            i + 1,
            entries.len() as int,
            wanted,
        )
}

proof fn lemma_last_entry(entries: Seq<(nat, Seq<char>)>, wanted: spec_fn(Seq<char>) -> bool)
    ensures
        match last_entry(entries, wanted) {
            Some(offset) => starts_last(entries, offset, wanted),
            None => none_wanted(entries, 0, entries.len() as int, wanted),
        },
    decreases entries.len(),
{
    if entries.len() > 0 {
        let shorter = entries.drop_last();
        let n = entries.len() as int;
        if wanted(entries.last().1) {
            assert(entry_fits(entries, n - 1, entries.last().0, wanted));
            assert(none_wanted(entries, n - 1 + 1, n, wanted));
            assert(starts_last(entries, entries.last().0, wanted));
        } else {
            lemma_last_entry(shorter, wanted);
            match last_entry(shorter, wanted) {
                Some(offset) => {
                    let i = choose|i: int| #[trigger]
                        entry_fits(shorter, i, offset, wanted) && none_wanted(
                            shorter,
                            i + 1,
                            n - 1,
                            wanted,
                        );
                    assert forall|j: int| #![trigger entries[j]] i + 1 <= j < n implies !wanted(
                        entries[j].1,
                    ) by {
                        if j < n - 1 {
                            assert(shorter[j] == entries[j]);
                        }
                    }
                    assert(entry_fits(entries, i, offset, wanted));
                    assert(starts_last(entries, offset, wanted));
                },
                None => {
                    assert forall|j: int| #![trigger entries[j]] 0 <= j < n implies !wanted(
                        entries[j].1,
                    ) by {
                        if j < n - 1 {
                            assert(shorter[j] == entries[j]);
                        }
                    }
                },
            }
        }
    }
}

proof fn lemma_last_real_entry(
    t: Seq<char>,
    entries: Seq<(nat, Seq<char>)>,
    wanted: spec_fn(Seq<char>) -> bool,
)
    ensures
        match last_real_entry(t, entries, wanted) {
            Some(offset) => real_grok_turn(t, offset) && exists|i: int| #[trigger]
                entry_fits(entries, i, offset, wanted) && none_worked(t, entries, i + 1, wanted),
            None => none_worked(t, entries, 0, wanted),
        },
    decreases entries.len(),
{
    if entries.len() > 0 {
        let shorter = entries.drop_last();
        let n = entries.len() as int;
        if wanted(entries.last().1) && real_grok_turn(t, entries.last().0) {
            assert(entry_fits(entries, n - 1, entries.last().0, wanted) && none_worked(
                t,
                entries,
                n - 1 + 1,
                wanted,
            ));
        } else {
            lemma_last_real_entry(t, shorter, wanted);
            match last_real_entry(t, shorter, wanted) {
                Some(offset) => {
                    let i = choose|i: int| #[trigger]
                        entry_fits(shorter, i, offset, wanted) && none_worked(
                            t,
                            shorter,
                            i + 1,
                            wanted,
                        );
                    assert forall|j: int| #![trigger entries[j]] i + 1 <= j < n implies !(wanted(
                        entries[j].1,
                    ) && real_grok_turn(t, entries[j].0)) by {
                        if j < n - 1 {
                            assert(shorter[j] == entries[j]);
                        }
                    }
                    assert(entry_fits(entries, i, offset, wanted) && none_worked(
                        t,
                        entries,
                        i + 1,
                        wanted,
                    ));
                },
                None => {
                    assert forall|j: int| #![trigger entries[j]] 0 <= j < n implies !(wanted(
                        entries[j].1,
                    ) && real_grok_turn(t, entries[j].0)) by {
                        if j < n - 1 {
                            assert(shorter[j] == entries[j]);
                        }
                    }
                },
            }
        }
    }
}

/// A prompt line that work of Grok follows is preferred to one that none follows, and of several
/// the last is taken; where none is followed by work, the first prompt line is taken.
pub proof fn law_real_turn_is_preferred(t: Seq<char>, wanted: spec_fn(Seq<char>) -> bool)
    ensures
        match grok_turn_offset(t, wanted) {
            Some(offset) => exists|i: int| #[trigger]
                entry_fits(offset_lines(t), i, offset, wanted) && if real_grok_turn(t, offset) {
                    none_worked(t, offset_lines(t), i + 1, wanted)
                } else {
                    none_worked(t, offset_lines(t), 0, wanted) && none_wanted(
                        offset_lines(t),
                        0,
                        i,
                        wanted,
                    )
                },
            None => none_wanted(offset_lines(t), 0, offset_lines(t).len() as int, wanted),
        },
{
    let entries = offset_lines(t);
    lemma_last_real_entry(t, entries, wanted);
    lemma_first_entry(entries, wanted);
    if last_real_entry(t, entries, wanted) is None {
        if let Some(offset) = first_entry(entries, wanted) {
            let i = choose|i: int| #[trigger]
                entry_fits(entries, i, offset, wanted) && none_wanted(entries, 0, i, wanted);
            assert(!(wanted(entries[i].1) && real_grok_turn(t, entries[i].0)));
        }
    }
}

/// Whether the turn of Grok begins with the `k`th of `entries`, the lines of `t`: it is `wanted`, and
/// it is the last of those that work follows, or the first where work follows none.
pub open spec fn turn_begins_at(
    t: Seq<char>,
    entries: Seq<(nat, Seq<char>)>,
    k: int,
    wanted: spec_fn(Seq<char>) -> bool,
) -> bool {
    &&& 0 <= k < entries.len()
    &&& wanted(entries[k].1)
    &&& if real_grok_turn(t, entries[k].0) {
        none_worked(t, entries, k + 1, wanted)
    } else {
        none_worked(t, entries, 0, wanted) && none_wanted(entries, 0, k, wanted)
    }
}

proof fn lemma_last_worked(
    t: Seq<char>,
    entries: Seq<(nat, Seq<char>)>,
    k: int,
    wanted: spec_fn(Seq<char>) -> bool,
)
    requires
        0 <= k < entries.len(),
        wanted(entries[k].1),
        real_grok_turn(t, entries[k].0),
        none_worked(t, entries, k + 1, wanted),
    ensures
        last_real_entry(t, entries, wanted) == Some(entries[k].0),
    decreases entries.len(),
{
    let n = entries.len() as int;
    if k < n - 1 {
        let shorter = entries.drop_last();
        assert(!(wanted(entries[n - 1].1) && real_grok_turn(t, entries[n - 1].0)));
        assert forall|j: int| #![trigger shorter[j]] k + 1 <= j < shorter.len() implies !(wanted(
            shorter[j].1,
        ) && real_grok_turn(t, shorter[j].0)) by {
            assert(shorter[j] == entries[j]);
        }
        assert(shorter[k] == entries[k]);
        lemma_last_worked(t, shorter, k, wanted);
    }
}

proof fn lemma_none_worked(
    t: Seq<char>,
    entries: Seq<(nat, Seq<char>)>,
    wanted: spec_fn(Seq<char>) -> bool,
)
    requires
        none_worked(t, entries, 0, wanted),
    ensures
        last_real_entry(t, entries, wanted) is None,
    decreases entries.len(),
{
    let n = entries.len() as int;
    if n > 0 {
        let shorter = entries.drop_last();
        assert(!(wanted(entries[n - 1].1) && real_grok_turn(t, entries[n - 1].0)));
        assert forall|j: int| #![trigger shorter[j]] 0 <= j < shorter.len() implies !(wanted(
            shorter[j].1,
        ) && real_grok_turn(t, shorter[j].0)) by {
            assert(shorter[j] == entries[j]);
        }
        lemma_none_worked(t, shorter, wanted);
    }
}

proof fn lemma_first_wanted(
    entries: Seq<(nat, Seq<char>)>,
    k: int,
    wanted: spec_fn(Seq<char>) -> bool,
)
    requires
        0 <= k < entries.len(),
        wanted(entries[k].1),
        none_wanted(entries, 0, k, wanted),
    ensures
        first_entry(entries, wanted) == Some(entries[k].0),
    decreases entries.len(),
{
    let shorter = entries.drop_last();
    if k < shorter.len() {
        assert forall|j: int| #![trigger shorter[j]] 0 <= j < k implies !wanted(shorter[j].1) by {
            assert(shorter[j] == entries[j]);
        }
        assert(shorter[k] == entries[k]);
        lemma_first_wanted(shorter, k, wanted);
    } else {
        lemma_first_entry(shorter, wanted);
        if let Some(offset) = first_entry(shorter, wanted) {
            let i = choose|i: int| #[trigger]
                entry_fits(shorter, i, offset, wanted) && none_wanted(shorter, 0, i, wanted);
            assert(shorter[i] == entries[i]);
        }
    }
}

/// The line with which a turn of Grok begins is the one that is taken.
pub proof fn law_beginning_of_the_turn_is_taken(
    t: Seq<char>,
    k: int,
    wanted: spec_fn(Seq<char>) -> bool,
)
    requires
        turn_begins_at(t, offset_lines(t), k, wanted),
    ensures
        grok_turn_offset(t, wanted) == Some(offset_lines(t)[k].0),
{
    let entries = offset_lines(t);
    if real_grok_turn(t, entries[k].0) {
        lemma_last_worked(t, entries, k, wanted);
    } else {
        lemma_none_worked(t, entries, wanted);
        lemma_first_wanted(entries, k, wanted);
    }
}

/// A turn begins with the only line that is wanted, whether or not work follows it.
pub proof fn law_only_prompt_begins_the_turn(
    t: Seq<char>,
    k: int,
    wanted: spec_fn(Seq<char>) -> bool,
)
    requires
        0 <= k < offset_lines(t).len(),
        wanted(offset_lines(t)[k].1),
        none_wanted(offset_lines(t), 0, k, wanted),
        none_wanted(offset_lines(t), k + 1, offset_lines(t).len() as int, wanted),
    ensures
        turn_begins_at(t, offset_lines(t), k, wanted),
{
    let entries = offset_lines(t);
    if !real_grok_turn(t, entries[k].0) {
        assert forall|j: int| #![trigger entries[j]] 0 <= j < entries.len() implies !(wanted(
            entries[j].1,
        ) && real_grok_turn(t, entries[j].0)) by {
            if j < k {
                assert(!wanted(entries[j].1));
            } else if j > k {
                assert(!wanted(entries[j].1));
            }
        }
    }
}

/// The box that Grok reads its next prompt from is never taken for a prompt, whatever it shows.
pub proof fn law_input_box_is_no_prompt(t: Seq<char>, first_line: Seq<char>, marker: Seq<char>)
    ensures
        grok_turn_offset(t, echo_of(first_line)) matches Some(offset) ==> exists|i: int|
            #[trigger] entry_fits(offset_lines(t), i, offset, echo_of(first_line))
                && !grok_input_box_line(offset_lines(t)[i].1),
        grok_turn_offset(t, any_echo()) matches Some(offset) ==> exists|i: int|
            #[trigger] entry_fits(offset_lines(t), i, offset, any_echo()) && !grok_input_box_line(
                offset_lines(t)[i].1,
            ),
        marked_prompt_offset(t, first_line, marker) matches Some(offset) ==> exists|i: int|
            #[trigger] entry_fits(
                offset_lines(t),
                i,
                offset,
                marked_echo_of(compacted(first_line), marker),
            ) && !grok_input_box_line(offset_lines(t)[i].1),
{
    law_real_turn_is_preferred(t, echo_of(first_line));
    law_real_turn_is_preferred(t, any_echo());
    lemma_last_entry(offset_lines(t), marked_echo_of(compacted(first_line), marker));
}

/// Of several lines that echo a prompt behind a marker, the last one is taken.
pub proof fn law_last_marked_prompt_is_taken(
    t: Seq<char>,
    first_line: Seq<char>,
    marker: Seq<char>,
)
    requires
        compacted(first_line).len() > 0,
    ensures
        ({
            let wanted = marked_echo_of(compacted(first_line), marker);
            match marked_prompt_offset(t, first_line, marker) {
                Some(offset) => starts_last(offset_lines(t), offset, wanted),
                None => none_wanted(offset_lines(t), 0, offset_lines(t).len() as int, wanted),
            }
        }),
{
    lemma_last_entry(offset_lines(t), marked_echo_of(compacted(first_line), marker));
}

/// What the first `count` of `lines` say of a prompt, white space apart.
pub open spec fn said_by(lines: Seq<Seq<char>>, count: int) -> Seq<char> {
    compacted_parts(echo_pieces(lines.take(count)))
}

/// Whether the first `count` of `lines` say a beginning of the `expected` characters and not yet all
/// of them: no line of theirs is cut off, and none behind the first is a separator or chrome. Lines
/// that say nothing may stand among them.
pub open spec fn echo_so_far(lines: Seq<Seq<char>>, expected: Seq<char>, count: int) -> bool {
    &&& 0 <= count <= lines.len()
    &&& forall|i: int| #![trigger lines[i]]
        0 <= i < count ==> {
            &&& !truncated_echo(echo_text(lines[i]))
            &&& i > 0 ==> !tui_separator(lines[i]) && !grok_chrome_line(lines[i])
        }
    &&& said_by(lines, count).len() < expected.len()
    &&& has_prefix(expected, said_by(lines, count))
}

proof fn lemma_said_by(lines: Seq<Seq<char>>, count: int)
    requires
        0 <= count < lines.len(),
    ensures
        said_by(lines, count + 1) == said_by(lines, count) + compacted(echo_text(lines[count])),
{
    let now = echo_pieces(lines.take(count + 1));
    let before = echo_pieces(lines.take(count));
    assert(now.drop_last() =~= before);
    assert(now.last() == echo_text(lines[count]));
    lemma_compacted_parts_last(now);
}

proof fn lemma_nothing_said(piece: Seq<char>)
    requires
        piece.len() == 0,
    ensures
        compacted(piece).len() == 0,
        !truncated_echo(piece),
{
    reveal_strlit("…");
    reveal_strlit("...");
}

/// The end of an echo is looked for behind the lines that belong to it.
proof fn lemma_echo_so_far(lines: Seq<Seq<char>>, expected: Seq<char>, count: int)
    requires
        echo_so_far(lines, expected, count),
    ensures
        echo_end_from(lines, expected, 0, Seq::empty()) == echo_end_from(
            lines,
            expected,
            count as nat,
            said_by(lines, count),
        ),
    decreases count,
{
    if count == 0 {
        assert(echo_pieces(lines.take(0)) =~= seq![]);
        assert(said_by(lines, 0) =~= Seq::<char>::empty());
    } else {
        let at = count - 1;
        let seen = said_by(lines, at);
        let now = said_by(lines, count);
        let piece = echo_text(lines[at]);
        lemma_said_by(lines, at);
        assert(seen =~= now.take(seen.len() as int));
        assert(expected.take(seen.len() as int) =~= expected.take(now.len() as int).take(
            seen.len() as int,
        ));
        lemma_echo_so_far(lines, expected, at);
        if piece.len() == 0 {
            lemma_nothing_said(piece);
            assert(seen =~= now);
        } else {
            lemma_echoed_chars(lines[at]);
            assert(now == seen + echoed_chars(piece));
        }
    }
}

/// An echo is taken off as a whole, also where lines that say nothing stand in it, as between the
/// paragraphs of a prompt: it ends with the line that completes the prompt.
pub proof fn law_echo_with_gaps_is_consumed(
    lines: Seq<Seq<char>>,
    prompt: Seq<char>,
    count: int,
)
    requires
        0 < count <= lines.len(),
        forall|i: int| #![trigger lines[i]]
            0 <= i < count ==> {
                &&& !truncated_echo(echo_text(lines[i]))
                &&& i > 0 ==> !tui_separator(lines[i]) && !grok_chrome_line(lines[i])
            },
        echo_text(lines[count - 1]).len() > 0,
        said_by(lines, count) == compacted(prompt),
    ensures
        echo_lines(lines, prompt) == count,
{
    let at = count - 1;
    let expected = compacted(prompt);
    let line = lines[at];
    lemma_said_by(lines, at);
    lemma_echoed_chars(line);
    assert(expected.take(said_by(lines, at).len() as int) =~= said_by(lines, at));
    assert(echo_so_far(lines, expected, at));
    lemma_echo_so_far(lines, expected, at);
    assert(said_by(lines, count).take(expected.len() as int) =~= expected);
}

/// The line that completes the prompt ends its echo, even if it goes on.
pub proof fn law_completing_line_ends_the_echo(
    lines: Seq<Seq<char>>,
    prompt: Seq<char>,
    count: int,
)
    requires
        echo_so_far(lines, compacted(prompt), count),
        count < lines.len(),
        count > 0 ==> !tui_separator(lines[count]) && !grok_chrome_line(lines[count]),
        echo_text(lines[count]).len() > 0,
        truncated_echo(echo_text(lines[count])) || has_prefix(
            said_by(lines, count + 1),
            compacted(prompt),
        ),
    ensures
        echo_lines(lines, prompt) == count + 1,
{
    lemma_echo_so_far(lines, compacted(prompt), count);
    lemma_said_by(lines, count);
    if !truncated_echo(echo_text(lines[count])) {
        lemma_echoed_chars(lines[count]);
    }
}

/// A separator or chrome ends an echo that is not complete, and so does a line that says what the
/// prompt does not; it is no part of the echo unless it is the first.
pub proof fn law_other_lines_end_the_echo(lines: Seq<Seq<char>>, prompt: Seq<char>, count: int)
    requires
        echo_so_far(lines, compacted(prompt), count),
        count < lines.len(),
        (count > 0 && (tui_separator(lines[count]) || grok_chrome_line(lines[count]))) || (
        echo_text(lines[count]).len() > 0 && !truncated_echo(echo_text(lines[count]))
            && !has_prefix(said_by(lines, count + 1), compacted(prompt)) && !has_prefix(
            compacted(prompt),
            said_by(lines, count + 1),
        )),
    ensures
        echo_lines(lines, prompt) == if count == 0 {
            1
        } else {
            count
        },
{
    lemma_echo_so_far(lines, compacted(prompt), count);
    lemma_said_by(lines, count);
    if echo_text(lines[count]).len() > 0 && !truncated_echo(echo_text(lines[count])) {
        lemma_echoed_chars(lines[count]);
    }
}

/// Where the lines end before the prompt does, the first line alone is taken for the echo.
pub proof fn law_unfinished_echo_is_one_line(lines: Seq<Seq<char>>, prompt: Seq<char>)
    requires
        lines.len() > 0,
        echo_so_far(lines, compacted(prompt), lines.len() as int),
    ensures
        echo_lines(lines, prompt) == 1,
{
    lemma_echo_so_far(lines, compacted(prompt), lines.len() as int);
}

/// Whether `line` goes on with a prompt that `first` begins, by its indentation alone.
pub open spec fn goes_on_with_prompt(first: Seq<char>, line: Seq<char>) -> bool {
    &&& !blank_from(line, 0)
    &&& !tui_separator(line)
    &&& !grok_chrome_line(line)
    &&& !shows(line, seq!['❯'])
    &&& leading_count(line, ' ') > leading_count(first, ' ')
}

/// The echo of a blank prompt is the first line and those below it that are indented further.
pub proof fn law_echo_of_a_blank_prompt(lines: Seq<Seq<char>>, prompt: Seq<char>)
    requires
        lines.len() > 0,
        blank_from(prompt, 0),
    ensures
        1 <= echo_lines(lines, prompt) <= lines.len(),
        forall|i: int|
            1 <= i < echo_lines(lines, prompt) ==> goes_on_with_prompt(
                lines[0],
                #[trigger] lines[i],
            ),
        echo_lines(lines, prompt) < lines.len() ==> !goes_on_with_prompt(
            lines[0],
            lines[echo_lines(lines, prompt) as int],
        ),
{
    lemma_compacted_alike(prompt);
    lemma_wrapped_lines(lines, 1);
}

proof fn lemma_wrapped_lines(lines: Seq<Seq<char>>, index: nat)
    requires
        1 <= index <= lines.len(),
    ensures
        ({
            let end = wrapped_end(lines, leading_count(lines[0], ' '), index);
            &&& index <= end <= lines.len()
            &&& forall|i: int| index <= i < end ==> goes_on_with_prompt(lines[0], #[trigger] lines[i])
            &&& end < lines.len() ==> !goes_on_with_prompt(lines[0], lines[end as int])
        }),
    decreases lines.len() - index,
{
    if index < lines.len() {
        let line = lines[index as int];
        law_blank_lines(line);
        lemma_text_holds(line, '❯');
        if goes_on_with_prompt(lines[0], line) {
            lemma_wrapped_lines(lines, index + 1);
        }
    }
}

/// How far a line is indented is how many times the character stands before anything else.
pub proof fn law_leading_count(t: Seq<char>, c: char)
    ensures
        leading_count(t, c) <= t.len(),
        forall|i: int| 0 <= i < leading_count(t, c) ==> #[trigger] t[i] == c,
        leading_count(t, c) < t.len() ==> t[leading_count(t, c) as int] != c,
    decreases t.len(),
{
    if t.len() > 0 && t[0] == c {
        let rest = t.drop_first();
        law_leading_count(rest, c);
        assert forall|i: int| 0 <= i < leading_count(t, c) implies #[trigger] t[i] == c by {
            if i > 0 {
                assert(t[i] == rest[i - 1]);
            }
        }
    }
}

/// A line without a prompt mark says what it shows, without its indent and its clock.
pub proof fn law_plain_lines_say_their_text(indent: Seq<char>, text: Seq<char>)
    requires
        blank_from(indent, 0),
        text.len() > 0,
        !is_white_space(text[0]),
        text[0] != '❯',
        text[0] != '›',
        text[0] != '>',
    ensures
        echo_text(indent + text) == normalized(without_clock(text)),
{
    reveal_strlit("❯ ");
    reveal_strlit("› ");
    reveal_strlit("> ");
    lemma_trimmed_start_padding(indent, text);
    assert(trimmed_start(text) == text);
    if without_prompt_mark(text) != text {
        assert(text.take(2)[0] == text[0]);
    }
}

/// A blank line says nothing.
pub proof fn law_blank_lines_say_nothing(line: Seq<char>)
    requires
        blank_from(line, 0),
    ensures
        echo_text(line).len() == 0,
{
    reveal_strlit("❯ ");
    reveal_strlit("› ");
    reveal_strlit("> ");
    reveal_strlit(" AM");
    reveal_strlit(" PM");
    law_blank_lines(line);
    lemma_trimmed_start(line);
    let t = trimmed_start(line);
    if t.len() > 0 {
        assert(is_white_space(line[line.len() - t.len()]));
        assert(line.skip(line.len() - t.len())[0] == line[line.len() - t.len()]);
    }
    assert(t =~= seq![]);
    assert(without_clock(t) =~= seq![]);
    assert(words_of(without_clock(t)) =~= seq![]);
}

/// An echo is cut off if what it says ends with three dots, as one character or as three.
pub proof fn law_cut_echoes(t: Seq<char>)
    ensures
        truncated_echo(t) <==> exists|k: int| #[trigger]
            blank_from(t, k) && (1 <= k <= t.len() && t[k - 1] == '…' || 3 <= k <= t.len() && t[k
                - 1] == '.' && t[k - 2] == '.' && t[k - 3] == '.'),
{
    reveal_strlit("…");
    reveal_strlit("...");
    let end = trimmed_end(t);
    let n = end.len() as int;
    lemma_trimmed_end_of(t, CharSet::Space);
    assert forall|i: int| n <= i < t.len() implies is_white_space(#[trigger] t[i]) by {
        assert(CharSet::Space.contains(t[i]));
    }
    assert(blank_from(t, n));
    assert(forall|i: int| 0 <= i < n ==> #[trigger] end[i] == t[i]);
    if has_suffix(end, "…"@) {
        assert(end.skip(n - 1)[0] == end[n - 1]);
    }
    if has_suffix(end, "..."@) {
        assert(end.skip(n - 3)[0] == end[n - 3]);
        assert(end.skip(n - 3)[1] == end[n - 2]);
        assert(end.skip(n - 3)[2] == end[n - 1]);
    }
    assert forall|k: int| #[trigger] blank_from(t, k) && (1 <= k <= t.len() && t[k - 1] == '…' || 3
        <= k <= t.len() && t[k - 1] == '.' && t[k - 2] == '.' && t[k - 3] == '.') implies
        truncated_echo(t) by {
        assert(k == n) by {
            if k > n {
                assert(is_white_space(t[k - 1]));
            }
            if k < n {
                assert(is_white_space(t[n - 1]));
                assert(end.last() == t[n - 1]);
            }
        }
        if t[k - 1] == '…' {
            assert(end.skip(n - 1) =~= "…"@);
        } else {
            assert(end.skip(n - 3) =~= "..."@);
        }
    }
}

/// Whether two texts are the same as far as both go.
pub open spec fn alike(left: Seq<char>, right: Seq<char>) -> bool {
    forall|i: int| 0 <= i < left.len() && i < right.len() ==> #[trigger] left[i] == right[i]
}

proof fn lemma_agree(left: Seq<char>, right: Seq<char>)
    ensures
        agree(left, right) <==> alike(left, right),
{
    if has_prefix(left, right) {
        assert(forall|i: int|
            0 <= i < right.len() ==> left.take(right.len() as int)[i] == #[trigger] left[i]);
    }
    if has_prefix(right, left) {
        assert(forall|i: int|
            0 <= i < left.len() ==> right.take(left.len() as int)[i] == #[trigger] right[i]);
    }
    if alike(left, right) {
        if left.len() <= right.len() {
            assert(right.take(left.len() as int) =~= left);
        } else {
            assert(left.take(right.len() as int) =~= right);
        }
    }
}

/// A line shows a prompt if it is no part of the input box, says something, and says what the prompt
/// says as far as both go. Behind the mark of Codex or AGY white space does not matter, and the mark
/// of AGY is indented by two blanks at most.
pub proof fn law_lines_that_show_a_prompt(
    line: Seq<char>,
    first_line: Seq<char>,
    expected: Seq<char>,
    marker: Seq<char>,
)
    ensures
        echo_of(first_line)(line) <==> {
            &&& !grok_input_box_line(line)
            &&& echo_text(line).len() > 0
            &&& alike(first_line, echo_text(line))
        },
        any_echo()(line) <==> {
            &&& !grok_input_box_line(line)
            &&& has_text(line, "❯ "@)
            &&& echo_text(line).len() > 0
        },
        marked_echo_of(expected, marker)(line) <==> {
            &&& !grok_input_box_line(line)
            &&& has_prefix(trimmed_start(line), marker)
            &&& marker == "> "@ ==> leading_count(line, ' ') <= 2
            &&& compacted(echo_text(line)).len() > 0
            &&& alike(expected, compacted(echo_text(line)))
        },
{
    lemma_agree(first_line, echo_text(line));
    lemma_agree(expected, compacted(echo_text(line)));
}

/// Whether `work` stands in `t`, and no scroll mark before it.
pub open spec fn work_before_scroll(t: Seq<char>, work: Seq<char>) -> bool {
    exists|i: int| #[trigger]
        occurs_at(t, work, i) && forall|j: int| 0 <= j <= i ==> !(#[trigger] occurs_at(t, "▲"@, j))
}

/// Work of Grok follows a prompt if, within sixteen lines from it on, a tool call stands before any
/// scroll mark, or, where no tool call stands there, a thought does.
pub proof fn law_work_of_grok(t: Seq<char>, offset: nat)
    ensures
        ({
            let below = lines_of(suffix_at(t, offset));
            let near = joined_lines(
                if below.len() > 16 {
                    below.take(16)
                } else {
                    below
                },
            );
            real_grok_turn(t, offset) <==> if has_text(near, "◆ "@) {
                work_before_scroll(near, "◆ "@)
            } else {
                work_before_scroll(near, "Thought for "@)
            }
        }),
{
    let below = lines_of(suffix_at(t, offset));
    let near = joined_lines(
        if below.len() > 16 {
            below.take(16)
        } else {
            below
        },
    );
    reveal_strlit("◆ ");
    reveal_strlit("▲");
    reveal_strlit("Thought for ");
    lemma_position_of(near, "◆ "@);
    lemma_position_of(near, "Thought for "@);
    lemma_position_of(near, "▲"@);
    lemma_work(near, "◆ "@);
    lemma_work(near, "Thought for "@);
}

proof fn lemma_work(t: Seq<char>, work: Seq<char>)
    requires
        work.len() > 0,
        work[0] != '▲',
    ensures
        work_before_scroll(t, work) <==> match (position_of(t, work), position_of(t, "▲"@)) {
            (Some(i), Some(scroll)) => i < scroll,
            (Some(_), None) => true,
            (None, _) => false,
        },
{
    reveal_strlit("▲");
    lemma_position_of(t, work);
    lemma_position_of(t, "▲"@);
    if let Some(i) = position_of(t, work) {
        if let Some(scroll) = position_of(t, "▲"@) {
            if i < scroll {
                assert(forall|j: int| 0 <= j <= i ==> !(#[trigger] occurs_at(t, "▲"@, j)));
            } else {
                if i == scroll {
                    assert(t.subrange(i, i + work.len())[0] == t[i]);
                    assert(t.subrange(i, i + 1)[0] == t[i]);
                }
                assert forall|k: int| #[trigger] occurs_at(t, work, k) implies exists|j: int|
                    0 <= j <= k && #[trigger] occurs_at(t, "▲"@, j) by {
                    assert(i <= k);
                    assert(occurs_at(t, "▲"@, scroll));
                }
            }
        } else {
            assert(forall|j: int| !(#[trigger] occurs_at(t, "▲"@, j)));
            assert(occurs_at(t, work, i));
        }
    }
}

} // verus!
