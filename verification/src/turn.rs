//! The part of a screen that belongs to the current turn.

use crate::chars::{suffix_at, text_from};
use crate::classify::{is_codex_prompt_line, is_codex_status_footer, is_tui_separator, tui_separator};
use crate::echo::{
    after_prompt_echo, echo_of, find_grok_prompt_offset, find_marked_prompt_offset,
    grok_turn_offset, marked_prompt_offset, slice_after_prompt_echo,
};
use crate::lines::{
    join_lines, joined_lines, lemma_lines_before, lines, lines_before, lines_of,
};
use crate::response::{codex_end, first_line_of, trimmed_first_line};
use crate::text::{same_text, trim, trimmed};
use vstd::prelude::*;

verus! {

/// Whether the last `count` of `before` are the first `count` of `after`.
pub open spec fn overlaps(before: Seq<Seq<char>>, after: Seq<Seq<char>>, count: int) -> bool {
    &&& 0 <= count <= before.len()
    &&& count <= after.len()
    &&& before.skip(before.len() - count) == after.take(count)
}

/// The most lines, at most `count`, in which `after` begins as `before` ends.
pub open spec fn largest_overlap(
    before: Seq<Seq<char>>,
    after: Seq<Seq<char>>,
    count: int,
) -> int
    decreases count,
{
    if count <= 0 || overlaps(before, after, count) {
        count
    } else {
        largest_overlap(before, after, count - 1)
    }
}

/// In how many lines a snapshot begins as the one before it ends.
pub open spec fn snapshot_overlap(before: Seq<Seq<char>>, after: Seq<Seq<char>>) -> int {
    largest_overlap(
        before,
        after,
        if before.len() <= after.len() {
            before.len() as int
        } else {
            after.len() as int
        },
    )
}

/// What is new in the snapshot `after`: its lines after those with which `before` ends.
pub open spec fn delta(before: Seq<char>, after: Seq<char>) -> Seq<char> {
    let overlap = snapshot_overlap(lines_of(before), lines_of(after));
    if overlap > 0 {
        trimmed(joined_lines(lines_of(after).skip(overlap)))
    } else {
        trimmed(after)
    }
}

/// Whether `count` lines of `after` are those with which `before` ends.
fn overlap_matches(before: &[&str], after: &[&str], count: usize) -> (r: bool)
    requires
        count <= before@.len(),
        count <= after@.len(),
    ensures
        r == overlaps(before.deep_view(), after.deep_view(), count as int),
{
    let total: usize = before.len();
    let start: usize = total - count;
    let ghost left = before.deep_view().skip(start as int);
    let ghost right = after.deep_view().take(count as int);
    let mut i: usize = 0;
    while i < count
        invariant
            i <= count <= before@.len() == total,
            count <= after@.len(),
            start == before@.len() - count,
            left == before.deep_view().skip(start as int),
            right == after.deep_view().take(count as int),
            forall|j: int| 0 <= j < i ==> #[trigger] left[j] == right[j],
        decreases count - i,
    {
        assert(left[i as int] == before@[start + i]@);
        assert(right[i as int] == after@[i as int]@);
        if !same_text(before[start + i], after[i]) {
            return false;
        }
        i = i + 1;
    }
    assert(left =~= right);
    true
}

/// What is new in the snapshot `after`.
pub fn snapshot_delta(before: &str, after: &str) -> (r: String)
    ensures
        r@ == delta(before@, after@),
{
    let before_lines = lines(before);
    let after_lines = lines(after);
    let mut overlap: usize = if before_lines.len() <= after_lines.len() {
        before_lines.len()
    } else {
        after_lines.len()
    };
    while overlap > 0
        invariant
            before_lines.deep_view() == lines_of(before@),
            after_lines.deep_view() == lines_of(after@),
            overlap <= before_lines@.len(),
            overlap <= after_lines@.len(),
            snapshot_overlap(lines_of(before@), lines_of(after@)) == largest_overlap(
                lines_of(before@),
                lines_of(after@),
                overlap as int,
            ),
        decreases overlap,
    {
        if overlap_matches(before_lines.as_slice(), after_lines.as_slice(), overlap) {
            let rest = vstd::slice::slice_subrange(
                after_lines.as_slice(),
                overlap,
                after_lines.len(),
            );
            assert(rest.deep_view() =~= lines_of(after@).skip(overlap as int));
            let joined = join_lines(rest);
            return trim(joined.as_str()).to_owned();
        }
        overlap = overlap - 1;
    }
    trim(after).to_owned()
}

/// The lines that separate what an agent says from what follows.
pub open spec fn separator() -> spec_fn(Seq<char>) -> bool {
    |line: Seq<char>| tui_separator(line)
}

/// `t` up to the first separator.
pub open spec fn before_separator(t: Seq<char>) -> Seq<char> {
    joined_lines(lines_before(lines_of(t), separator()))
}

/// `output` up to the first separator.
pub fn take_until_separator(output: &str) -> (r: String)
    ensures
        r@ == before_separator(output@),
{
    let all = lines(output);
    let ghost each = lines_of(output@);
    let mut count: usize = 0;
    while count < all.len() && !is_tui_separator(all[count])
        invariant
            count <= all@.len(),
            all.deep_view() == each,
            forall|j: int| 0 <= j < count ==> !separator()(#[trigger] each[j]),
        decreases all@.len() - count,
    {
        assert(each[count as int] == all@[count as int]@);
        count = count + 1;
    }
    let kept = vstd::slice::slice_subrange(all.as_slice(), 0, count);
    proof {
        if count < all@.len() {
            assert(each[count as int] == all@[count as int]@);
        }
        lemma_lines_before(each, separator(), count as int);
        assert(kept.deep_view() =~= each.take(count as int));
    }
    join_lines(kept)
}

/// The first line of `t`, whatever it is, and the lines after it up to the end of what Codex says.
pub open spec fn before_codex_end(t: Seq<char>) -> Seq<char> {
    let all = lines_of(t);
    if all.len() == 0 {
        Seq::empty()
    } else {
        joined_lines(seq![all[0]] + lines_before(all.drop_first(), codex_end()))
    }
}

/// The first line of `output`, and the lines after it up to the end of what Codex says.
pub fn take_until_codex_end(output: &str) -> (r: String)
    ensures
        r@ == before_codex_end(output@),
{
    let all = lines(output);
    if all.len() == 0 {
        return String::new();
    }
    let ghost each = lines_of(output@);
    let ghost rest = each.drop_first();
    let mut count: usize = 1;
    while count < all.len() && !is_codex_prompt_line(all[count]) && !is_codex_status_footer(
        all[count],
    )
        invariant
            1 <= count <= all@.len(),
            all.deep_view() == each,
            rest == each.drop_first(),
            forall|j: int| 0 <= j < count - 1 ==> !codex_end()(#[trigger] rest[j]),
        decreases all@.len() - count,
    {
        assert(rest[count - 1] == all@[count as int]@);
        count = count + 1;
    }
    let kept = vstd::slice::slice_subrange(all.as_slice(), 0, count);
    proof {
        if count < all@.len() {
            assert(rest[count - 1] == all@[count as int]@);
        }
        lemma_lines_before(rest, codex_end(), count - 1);
        assert(kept.deep_view() =~= each.take(count as int));
        assert(each.take(count as int) =~= seq![each[0]] + rest.take(count - 1));
    }
    join_lines(kept)
}

/// What the screen `after` shows of the turn for `prompt`: what follows the last Codex echo of the
/// prompt, else the last echo with a plain mark, else the turn of Grok from its echo on, else what is
/// new since the screen `before`.
pub open spec fn turn_output(before: Seq<char>, after: Seq<char>, prompt: Seq<char>) -> Seq<char> {
    let asked = trimmed(prompt);
    let first_line = trimmed(first_line_of(asked));
    if first_line.len() == 0 {
        delta(before, after)
    } else {
        match (
            marked_prompt_offset(after, first_line, "› "@),
            marked_prompt_offset(after, first_line, "> "@),
            grok_turn_offset(after, echo_of(first_line)),
        ) {
            (Some(offset), _, _) => after_prompt_echo(
                before_codex_end(suffix_at(after, offset)),
                asked,
            ),
            (None, Some(offset), _) => after_prompt_echo(
                before_separator(suffix_at(after, offset)),
                asked,
            ),
            (None, None, Some(offset)) => before_separator(suffix_at(after, offset)),
            (None, None, None) => delta(before, after),
        }
    }
}

/// What the screen `after` shows of the turn for `prompt`.
pub fn current_turn_output(before: &str, after: &str, prompt: &str) -> (r: String)
    ensures
        r@ == turn_output(before@, after@, prompt@),
{
    let prompt = trim(prompt);
    let first_line = trimmed_first_line(prompt);
    if !first_line.is_empty() {
        match find_marked_prompt_offset(after, first_line, "› ") {
            Some(index) => {
                let region = take_until_codex_end(text_from(after, index));
                return slice_after_prompt_echo(region.as_str(), prompt);
            },
            None => {},
        }
        match find_marked_prompt_offset(after, first_line, "> ") {
            Some(index) => {
                let region = take_until_separator(text_from(after, index));
                return slice_after_prompt_echo(region.as_str(), prompt);
            },
            None => {},
        }
        match find_grok_prompt_offset(after, first_line) {
            Some(index) => {
                return take_until_separator(text_from(after, index));
            },
            None => {},
        }
    }
    snapshot_delta(before, after)
}

} // verus!
